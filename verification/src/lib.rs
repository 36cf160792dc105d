//! Reading and writing the Atom syndication format, with namespace-aware extensions.

pub mod builders;
pub mod chars;
pub mod codec;
pub mod elements;
pub mod entry;
pub mod equivalence;
pub mod error;
pub mod extension;
pub mod extension_writer;
pub mod feed;
pub mod namespace;
pub mod person;
pub mod roundtrip;
pub mod scope;
pub mod toxml;
pub mod util;
pub mod xml;

pub use crate::builders::{FeedBuilder, PersonBuilder};
pub use crate::elements::{Category, FixedDateTime, Generator, Link, Text};
pub use crate::entry::Entry;
pub use crate::error::{Error, NamespaceError, XmlError};
pub use crate::feed::{Feed, WriteConfig};
pub use crate::person::Person;
pub mod document_laws;
