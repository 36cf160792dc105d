//! Errors of reading and writing.

use vstd::prelude::*;
use vstd::string::*;

verus! {

/// Why an extension name or a namespace declaration was rejected.
#[derive(Debug, Clone, PartialEq, Eq)]
pub enum NamespaceError {
    /// A local name is not an XML NCName.
    InvalidNcName,
    /// A namespace URI is empty.
    EmptyNamespaceUri,
    /// A name uses the namespace URI reserved for declarations.
    ReservedXmlnsUri,
    /// An unqualified attribute is named `xmlns`.
    DeclarationAttributeName,
    /// An element carries one expanded attribute name twice.
    DuplicateAttribute,
    /// A declared prefix is not an NCName, or is reserved (`xml…` in any case).
    InvalidPrefix,
    /// A declaration binds the `xmlns` prefix or the `xmlns` URI.
    ReservedXmlnsBinding,
    /// The `xml` prefix is bound to another URI than the XML namespace.
    XmlPrefixMismatch,
    /// The XML namespace is bound to another prefix than `xml`.
    XmlNamespaceMismatch,
    /// A prefixed declaration has an empty URI.
    EmptyPrefixedDeclaration,
    /// A name has an empty prefix or local name, or more than one colon.
    MalformedName,
    /// A prefix or local name is not an NCName, or the prefix is `xmlns`.
    InvalidPrefixOrLocalName,
    /// A prefix is used without being declared.
    UnboundPrefix(String),
}

/// An XML error: a namespace violation, or one reported by the XML reader or writer.
#[derive(Debug, Clone, PartialEq, Eq)]
pub enum XmlError {
    /// A namespace or extension invariant was violated.
    Namespace(NamespaceError),
    /// The XML reader or writer failed, with its message.
    Syntax(String),
}

/// An error while reading or writing a feed.
#[derive(Debug, Clone, PartialEq, Eq)]
pub enum Error {
    /// An XML error.
    Xml(XmlError),
    /// The input did not begin with the expected element.
    InvalidStartTag,
    /// The input ended before the element was complete.
    Eof,
}

/// The view of a [`NamespaceError`].
pub enum NamespaceErrorView {
    InvalidNcName,
    EmptyNamespaceUri,
    ReservedXmlnsUri,
    DeclarationAttributeName,
    DuplicateAttribute,
    InvalidPrefix,
    ReservedXmlnsBinding,
    XmlPrefixMismatch,
    XmlNamespaceMismatch,
    EmptyPrefixedDeclaration,
    MalformedName,
    InvalidPrefixOrLocalName,
    UnboundPrefix(Seq<char>),
}

/// The view of an [`Error`].
pub enum ErrorView {
    Namespace(NamespaceErrorView),
    Syntax(Seq<char>),
    InvalidStartTag,
    Eof,
}

impl View for NamespaceError {
    type V = NamespaceErrorView;

    open spec fn view(&self) -> NamespaceErrorView {
        match self {
            NamespaceError::InvalidNcName => NamespaceErrorView::InvalidNcName,
            NamespaceError::EmptyNamespaceUri => NamespaceErrorView::EmptyNamespaceUri,
            NamespaceError::ReservedXmlnsUri => NamespaceErrorView::ReservedXmlnsUri,
            NamespaceError::DeclarationAttributeName => NamespaceErrorView::DeclarationAttributeName,
            NamespaceError::DuplicateAttribute => NamespaceErrorView::DuplicateAttribute,
            NamespaceError::InvalidPrefix => NamespaceErrorView::InvalidPrefix,
            NamespaceError::ReservedXmlnsBinding => NamespaceErrorView::ReservedXmlnsBinding,
            NamespaceError::XmlPrefixMismatch => NamespaceErrorView::XmlPrefixMismatch,
            NamespaceError::XmlNamespaceMismatch => NamespaceErrorView::XmlNamespaceMismatch,
            NamespaceError::EmptyPrefixedDeclaration => NamespaceErrorView::EmptyPrefixedDeclaration,
            NamespaceError::MalformedName => NamespaceErrorView::MalformedName,
            NamespaceError::InvalidPrefixOrLocalName => NamespaceErrorView::InvalidPrefixOrLocalName,
            NamespaceError::UnboundPrefix(p) => NamespaceErrorView::UnboundPrefix(p@),
        }
    }
}

impl View for XmlError {
    type V = ErrorView;

    open spec fn view(&self) -> ErrorView {
        match self {
            XmlError::Namespace(e) => ErrorView::Namespace(e@),
            XmlError::Syntax(m) => ErrorView::Syntax(m@),
        }
    }
}

impl View for Error {
    type V = ErrorView;

    open spec fn view(&self) -> ErrorView {
        match self {
            Error::Xml(e) => e@,
            Error::InvalidStartTag => ErrorView::InvalidStartTag,
            Error::Eof => ErrorView::Eof,
        }
    }
}

/// Builds the XML error used for namespace extension violations.
pub fn invalid_extension(kind: NamespaceError) -> (r: XmlError)
    ensures
        r@ == ErrorView::Namespace(kind@),
{
    XmlError::Namespace(kind)
}

/// Returns a namespace-invariant violation through the XML error channel.
pub fn malformed<T>(kind: NamespaceError) -> (r: Result<T, Error>)
    ensures
        r matches Err(e) && e@ == ErrorView::Namespace(kind@),
{
    Err(Error::Xml(invalid_extension(kind)))
}

/// The message of a namespace error.
pub open spec fn namespace_message(e: NamespaceErrorView) -> Seq<char> {
    match e {
        NamespaceErrorView::InvalidNcName => "invalid XML NCName"@,
        NamespaceErrorView::EmptyNamespaceUri => "namespace URI cannot be empty"@,
        NamespaceErrorView::ReservedXmlnsUri => "reserved xmlns namespace URI"@,
        NamespaceErrorView::DeclarationAttributeName => "namespace declaration attribute name"@,
        NamespaceErrorView::DuplicateAttribute => "duplicate expanded attribute name"@,
        NamespaceErrorView::InvalidPrefix => "invalid or reserved namespace prefix"@,
        NamespaceErrorView::ReservedXmlnsBinding => "reserved xmlns namespace binding"@,
        NamespaceErrorView::XmlPrefixMismatch => "xml prefix must use the XML namespace"@,
        NamespaceErrorView::XmlNamespaceMismatch => "XML namespace must use the xml prefix"@,
        NamespaceErrorView::EmptyPrefixedDeclaration => "prefixed namespace declarations cannot be empty"@,
        NamespaceErrorView::MalformedName => "malformed XML name"@,
        NamespaceErrorView::InvalidPrefixOrLocalName => "invalid XML prefix or local name"@,
        NamespaceErrorView::UnboundPrefix(p) => "unbound prefix '"@ + p + "'"@,
    }
}

impl NamespaceError {
    /// The message of this error.
    pub fn message(&self) -> (r: String)
        ensures
            r@ == namespace_message(self@),
    {
        match self {
            NamespaceError::InvalidNcName => String::from_str("invalid XML NCName"),
            NamespaceError::EmptyNamespaceUri => String::from_str("namespace URI cannot be empty"),
            NamespaceError::ReservedXmlnsUri => String::from_str("reserved xmlns namespace URI"),
            NamespaceError::DeclarationAttributeName => String::from_str("namespace declaration attribute name"),
            NamespaceError::DuplicateAttribute => String::from_str("duplicate expanded attribute name"),
            NamespaceError::InvalidPrefix => String::from_str("invalid or reserved namespace prefix"),
            NamespaceError::ReservedXmlnsBinding => String::from_str("reserved xmlns namespace binding"),
            NamespaceError::XmlPrefixMismatch => String::from_str("xml prefix must use the XML namespace"),
            NamespaceError::XmlNamespaceMismatch => String::from_str("XML namespace must use the xml prefix"),
            NamespaceError::EmptyPrefixedDeclaration => String::from_str(
                "prefixed namespace declarations cannot be empty",
            ),
            NamespaceError::MalformedName => String::from_str("malformed XML name"),
            NamespaceError::InvalidPrefixOrLocalName => String::from_str("invalid XML prefix or local name"),
            NamespaceError::UnboundPrefix(p) => {
                let mut m = String::from_str("unbound prefix '");
                m.append(p.as_str());
                m.append("'");
                m
            },
        }
    }
}

} // verus!
