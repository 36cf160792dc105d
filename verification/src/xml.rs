//! XML events as plain values: what a reader hands to the parsers of this
//! library, and what the serializers of this library hand to a writer.

use vstd::prelude::*;

verus! {

/// One attribute of a start tag, with its raw (possibly prefixed) name and its value.
#[derive(Debug, Clone, PartialEq, Eq)]
pub struct XmlAttribute {
    /// The attribute name as written, e.g. `xmlns:x` or `x:stars`.
    pub key: String,
    /// The attribute value, with references resolved.
    pub value: String,
}

/// One XML event.
#[derive(Debug, Clone, PartialEq, Eq)]
pub enum XmlEvent {
    /// A start tag (empty elements are read as a start tag and an end tag).
    Start { name: String, attributes: Vec<XmlAttribute> },
    /// An end tag.
    End { name: String },
    /// Character data.
    Text(String),
    /// A CDATA section's content.
    CData(String),
    /// A general reference `&name;`, with the text it resolves to when it is a
    /// predefined entity or a character reference.
    Reference { name: String, resolved: Option<String> },
    /// Anything else (comments, processing instructions, declarations).
    Other,
}

/// The view of an attribute: its raw name and value.
pub type AttributeEventView = (Seq<char>, Seq<char>);

/// The view of an [`XmlEvent`].
pub enum EventView {
    Start { name: Seq<char>, attributes: Seq<AttributeEventView> },
    End { name: Seq<char> },
    Text(Seq<char>),
    CData(Seq<char>),
    Reference { name: Seq<char>, resolved: Option<Seq<char>> },
    Other,
}

impl View for XmlAttribute {
    type V = AttributeEventView;

    open spec fn view(&self) -> AttributeEventView {
        (self.key@, self.value@)
    }
}

/// The views of a list of attributes.
pub open spec fn attributes_view(a: Seq<XmlAttribute>) -> Seq<AttributeEventView> {
    a.map_values(|x: XmlAttribute| x@)
}

impl View for XmlEvent {
    type V = EventView;

    open spec fn view(&self) -> EventView {
        match self {
            XmlEvent::Start { name, attributes } => EventView::Start {
                name: name@,
                attributes: attributes_view(attributes@),
            },
            XmlEvent::End { name } => EventView::End { name: name@ },
            XmlEvent::Text(t) => EventView::Text(t@),
            XmlEvent::CData(t) => EventView::CData(t@),
            XmlEvent::Reference { name, resolved } => EventView::Reference {
                name: name@,
                resolved: resolved.deep_view(),
            },
            XmlEvent::Other => EventView::Other,
        }
    }
}

/// The views of a list of events.
pub open spec fn events_view(e: Seq<XmlEvent>) -> Seq<EventView> {
    e.map_values(|x: XmlEvent| x@)
}

} // verus!
