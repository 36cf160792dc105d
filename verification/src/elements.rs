//! Simple Atom constructs: text, timestamps, categories, links and generators.

use vstd::prelude::*;

use crate::chars::{copy_opt_string, copy_string, str_eq};
use crate::error::{Error, ErrorView};
use crate::util::{atom_text, element_text};
use crate::xml::{
    attributes_view, events_view, AttributeEventView, EventView, XmlAttribute, XmlEvent,
};

verus! {

// ---------------------------------------------------------------------------
// Attributes
// ---------------------------------------------------------------------------

/// The value of the last attribute named `key`, if any.
pub open spec fn attribute_value(attrs: Seq<AttributeEventView>, key: Seq<char>) -> Option<Seq<char>>
    decreases attrs.len(),
{
    if attrs.len() == 0 {
        None
    } else if attrs.last().0 == key {
        Some(attrs.last().1)
    } else {
        attribute_value(attrs.drop_last(), key)
    }
}

/// The value of the last attribute named `key`, if any.
pub fn find_attribute(attributes: &Vec<XmlAttribute>, key: &str) -> (r: Option<String>)
    ensures
        r.deep_view() == attribute_value(attributes_view(attributes@), key@),
{
    let ghost av = attributes_view(attributes@);
    let mut found: Option<String> = None;
    let n = attributes.len();
    let mut i: usize = 0;
    assert(av.take(0) =~= Seq::<AttributeEventView>::empty());
    while i < n
        invariant
            i <= n,
            n == attributes@.len(),
            av == attributes_view(attributes@),
            found.deep_view() == attribute_value(av.take(i as int), key@),
        decreases n - i,
    {
        assert(av.take(i + 1).drop_last() =~= av.take(i as int));
        assert(av.take(i + 1).last() == attributes@[i as int]@);
        if str_eq(attributes[i].key.as_str(), key) {
            found = Some(copy_string(&attributes[i].value));
        }
        i = i + 1;
    }
    assert(av.take(n as int) =~= av);
    found
}

/// The attribute list of optional named values, in order, leaving out absent ones.
pub open spec fn optional_attributes(items: Seq<(Seq<char>, Option<Seq<char>>)>) -> Seq<
    AttributeEventView,
>
    decreases items.len(),
{
    if items.len() == 0 {
        seq![]
    } else {
        let rest = optional_attributes(items.drop_first());
        match items[0].1 {
            Some(v) => seq![(items[0].0, v)] + rest,
            None => rest,
        }
    }
}

/// Appends an attribute when its value is present.
pub fn push_optional_attribute(attributes: &mut Vec<XmlAttribute>, key: &str, value: &Option<String>)
    ensures
        attributes_view(final(attributes)@) == attributes_view(old(attributes)@) + match value.deep_view() {
            Some(v) => seq![(key@, v)],
            None => seq![],
        },
{
    let ghost before = attributes_view(attributes@);
    match value {
        Some(v) => {
            attributes.push(XmlAttribute { key: String::from_str(key), value: copy_string(v) });
            assert(attributes_view(attributes@) =~= before + seq![(key@, v@)]);
        },
        None => {
            assert(attributes_view(attributes@) =~= before + Seq::<AttributeEventView>::empty());
        },
    }
}

// ---------------------------------------------------------------------------
// Text
// ---------------------------------------------------------------------------

/// Human-readable text, such as a title.
#[derive(Debug, PartialEq)]
pub struct Text {
    /// The text itself.
    pub value: String,
}

impl View for Text {
    type V = Seq<char>;

    open spec fn view(&self) -> Seq<char> {
        self.value@
    }
}

impl Default for Text {
    fn default() -> (r: Text)
        ensures
            r@ == Seq::<char>::empty(),
    {
        Text { value: String::new() }
    }
}

impl Clone for Text {
    fn clone(&self) -> (r: Self)
        ensures
            r@ == self@,
    {
        Text { value: copy_string(&self.value) }
    }
}

/// The text read from an element whose content starts at `ev[j]`.
pub open spec fn parse_text(ev: Seq<EventView>, j: int) -> Result<(Seq<char>, int), ErrorView> {
    match element_text(ev, j, 0, None) {
        Err(e) => Err(e),
        Ok((t, k)) => Ok(
            (
                match t {
                    Some(x) => x,
                    None => Seq::empty(),
                },
                k,
            ),
        ),
    }
}

impl Text {
    /// Plain text.
    pub fn plain(value: String) -> (r: Text)
        ensures
            r@ == value@,
    {
        Text { value }
    }

    /// The text as a string slice.
    pub fn as_str(&self) -> (r: &str)
        ensures
            r@ == self@,
    {
        self.value.as_str()
    }

    /// Reads text from an element whose content starts at `events[pos]`;
    /// returns it and the index just past the element's end tag.
    pub fn from_xml(events: &Vec<XmlEvent>, pos: usize) -> (r: Result<(Text, usize), Error>)
        ensures
            match parse_text(events_view(events@), pos as int) {
                Ok((t, k)) => r matches Ok((x, y)) && x@ == t && y == k,
                Err(e) => r matches Err(x) && x@ == e,
            },
            r matches Ok((_, k)) ==> pos < k <= events@.len(),
    {
        match atom_text(events, pos) {
            Ok((Some(t), k)) => Ok((Text { value: t }, k)),
            Ok((None, k)) => Ok((Text { value: String::new() }, k)),
            Err(e) => Err(e),
        }
    }
}

// ---------------------------------------------------------------------------
// Timestamps
// ---------------------------------------------------------------------------

/// A timestamp with a fixed offset, kept in its RFC 3339 spelling.
#[derive(Debug, PartialEq)]
pub struct FixedDateTime {
    value: String,
}

impl View for FixedDateTime {
    type V = Seq<char>;

    closed spec fn view(&self) -> Seq<char> {
        self.value@
    }
}

/// `1970-01-01T00:00:00+00:00`, the timestamp of a feed or entry without one.
pub open spec fn epoch_rfc3339() -> Seq<char> {
    "1970-01-01T00:00:00+00:00"@
}

impl FixedDateTime {
    /// A timestamp from its RFC 3339 spelling.
    pub fn from_rfc3339(value: String) -> (r: FixedDateTime)
        ensures
            r@ == value@,
    {
        FixedDateTime { value }
    }

    /// The RFC 3339 spelling of this timestamp.
    pub fn to_rfc3339(&self) -> (r: String)
        ensures
            r@ == self@,
    {
        copy_string(&self.value)
    }
}

impl Clone for FixedDateTime {
    fn clone(&self) -> (r: Self)
        ensures
            r@ == self@,
    {
        FixedDateTime { value: copy_string(&self.value) }
    }
}

/// The timestamp of a feed or entry without one: the Unix epoch.
pub fn default_fixed_datetime() -> (r: FixedDateTime)
    ensures
        r@ == epoch_rfc3339(),
{
    FixedDateTime { value: String::from_str("1970-01-01T00:00:00+00:00") }
}

// ---------------------------------------------------------------------------
// Categories
// ---------------------------------------------------------------------------

/// A category that a feed or entry belongs to.
#[derive(Debug, PartialEq)]
pub struct Category {
    /// Identifies the category.
    pub term: String,
    /// The categorization scheme.
    pub scheme: Option<String>,
    /// A human-readable label.
    pub label: Option<String>,
}

impl Default for Category {
    fn default() -> (r: Category)
        ensures
            r@ == (Seq::<char>::empty(), None::<Seq<char>>, None::<Seq<char>>),
    {
        Category { term: String::new(), scheme: None, label: None }
    }
}

/// The view of a [`Category`]: term, scheme and label.
pub type CategoryView = (Seq<char>, Option<Seq<char>>, Option<Seq<char>>);

impl View for Category {
    type V = CategoryView;

    open spec fn view(&self) -> CategoryView {
        (self.term@, self.scheme.deep_view(), self.label.deep_view())
    }
}

impl Clone for Category {
    fn clone(&self) -> (r: Self)
        ensures
            r@ == self@,
    {
        Category {
            term: copy_string(&self.term),
            scheme: copy_opt_string(&self.scheme),
            label: copy_opt_string(&self.label),
        }
    }
}

/// The category described by a start tag's attributes.
pub open spec fn parse_category(attrs: Seq<AttributeEventView>) -> CategoryView {
    (
        match attribute_value(attrs, "term"@) {
            Some(t) => t,
            None => Seq::empty(),
        },
        attribute_value(attrs, "scheme"@),
        attribute_value(attrs, "label"@),
    )
}

/// The start tag attributes of a category.
pub open spec fn category_attributes(c: CategoryView) -> Seq<AttributeEventView> {
    seq![("term"@, c.0)] + optional_attributes(seq![("scheme"@, c.1), ("label"@, c.2)])
}

impl Category {
    /// Reads a category from its start tag's attributes.
    pub fn from_xml(attributes: &Vec<XmlAttribute>) -> (r: Category)
        ensures
            r@ == parse_category(attributes_view(attributes@)),
    {
        let term = match find_attribute(attributes, "term") {
            Some(t) => t,
            None => String::new(),
        };
        Category {
            term,
            scheme: find_attribute(attributes, "scheme"),
            label: find_attribute(attributes, "label"),
        }
    }

    /// The attributes of this category's start tag.
    pub fn xml_attributes(&self) -> (r: Vec<XmlAttribute>)
        ensures
            attributes_view(r@) == category_attributes(self@),
    {
        let mut r: Vec<XmlAttribute> = Vec::new();
        r.push(XmlAttribute { key: String::from_str("term"), value: copy_string(&self.term) });
        push_optional_attribute(&mut r, "scheme", &self.scheme);
        push_optional_attribute(&mut r, "label", &self.label);
        proof {
            reveal_with_fuel(optional_attributes, 3);
            assert(attributes_view(r@) =~= category_attributes(self@));
        }
        r
    }
}

// ---------------------------------------------------------------------------
// Links
// ---------------------------------------------------------------------------

/// A Web page related to a feed or entry.
#[derive(Debug, PartialEq)]
pub struct Link {
    /// The URI of the referenced resource.
    pub href: String,
    /// The link relationship type.
    pub rel: String,
}

/// The view of a [`Link`]: href and rel.
pub type LinkView = (Seq<char>, Seq<char>);

impl View for Link {
    type V = LinkView;

    open spec fn view(&self) -> LinkView {
        (self.href@, self.rel@)
    }
}

impl Default for Link {
    fn default() -> (r: Link)
        ensures
            r@ == (Seq::<char>::empty(), "alternate"@),
    {
        Link { href: String::new(), rel: String::from_str("alternate") }
    }
}

impl Clone for Link {
    fn clone(&self) -> (r: Self)
        ensures
            r@ == self@,
    {
        Link { href: copy_string(&self.href), rel: copy_string(&self.rel) }
    }
}

/// The link described by a start tag's attributes; `rel` defaults to `alternate`.
pub open spec fn parse_link(attrs: Seq<AttributeEventView>) -> LinkView {
    (
        match attribute_value(attrs, "href"@) {
            Some(t) => t,
            None => Seq::empty(),
        },
        match attribute_value(attrs, "rel"@) {
            Some(t) => t,
            None => "alternate"@,
        },
    )
}

impl Link {
    /// Reads a link from its start tag's attributes.
    pub fn from_xml(attributes: &Vec<XmlAttribute>) -> (r: Link)
        ensures
            r@ == parse_link(attributes_view(attributes@)),
    {
        let href = match find_attribute(attributes, "href") {
            Some(t) => t,
            None => String::new(),
        };
        let rel = match find_attribute(attributes, "rel") {
            Some(t) => t,
            None => String::from_str("alternate"),
        };
        Link { href, rel }
    }

    /// The attributes of this link's start tag.
    pub fn xml_attributes(&self) -> (r: Vec<XmlAttribute>)
        ensures
            attributes_view(r@) == seq![("href"@, self@.0), ("rel"@, self@.1)],
    {
        let mut r: Vec<XmlAttribute> = Vec::new();
        r.push(XmlAttribute { key: String::from_str("href"), value: copy_string(&self.href) });
        r.push(XmlAttribute { key: String::from_str("rel"), value: copy_string(&self.rel) });
        assert(attributes_view(r@) =~= seq![("href"@, self@.0), ("rel"@, self@.1)]);
        r
    }
}

// ---------------------------------------------------------------------------
// Generators
// ---------------------------------------------------------------------------

/// The software used to generate a feed.
#[derive(Debug, PartialEq)]
pub struct Generator {
    /// The name of the software.
    pub value: String,
    /// A URI for the software.
    pub uri: Option<String>,
    /// The version of the software.
    pub version: Option<String>,
}

/// The view of a [`Generator`]: value, uri and version.
pub type GeneratorView = (Seq<char>, Option<Seq<char>>, Option<Seq<char>>);

impl View for Generator {
    type V = GeneratorView;

    open spec fn view(&self) -> GeneratorView {
        (self.value@, self.uri.deep_view(), self.version.deep_view())
    }
}

impl Default for Generator {
    fn default() -> (r: Generator)
        ensures
            r@ == (Seq::<char>::empty(), None::<Seq<char>>, None::<Seq<char>>),
    {
        Generator { value: String::new(), uri: None, version: None }
    }
}

impl Clone for Generator {
    fn clone(&self) -> (r: Self)
        ensures
            r@ == self@,
    {
        Generator {
            value: copy_string(&self.value),
            uri: copy_opt_string(&self.uri),
            version: copy_opt_string(&self.version),
        }
    }
}

/// The generator read from an element with attributes `attrs` whose content starts at `ev[j]`.
pub open spec fn parse_generator(ev: Seq<EventView>, j: int, attrs: Seq<AttributeEventView>) -> Result<
    (GeneratorView, int),
    ErrorView,
> {
    match parse_text(ev, j) {
        Err(e) => Err(e),
        Ok((t, k)) => Ok(((t, attribute_value(attrs, "uri"@), attribute_value(attrs, "version"@)), k)),
    }
}

/// The start tag attributes of a generator.
pub open spec fn generator_attributes(g: GeneratorView) -> Seq<AttributeEventView> {
    optional_attributes(seq![("uri"@, g.1), ("version"@, g.2)])
}

impl Generator {
    /// Reads a generator whose start tag had `attributes` and whose content
    /// starts at `events[pos]`; returns it and the index past its end tag.
    pub fn from_xml(events: &Vec<XmlEvent>, pos: usize, attributes: &Vec<XmlAttribute>) -> (r: Result<
        (Generator, usize),
        Error,
    >)
        ensures
            match parse_generator(events_view(events@), pos as int, attributes_view(attributes@)) {
                Ok((g, k)) => r matches Ok((x, y)) && x@ == g && y == k,
                Err(e) => r matches Err(x) && x@ == e,
            },
            r matches Ok((_, k)) ==> pos < k <= events@.len(),
    {
        let (text, k) = match Text::from_xml(events, pos) {
            Ok(x) => x,
            Err(e) => {
                return Err(e);
            },
        };
        Ok(
            (
                Generator {
                    value: text.value,
                    uri: find_attribute(attributes, "uri"),
                    version: find_attribute(attributes, "version"),
                },
                k,
            ),
        )
    }

    /// The attributes of this generator's start tag.
    pub fn xml_attributes(&self) -> (r: Vec<XmlAttribute>)
        ensures
            attributes_view(r@) == generator_attributes(self@),
    {
        let mut r: Vec<XmlAttribute> = Vec::new();
        assert(attributes_view(r@) =~= Seq::<AttributeEventView>::empty());
        push_optional_attribute(&mut r, "uri", &self.uri);
        push_optional_attribute(&mut r, "version", &self.version);
        proof {
            reveal_with_fuel(optional_attributes, 3);
            assert(attributes_view(r@) =~= generator_attributes(self@));
        }
        r
    }
}

} // verus!
