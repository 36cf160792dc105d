//! An entry of an Atom feed.

use vstd::prelude::*;
use vstd::utf8::encode_utf8;
use vstd::string::StringSliceAdditionalSpecFns;

use crate::chars::{copy_string, str_eq};
use crate::codec::{
    document_outcome, document_text, finish_document, indentation_fits, lemma_document_bytes, document_events, failure_view, read_document, stopped_view, utf8_string, write_events,
};
use crate::feed::WriteConfig;
use crate::elements::{
    default_fixed_datetime, epoch_rfc3339, parse_text, FixedDateTime, Text,
};
use crate::error::{Error, ErrorView, NamespaceErrorView, XmlError};
use crate::extension::{copy_extensions, Extension, ExtensionView};
use crate::namespace::{
    classify_extension, declaration_of, declaration_violation, declared_prefix, law_inherited_binding_is_kept, xml_word, element_scope, is_extension, namespace_scope,
    parse_element, parse_extension, ATOM_NAMESPACE,
};
use crate::person::{parse_person, person_events, Person, PersonView};
use crate::scope::{KeyView, NamespaceScope};
use crate::toxml::{
    atom_scope, extension_views, extensions_events, new_atom_scope, text_element_events,
    write_extensions, write_text_element,
};
use crate::util::{atom_text, element_text, skip, skip_to_end};
use crate::xml::{
    attributes_view, events_view, AttributeEventView, EventView, XmlAttribute, XmlEvent,
};

verus! {

/// An entry of an Atom feed.
#[derive(Debug, PartialEq)]
pub struct Entry {
    /// A human-readable title for the entry.
    pub title: Text,
    /// A universally unique and permanent URI.
    pub id: String,
    /// The last time the entry was modified in a significant way.
    pub updated: FixedDateTime,
    /// The authors of the entry.
    pub authors: Vec<Person>,
    /// The extensions of the entry.
    pub extensions: Vec<Extension>,
}

/// The view of an [`Entry`].
pub struct EntryView {
    pub title: Seq<char>,
    pub id: Seq<char>,
    pub updated: Seq<char>,
    pub authors: Seq<PersonView>,
    pub extensions: Seq<ExtensionView>,
}

/// The views of a list of persons.
pub open spec fn person_views(p: Seq<Person>) -> Seq<PersonView> {
    p.map_values(|x: Person| x@)
}

impl View for Entry {
    type V = EntryView;

    open spec fn view(&self) -> EntryView {
        EntryView {
            title: self.title@,
            id: self.id@,
            updated: self.updated@,
            authors: person_views(self.authors@),
            extensions: extension_views(self.extensions@),
        }
    }
}

/// The entry with empty title and id, the epoch as its timestamp, and nothing else.
pub open spec fn empty_entry() -> EntryView {
    EntryView {
        title: Seq::empty(),
        id: Seq::empty(),
        updated: epoch_rfc3339(),
        authors: Seq::empty(),
        extensions: Seq::empty(),
    }
}

impl Default for Entry {
    fn default() -> (r: Entry)
        ensures
            r@ == empty_entry(),
    {
        let r = Entry {
            title: Text::default(),
            id: String::new(),
            updated: default_fixed_datetime(),
            authors: Vec::new(),
            extensions: Vec::new(),
        };
        assert(person_views(r.authors@) =~= Seq::<PersonView>::empty());
        assert(extension_views(r.extensions@) =~= Seq::<ExtensionView>::empty());
        r
    }
}

/// A copy of a list of persons.
pub fn copy_persons(v: &Vec<Person>) -> (r: Vec<Person>)
    ensures
        person_views(r@) == person_views(v@),
{
    let mut out: Vec<Person> = Vec::new();
    let n = v.len();
    let mut i: usize = 0;
    while i < n
        invariant
            i <= n,
            n == v@.len(),
            out@.len() == i,
            forall|k: int| 0 <= k < i ==> #[trigger] out@[k]@ == v@[k]@,
        decreases n - i,
    {
        out.push(v[i].clone());
        i = i + 1;
    }
    assert(person_views(out@) =~= person_views(v@));
    out
}

impl Clone for Entry {
    fn clone(&self) -> (r: Self)
        ensures
            r@ == self@,
    {
        let extensions = copy_extensions(&self.extensions);
        let r = Entry {
            title: self.title.clone(),
            id: copy_string(&self.id),
            updated: self.updated.clone(),
            authors: copy_persons(&self.authors),
            extensions,
        };
        assert(extension_views(r.extensions@) =~= extension_views(self.extensions@));
        r
    }
}

impl Entry {
    /// Return the title of this entry.
    pub fn title(&self) -> (r: &Text)
        ensures
            r@ == self@.title,
    {
        &self.title
    }

    /// Set the title of this entry.
    pub fn set_title(&mut self, title: Text)
        ensures
            final(self)@ == (EntryView { title: title@, ..old(self)@ }),
    {
        self.title = title;
    }

    /// Return the unique URI of this entry.
    pub fn id(&self) -> (r: &str)
        ensures
            r@ == self@.id,
    {
        self.id.as_str()
    }

    /// Set the unique URI of this entry.
    pub fn set_id(&mut self, id: String)
        ensures
            final(self)@ == (EntryView { id: id@, ..old(self)@ }),
    {
        self.id = id;
    }

    /// Return extensions directly attached to this entry, in document order.
    pub fn extensions(&self) -> (r: &[Extension])
        ensures
            r@ == self.extensions@,
    {
        self.extensions.as_slice()
    }

    /// Replace extensions directly attached to this entry.
    pub fn set_extensions(&mut self, extensions: Vec<Extension>)
        ensures
            final(self)@ == (EntryView { extensions: extension_views(extensions@), ..old(self)@ }),
    {
        self.extensions = extensions;
    }
}

// ---------------------------------------------------------------------------
// Reading
// ---------------------------------------------------------------------------

/// Reads one non-extension child of an entry whose start tag `ev[j]` is named
/// `name` with attributes `attrs`, into `acc`; returns the entry and the index
/// past the child.
pub open spec fn entry_child(
    ev: Seq<EventView>,
    j: int,
    name: Seq<char>,
    attrs: Seq<AttributeEventView>,
    scope: Map<KeyView, Seq<char>>,
    acc: EntryView,
) -> Result<(EntryView, int), ErrorView> {
    if name == "title"@ {
        match parse_text(ev, j + 1) {
            Err(e) => Err(e),
            Ok((t, k)) => Ok((EntryView { title: t, ..acc }, k)),
        }
    } else if name == "id"@ || name == "updated"@ {
        match element_text(ev, j + 1, 0, None) {
            Err(e) => Err(e),
            Ok((t, k)) => Ok(
                (
                    if name == "id"@ {
                        EntryView {
                            id: match t {
                                Some(x) => x,
                                None => Seq::empty(),
                            },
                            ..acc
                        }
                    } else {
                        EntryView {
                            updated: match t {
                                Some(x) => x,
                                None => epoch_rfc3339(),
                            },
                            ..acc
                        }
                    },
                    k,
                ),
            ),
        }
    } else if name == "author"@ {
        match parse_person(ev, j + 1, attrs, scope) {
            Err(e) => Err(e),
            Ok((p, k)) => Ok((EntryView { authors: acc.authors.push(p), ..acc }, k)),
        }
    } else {
        match skip_to_end(ev, j + 1, 0) {
            Err(e) => Err(e),
            Ok(k) => Ok((acc, k)),
        }
    }
}

/// Reads the content of an entry from `ev[j]` up to its end tag, in `scope`,
/// after the fields `acc` already read.
pub open spec fn parse_entry_body(
    ev: Seq<EventView>,
    j: int,
    scope: Map<KeyView, Seq<char>>,
    acc: EntryView,
) -> Result<(EntryView, int), ErrorView>
    decreases ev.len() - j,
{
    if j < 0 || j >= ev.len() {
        Err(ErrorView::Eof)
    } else {
        match ev[j] {
            EventView::Start { name, attributes } => {
                let step = match classify_extension(name, attributes, scope) {
                    Err(e) => Err(e),
                    Ok(true) => match parse_element(ev, j, scope) {
                        Err(e) => Err(e),
                        Ok((x, k)) => Ok((EntryView { extensions: acc.extensions.push(x), ..acc }, k)),
                    },
                    Ok(false) => entry_child(ev, j, name, attributes, scope, acc),
                };
                match step {
                    Err(e) => Err(e),
                    Ok((acc2, k)) => if j < k <= ev.len() {
                        parse_entry_body(ev, k, scope, acc2)
                    } else {
                        Err(ErrorView::Eof)
                    },
                }
            },
            EventView::End { .. } => Ok((acc, j + 1)),
            _ => parse_entry_body(ev, j + 1, scope, acc),
        }
    }
}

/// Reads an entry whose start tag had attributes `attrs` and whose content
/// starts at `ev[j]`, in the scope inherited from its parent.
pub open spec fn parse_entry(
    ev: Seq<EventView>,
    j: int,
    attrs: Seq<AttributeEventView>,
    inherited: Map<KeyView, Seq<char>>,
) -> Result<(EntryView, int), ErrorView> {
    match element_scope(attrs, inherited) {
        Err(e) => Err(e),
        Ok(scope) => parse_entry_body(ev, j, scope, empty_entry()),
    }
}

/// An entry read inside its parent keeps every prefix that the parent's
/// scope binds and that its own start tag does not redeclare, bound to the
/// same URI: reading it with that binding inherited gives what reading it
/// with the binding declared on its own start tag gives, after its own
/// declarations.
pub proof fn law_entry_inherits_prefixes(
    ev: Seq<EventView>,
    j: int,
    attrs: Seq<AttributeEventView>,
    inherited: Map<KeyView, Seq<char>>,
    p: Seq<char>,
)
    requires
        inherited.dom().contains(Some(p)),
        p != xml_word(),
        declaration_violation(Some(p), inherited[Some(p)]) is None,
        forall|x: int| 0 <= x < attrs.len() ==> #[trigger] declared_prefix(attrs[x].0) != Some(Some(p)),
    ensures
        parse_entry(ev, j, attrs, inherited) == parse_entry(
            ev,
            j,
            attrs.push(declaration_of(p, inherited[Some(p)])),
            inherited.remove(Some(p)),
        ),
{
    law_inherited_binding_is_kept(attrs, inherited, p);
}

impl Entry {
    fn read_child(
        &mut self,
        events: &Vec<XmlEvent>,
        j: usize,
        name: &String,
        attributes: &Vec<XmlAttribute>,
        scope: &NamespaceScope,
    ) -> (r: Result<usize, Error>)
        requires
            j < events@.len(),
        ensures
            match entry_child(events_view(events@), j as int, name@, attributes_view(attributes@), scope@, old(self)@) {
                Ok((e, k)) => r matches Ok(x) && x == k && final(self)@ == e,
                Err(e) => r matches Err(x) && x@ == e,
            },
            r matches Ok(k) ==> j < k <= events@.len(),
    {
        let n = events.len();
        assert(j + 1 <= n);
        if str_eq(name.as_str(), "title") {
            let (t, k) = match Text::from_xml(events, j + 1) {
                Ok(x) => x,
                Err(e) => {
                    return Err(e);
                },
            };
            self.title = t;
            Ok(k)
        } else if str_eq(name.as_str(), "id") || str_eq(name.as_str(), "updated") {
            let (t, k) = match atom_text(events, j + 1) {
                Ok(x) => x,
                Err(e) => {
                    return Err(e);
                },
            };
            if str_eq(name.as_str(), "id") {
                self.id = match t {
                    Some(x) => x,
                    None => String::new(),
                };
            } else {
                self.updated = match t {
                    Some(x) => FixedDateTime::from_rfc3339(x),
                    None => default_fixed_datetime(),
                };
            }
            Ok(k)
        } else if str_eq(name.as_str(), "author") {
            let (p, k) = match Person::from_xml_with_scope(events, j + 1, attributes, scope) {
                Ok(x) => x,
                Err(e) => {
                    return Err(e);
                },
            };
            let ghost before = self@;
            self.authors.push(p);
            assert(self@.authors =~= before.authors.push(self.authors@.last()@));
            Ok(k)
        } else {
            skip(events, j + 1)
        }
    }

    /// Reads an entry using the namespace scope inherited from its parent.
    ///
    /// `attributes` are those of the entry's start tag and its content starts
    /// at `events[pos]`; the result holds the entry and the index just past
    /// its end tag. Only unprefixed Atom children are read as Atom elements.
    pub fn from_xml_with_scope(
        events: &Vec<XmlEvent>,
        pos: usize,
        attributes: &Vec<XmlAttribute>,
        inherited: &NamespaceScope,
    ) -> (r: Result<(Entry, usize), Error>)
        ensures
            match parse_entry(events_view(events@), pos as int, attributes_view(attributes@), inherited@) {
                Ok((p, k)) => r matches Ok((x, y)) && x@ == p && y == k,
                Err(e) => r matches Err(x) && x@ == e,
            },
            r matches Ok((_, k)) ==> pos < k <= events@.len(),
    {
        let ghost ev = events_view(events@);
        let scope = match namespace_scope(attributes, inherited) {
            Ok(s) => s,
            Err(e) => {
                return Err(e);
            },
        };
        let mut entry = Entry::default();
        let n = events.len();
        if pos > n {
            return Err(Error::Eof);
        }
        let mut j = pos;
        loop
            invariant
                pos <= j <= n,
                n == events@.len(),
                ev == events_view(events@),
                parse_entry(ev, pos as int, attributes_view(attributes@), inherited@)
                    == parse_entry_body(ev, j as int, scope@, entry@),
            decreases n - j,
        {
            if j >= n {
                return Err(Error::Eof);
            }
            assert(ev[j as int] == events@[j as int]@);
            match &events[j] {
                XmlEvent::Start { name, attributes: child_attributes } => {
                    let extension = match is_extension(name.as_str(), child_attributes, &scope) {
                        Ok(b) => b,
                        Err(e) => {
                            return Err(e);
                        },
                    };
                    if extension {
                        let ghost before = entry@;
                        let k = match parse_extension(events, j, &scope, &mut entry.extensions) {
                            Ok(k) => k,
                            Err(e) => {
                                return Err(e);
                            },
                        };
                        assert(entry@.extensions =~= before.extensions.push(entry.extensions@.last()@));
                        assert(entry@ == EntryView { extensions: before.extensions.push(entry.extensions@.last()@), ..before });
                        j = k;
                    } else {
                        j = match entry.read_child(events, j, name, child_attributes, &scope) {
                            Ok(k) => k,
                            Err(e) => {
                                return Err(e);
                            },
                        };
                    }
                },
                XmlEvent::End { .. } => {
                    return Ok((entry, j + 1));
                },
                _ => {
                    j = j + 1;
                },
            }
        }
    }
}

// ---------------------------------------------------------------------------
// Writing
// ---------------------------------------------------------------------------

/// The events of a list of persons written as elements named `element`.
pub open spec fn persons_events(ps: Seq<PersonView>, element: Seq<char>) -> Result<
    Seq<EventView>,
    NamespaceErrorView,
>
    decreases ps.len(),
{
    if ps.len() == 0 {
        Ok(seq![])
    } else {
        match person_events(ps[0], element) {
            Err(e) => Err(e),
            Ok(first) => match persons_events(ps.drop_first(), element) {
                Err(e) => Err(e),
                Ok(rest) => Ok(first + rest),
            },
        }
    }
}

/// Writes each person as an element named `element`, in order.
pub fn write_persons(writer: &mut Vec<XmlEvent>, persons: &Vec<Person>, element: &str) -> (r: Result<
    (),
    XmlError,
>)
    ensures
        match persons_events(person_views(persons@), element@) {
            Ok(evs) => r is Ok && events_view(final(writer)@) == events_view(old(writer)@) + evs,
            Err(v) => r matches Err(e) && e@ == ErrorView::Namespace(v),
        },
{
    let ghost w0 = events_view(writer@);
    let ghost ps = person_views(persons@);
    let ghost mut produced: Seq<EventView> = seq![];
    let n = persons.len();
    let mut i: usize = 0;
    assert(ps.skip(0) =~= ps);
    while i < n
        invariant
            i <= n,
            n == persons@.len(),
            ps == person_views(persons@),
            events_view(writer@) == w0 + produced,
            persons_events(ps, element@) == crate::extension_writer::after(
                produced,
                persons_events(ps.skip(i as int), element@),
            ),
        decreases n - i,
    {
        let ghost s = ps.skip(i as int);
        assert(s[0] == persons@[i as int]@);
        assert(s.drop_first() =~= ps.skip(i + 1));
        match persons[i].to_xml_named(writer, element) {
            Ok(()) => {},
            Err(e) => {
                return Err(e);
            },
        }
        proof {
            let evs = person_events(s[0], element@)->Ok_0;
            match persons_events(ps.skip(i + 1), element@) {
                Ok(rest) => {
                    assert(produced + (evs + rest) =~= (produced + evs) + rest);
                },
                Err(_) => {},
            }
            produced = produced + evs;
        }
        i = i + 1;
    }
    assert(ps.skip(n as int) =~= Seq::<PersonView>::empty());
    assert(produced + Seq::<EventView>::empty() =~= produced);
    Ok(())
}

/// The events of an entry with start tag attributes `attrs`.
pub open spec fn entry_events(e: EntryView, attrs: Seq<AttributeEventView>) -> Result<
    Seq<EventView>,
    NamespaceErrorView,
> {
    match persons_events(e.authors, "author"@) {
        Err(x) => Err(x),
        Ok(authors) => match extensions_events(e.extensions, atom_scope()) {
            Err(x) => Err(x),
            Ok(exts) => Ok(
                seq![EventView::Start { name: "entry"@, attributes: attrs }] + text_element_events(
                    "title"@,
                    e.title,
                ) + text_element_events("id"@, e.id) + text_element_events("updated"@, e.updated)
                    + authors + exts + seq![EventView::End { name: "entry"@ }],
            ),
        },
    }
}

impl Entry {
    /// Writes this entry with the given start tag attributes.
    pub fn to_xml_with_attributes(&self, writer: &mut Vec<XmlEvent>, attributes: Vec<XmlAttribute>) -> (r: Result<(), XmlError>)
        ensures
            match entry_events(self@, attributes_view(attributes@)) {
                Ok(evs) => r is Ok && events_view(final(writer)@) == events_view(old(writer)@) + evs,
                Err(v) => r matches Err(e) && e@ == ErrorView::Namespace(v),
            },
    {
        let ghost w0 = events_view(writer@);
        let ghost av = attributes_view(attributes@);
        writer.push(XmlEvent::Start { name: String::from_str("entry"), attributes });
        write_text_element(writer, "title", self.title.as_str());
        write_text_element(writer, "id", self.id.as_str());
        let updated = self.updated.to_rfc3339();
        write_text_element(writer, "updated", updated.as_str());
        let ghost w1 = events_view(writer@);
        match write_persons(writer, &self.authors, "author") {
            Ok(()) => {},
            Err(e) => {
                return Err(e);
            },
        }
        let ghost w2 = events_view(writer@);
        let scope = new_atom_scope();
        match write_extensions(writer, &self.extensions, &scope) {
            Ok(()) => {},
            Err(e) => {
                return Err(e);
            },
        }
        let ghost w3 = events_view(writer@);
        writer.push(XmlEvent::End { name: String::from_str("entry") });
        assert(events_view(writer@) =~= w3.push(EventView::End { name: "entry"@ }));
        proof {
            let authors = persons_events(self@.authors, "author"@)->Ok_0;
            let exts = extensions_events(self@.extensions, atom_scope())->Ok_0;
            assert(w1 =~= w0 + seq![EventView::Start { name: "entry"@, attributes: av }]
                + text_element_events("title"@, self@.title) + text_element_events("id"@, self@.id)
                + text_element_events("updated"@, self@.updated));
            assert(events_view(writer@) =~= w0 + (seq![
                EventView::Start { name: "entry"@, attributes: av },
            ] + text_element_events("title"@, self@.title) + text_element_events("id"@, self@.id)
                + text_element_events("updated"@, self@.updated) + authors + exts + seq![
                EventView::End { name: "entry"@ },
            ]));
        }
        Ok(())
    }

    /// Writes this entry inside a feed.
    pub fn to_xml(&self, writer: &mut Vec<XmlEvent>) -> (r: Result<(), XmlError>)
        ensures
            match entry_events(self@, seq![]) {
                Ok(evs) => r is Ok && events_view(final(writer)@) == events_view(old(writer)@) + evs,
                Err(v) => r matches Err(e) && e@ == ErrorView::Namespace(v),
            },
    {
        let attributes: Vec<XmlAttribute> = Vec::new();
        assert(attributes_view(attributes@) =~= Seq::<AttributeEventView>::empty());
        self.to_xml_with_attributes(writer, attributes)
    }

    /// The start tag attributes of a standalone entry: the Atom namespace
    /// declaration.
    fn document_attributes() -> (r: Vec<XmlAttribute>)
        ensures
            attributes_view(r@) == standalone_attributes(),
    {
        let mut r: Vec<XmlAttribute> = Vec::new();
        r.push(XmlAttribute { key: String::from_str("xmlns"), value: String::from_str(ATOM_NAMESPACE) });
        assert(attributes_view(r@) =~= standalone_attributes());
        r
    }

    /// Writes this entry as a document into `out` with the quick-xml writer,
    /// as `config` asks, and returns the output buffer.
    ///
    /// The events written are those of [`entry_events`], with the Atom
    /// namespace declared on the start tag; when they cannot be made, that
    /// error is returned. Otherwise the output is `out` followed by
    /// [`document_text`] of those events. With indentation, the spaces of the
    /// deepest level must fit in `isize::MAX` ([`indentation_fits`]): the
    /// writer keeps them in a buffer.
    pub fn write_with_config(&self, out: Vec<u8>, write_config: WriteConfig) -> (r: Result<Vec<u8>, Error>)
        requires
            entry_events(self@, standalone_attributes()) matches Ok(ev) ==> indentation_fits(ev, write_config.indent_size),
        ensures
            match entry_events(self@, standalone_attributes()) {
                Ok(ev) => r matches Ok(b) && b@ == out@ + encode_utf8(
                    document_text(ev, write_config.write_document_declaration, write_config.indent_size),
                ),
                Err(v) => r matches Err(e) && e@ == ErrorView::Namespace(v),
            },
    {
        let mut events: Vec<XmlEvent> = Vec::new();
        match self.to_xml_with_attributes(&mut events, Entry::document_attributes()) {
            Ok(()) => {},
            Err(e) => {
                return Err(Error::Xml(e));
            },
        }
        match write_events(&events, out, write_config) {
            Ok(bytes) => Ok(bytes),
            Err(e) => Err(Error::Xml(e)),
        }
    }

    /// Writes this entry as a document into `out` with the default
    /// [`WriteConfig`].
    pub fn write_to(&self, out: Vec<u8>) -> (r: Result<Vec<u8>, Error>)
        ensures
            match entry_events(self@, standalone_attributes()) {
                Ok(ev) => r matches Ok(b) && b@ == out@ + encode_utf8(document_text(ev, true, None)),
                Err(v) => r matches Err(e) && e@ == ErrorView::Namespace(v),
            },
    {
        self.write_with_config(out, WriteConfig::default())
    }

    /// This entry as a document, written with the default [`WriteConfig`];
    /// empty when it cannot be written.
    pub fn to_string(&self) -> (r: String)
        ensures
            match entry_events(self@, standalone_attributes()) {
                Ok(ev) => r@ == document_text(ev, true, None),
                Err(_) => r@.len() == 0,
            },
    {
        let empty: Vec<u8> = Vec::new();
        match self.write_to(empty) {
            Ok(bytes) => {
                let ghost t = document_text(entry_events(self@, standalone_attributes())->Ok_0, true, None);
                proof {
                    lemma_document_bytes(t);
                    assert(bytes@ =~= encode_utf8(t));
                }
                match utf8_string(bytes) {
                    Some(s) => {
                        proof {
                            lemma_document_bytes(s@);
                        }
                        s
                    },
                    None => String::new(),
                }
            },
            Err(_) => String::new(),
        }
    }

    /// Reads an entry from a document's events: the first start tag must be
    /// `entry`. `stopped` is the failure that stopped the reader of the
    /// events, if one did: running out of events means meeting it.
    pub fn read_from_events(events: &Vec<XmlEvent>, stopped: Option<XmlError>) -> (r: Result<Entry, Error>)
        ensures
            match document_outcome(parse_entry_document(events_view(events@), 0), stopped_view(stopped)) {
                Ok(f) => r matches Ok(x) && x@ == f,
                Err(e) => r matches Err(x) && x@ == e,
            },
    {
        let parsed = Entry::parse_document(events);
        assert(parsed matches Err(x) && x@ == ErrorView::Eof ==> parsed matches Err(Error::Eof));
        finish_document(parsed, stopped)
    }

    fn parse_document(events: &Vec<XmlEvent>) -> (r: Result<Entry, Error>)
        ensures
            match parse_entry_document(events_view(events@), 0) {
                Ok(f) => r matches Ok(x) && x@ == f,
                Err(e) => r matches Err(x) && x@ == e,
            },
    {
        let ghost ev = events_view(events@);
        let n = events.len();
        let mut i: usize = 0;
        let empty = NamespaceScope::new();
        while i < n
            invariant
                i <= n,
                n == events@.len(),
                ev == events_view(events@),
                empty@ == Map::<KeyView, Seq<char>>::empty(),
                parse_entry_document(ev, 0) == parse_entry_document(ev, i as int),
            decreases n - i,
        {
            assert(ev[i as int] == events@[i as int]@);
            match &events[i] {
                XmlEvent::Start { name, attributes } => {
                    proof {
                        reveal_strlit("entry");
                    }
                    if str_eq(name.as_str(), "entry") {
                        return match Entry::from_xml_with_scope(events, i + 1, attributes, &empty) {
                            Ok((f, _)) => Ok(f),
                            Err(e) => Err(e),
                        };
                    } else {
                        return Err(Error::InvalidStartTag);
                    }
                },
                _ => {},
            }
            i = i + 1;
        }
        Err(Error::Eof)
    }

    /// Reads an entry from a document's bytes with the quick-xml reader.
    ///
    /// The reader's events ([`document_events`]) go to [`Entry::read_from_events`].
    pub fn read_from(bytes: &[u8]) -> (r: Result<Entry, Error>)
        ensures
            entry_read_view(r) == entry_read_outcome(
                document_events(bytes@).0,
                failure_view(document_events(bytes@).1),
            ),
    {
        let (events, stopped) = read_document(bytes);
        proof {
            assert(stopped_view(stopped) == failure_view(document_events(bytes@).1));
        }
        Entry::read_from_events(&events, stopped)
    }
}

/// What reading a document gives when its reader produced the events `ev`
/// and stopped with `stopped`: the outcome of parsing them as an entry
/// document.
pub open spec fn entry_read_outcome(ev: Seq<EventView>, stopped: Option<ErrorView>) -> Result<EntryView, ErrorView> {
    document_outcome(parse_entry_document(ev, 0), stopped)
}

/// The view of what reading an entry gave.
pub open spec fn entry_read_view(r: Result<Entry, Error>) -> Result<EntryView, ErrorView> {
    match r {
        Ok(f) => Ok(f@),
        Err(e) => Err(e@),
    }
}

/// The start tag attributes of a standalone entry document.
pub open spec fn standalone_attributes() -> Seq<AttributeEventView> {
    seq![("xmlns"@, ATOM_NAMESPACE@)]
}

/// Reads a document: the first start tag must be `entry`.
pub open spec fn parse_entry_document(ev: Seq<EventView>, i: int) -> Result<EntryView, ErrorView>
    decreases ev.len() - i,
{
    if i < 0 || i >= ev.len() {
        Err(ErrorView::Eof)
    } else {
        match ev[i] {
            EventView::Start { name, attributes } => if name == "entry"@ {
                match parse_entry(ev, i + 1, attributes, Map::empty()) {
                    Err(e) => Err(e),
                    Ok((f, _)) => Ok(f),
                }
            } else {
                Err(ErrorView::InvalidStartTag)
            },
            _ => parse_entry_document(ev, i + 1),
        }
    }
}

/// Reads with [`Entry::read_from`].
impl std::str::FromStr for Entry {
    type Err = Error;

    fn from_str(s: &str) -> (r: Result<Entry, Error>)
        ensures
            entry_read_view(r) == entry_read_outcome(
                document_events(s.spec_bytes()).0,
                failure_view(document_events(s.spec_bytes()).1),
            ),
    {
        Entry::read_from(s.as_bytes())
    }
}

} // verus!
