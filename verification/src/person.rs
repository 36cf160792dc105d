//! A person in an Atom feed.

use vstd::prelude::*;

use crate::chars::{copy_opt_string, copy_string, str_eq};
use crate::error::{Error, ErrorView, NamespaceErrorView, XmlError};
use crate::extension::{copy_extensions, Extension, ExtensionView};
use crate::namespace::{
    classify_extension, is_extension, namespace_scope, parse_element,
    parse_extension, element_scope, opt_str_view, declaration_of, declaration_violation, declared_prefix,
    law_inherited_binding_is_kept, xml_word,
};
use crate::scope::{KeyView, NamespaceScope};
use crate::toxml::{
    atom_scope, extension_views, extensions_events, new_atom_scope,
    optional_text_element_events, text_element_events, write_extensions, write_text_element,
};
use crate::util::{atom_text, element_text, skip, skip_to_end};
use crate::xml::{
    attributes_view, events_view, AttributeEventView, EventView, XmlAttribute, XmlEvent,
};

verus! {

/// Represents a person in an Atom feed.
#[derive(Debug, PartialEq)]
pub struct Person {
    /// A human-readable name for the person.
    pub name: String,
    /// An email address for the person.
    pub email: Option<String>,
    /// A Web page for the person.
    pub uri: Option<String>,
    /// A list of extensions for the person.
    pub extensions: Vec<Extension>,
}

/// The view of a [`Person`].
pub struct PersonView {
    pub name: Seq<char>,
    pub email: Option<Seq<char>>,
    pub uri: Option<Seq<char>>,
    pub extensions: Seq<ExtensionView>,
}

impl View for Person {
    type V = PersonView;

    open spec fn view(&self) -> PersonView {
        PersonView {
            name: self.name@,
            email: self.email.deep_view(),
            uri: self.uri.deep_view(),
            extensions: extension_views(self.extensions@),
        }
    }
}

/// The person with an empty name and nothing else.
pub open spec fn empty_person() -> PersonView {
    PersonView { name: Seq::empty(), email: None, uri: None, extensions: Seq::empty() }
}

impl Default for Person {
    fn default() -> (r: Person)
        ensures
            r@ == empty_person(),
    {
        let r = Person { name: String::new(), email: None, uri: None, extensions: Vec::new() };
        assert(extension_views(r.extensions@) =~= Seq::<ExtensionView>::empty());
        r
    }
}

impl Clone for Person {
    fn clone(&self) -> (r: Self)
        ensures
            r@ == self@,
    {
        let extensions = copy_extensions(&self.extensions);
        let r = Person {
            name: copy_string(&self.name),
            email: copy_opt_string(&self.email),
            uri: copy_opt_string(&self.uri),
            extensions,
        };
        assert(extension_views(r.extensions@) =~= extension_views(self.extensions@));
        r
    }
}

impl Person {
    /// Return the name of this person.
    pub fn name(&self) -> (r: &str)
        ensures
            r@ == self.name@,
    {
        self.name.as_str()
    }

    /// Set the name of this person.
    pub fn set_name(&mut self, name: String)
        ensures
            final(self)@ == (PersonView { name: name@, ..old(self)@ }),
    {
        self.name = name;
    }

    /// Return the email address for this person.
    pub fn email(&self) -> (r: Option<&str>)
        ensures
            opt_str_view(r) == self.email.deep_view(),
    {
        match &self.email {
            Some(e) => Some(e.as_str()),
            None => None,
        }
    }

    /// Set the email address for this person.
    pub fn set_email(&mut self, email: Option<String>)
        ensures
            final(self)@ == (PersonView { email: email.deep_view(), ..old(self)@ }),
    {
        self.email = email;
    }

    /// Return the Web page for this person.
    pub fn uri(&self) -> (r: Option<&str>)
        ensures
            opt_str_view(r) == self.uri.deep_view(),
    {
        match &self.uri {
            Some(u) => Some(u.as_str()),
            None => None,
        }
    }

    /// Set the Web page for this person.
    pub fn set_uri(&mut self, uri: Option<String>)
        ensures
            final(self)@ == (PersonView { uri: uri.deep_view(), ..old(self)@ }),
    {
        self.uri = uri;
    }

    /// Return extensions directly attached to this person, in document order.
    pub fn extensions(&self) -> (r: &[Extension])
        ensures
            r@ == self.extensions@,
    {
        self.extensions.as_slice()
    }

    /// Replace extensions directly attached to this person.
    pub fn set_extensions(&mut self, extensions: Vec<Extension>)
        ensures
            final(self)@ == (PersonView { extensions: extension_views(extensions@), ..old(self)@ }),
    {
        self.extensions = extensions;
    }
}

// ---------------------------------------------------------------------------
// Reading
// ---------------------------------------------------------------------------

/// Reads the content of a person element from `ev[j]` up to its end tag, in
/// scope `scope`, after the fields `acc` already read. Only unprefixed Atom
/// children use local-name dispatch; foreign and prefixed children are
/// extensions.
pub open spec fn parse_person_body(
    ev: Seq<EventView>,
    j: int,
    scope: Map<KeyView, Seq<char>>,
    acc: PersonView,
) -> Result<(PersonView, int), ErrorView>
    decreases ev.len() - j,
{
    if j < 0 || j >= ev.len() {
        Err(ErrorView::Eof)
    } else {
        match ev[j] {
            EventView::Start { name, attributes } => match classify_extension(name, attributes, scope) {
                Err(e) => Err(e),
                Ok(true) => match parse_element(ev, j, scope) {
                    Err(e) => Err(e),
                    Ok((x, k)) => if j < k <= ev.len() {
                        parse_person_body(
                            ev,
                            k,
                            scope,
                            PersonView { extensions: acc.extensions.push(x), ..acc },
                        )
                    } else {
                        Err(ErrorView::Eof)
                    },
                },
                Ok(false) => if name == "name"@ || name == "email"@ || name == "uri"@ {
                    match element_text(ev, j + 1, 0, None) {
                        Err(e) => Err(e),
                        Ok((t, k)) => if j < k <= ev.len() {
                            let acc2 = if name == "name"@ {
                                PersonView {
                                    name: match t {
                                        Some(x) => x,
                                        None => Seq::empty(),
                                    },
                                    ..acc
                                }
                            } else if name == "email"@ {
                                PersonView { email: t, ..acc }
                            } else {
                                PersonView { uri: t, ..acc }
                            };
                            parse_person_body(ev, k, scope, acc2)
                        } else {
                            Err(ErrorView::Eof)
                        },
                    }
                } else {
                    match skip_to_end(ev, j + 1, 0) {
                        Err(e) => Err(e),
                        Ok(k) => if j < k <= ev.len() {
                            parse_person_body(ev, k, scope, acc)
                        } else {
                            Err(ErrorView::Eof)
                        },
                    }
                },
            },
            EventView::End { .. } => Ok((acc, j + 1)),
            _ => parse_person_body(ev, j + 1, scope, acc),
        }
    }
}

/// Reads a person whose start tag had attributes `attrs` and whose content
/// starts at `ev[j]`, in the scope inherited from its parent.
pub open spec fn parse_person(
    ev: Seq<EventView>,
    j: int,
    attrs: Seq<AttributeEventView>,
    inherited: Map<KeyView, Seq<char>>,
) -> Result<(PersonView, int), ErrorView> {
    match element_scope(attrs, inherited) {
        Err(e) => Err(e),
        Ok(scope) => parse_person_body(ev, j, scope, empty_person()),
    }
}

/// A person read inside its parent keeps every prefix that the parent's
/// scope binds and that its own start tag does not redeclare, bound to the
/// same URI: reading it with that binding inherited gives what reading it
/// with the binding declared on its own start tag gives, after its own
/// declarations.
pub proof fn law_person_inherits_prefixes(
    ev: Seq<EventView>,
    j: int,
    attrs: Seq<AttributeEventView>,
    inherited: Map<KeyView, Seq<char>>,
    p: Seq<char>,
)
    requires
        inherited.dom().contains(Some(p)),
        p != xml_word(),
        declaration_violation(Some(p), inherited[Some(p)]) is None,
        forall|x: int| 0 <= x < attrs.len() ==> #[trigger] declared_prefix(attrs[x].0) != Some(Some(p)),
    ensures
        parse_person(ev, j, attrs, inherited) == parse_person(
            ev,
            j,
            attrs.push(declaration_of(p, inherited[Some(p)])),
            inherited.remove(Some(p)),
        ),
{
    law_inherited_binding_is_kept(attrs, inherited, p);
}

impl Person {
    /// Reads a person using the namespace scope inherited from its parent.
    ///
    /// `attributes` are those of the person's start tag and its content starts
    /// at `events[pos]`; the result holds the person and the index just past
    /// its end tag. The person's own declarations are applied before its
    /// children are classified.
    pub fn from_xml_with_scope(
        events: &Vec<XmlEvent>,
        pos: usize,
        attributes: &Vec<XmlAttribute>,
        inherited: &NamespaceScope,
    ) -> (r: Result<(Person, usize), Error>)
        ensures
            match parse_person(events_view(events@), pos as int, attributes_view(attributes@), inherited@) {
                Ok((p, k)) => r matches Ok((x, y)) && x@ == p && y == k,
                Err(e) => r matches Err(x) && x@ == e,
            },
            r matches Ok((_, k)) ==> pos < k <= events@.len(),
    {
        let ghost ev = events_view(events@);
        let scope = match namespace_scope(attributes, inherited) {
            Ok(s) => s,
            Err(e) => {
                return Err(e);
            },
        };
        let mut person = Person::default();
        let n = events.len();
        if pos > n {
            return Err(Error::Eof);
        }
        let mut j = pos;
        loop
            invariant
                pos <= j <= n,
                n == events@.len(),
                ev == events_view(events@),
                parse_person(ev, pos as int, attributes_view(attributes@), inherited@)
                    == parse_person_body(ev, j as int, scope@, person@),
            decreases n - j,
        {
            if j >= n {
                return Err(Error::Eof);
            }
            assert(ev[j as int] == events@[j as int]@);
            match &events[j] {
                XmlEvent::Start { name, attributes: child_attributes } => {
                    let extension = match is_extension(name.as_str(), child_attributes, &scope) {
                        Ok(b) => b,
                        Err(e) => {
                            return Err(e);
                        },
                    };
                    if extension {
                        let ghost before = person@;
                        let k = match parse_extension(events, j, &scope, &mut person.extensions) {
                            Ok(k) => k,
                            Err(e) => {
                                return Err(e);
                            },
                        };
                        assert(person@.extensions =~= before.extensions.push(person.extensions@.last()@));
                        assert(classify_extension(name@, attributes_view(child_attributes@), scope@) == Ok::<bool, ErrorView>(true));
                        assert(parse_element(ev, j as int, scope@) == Ok::<(ExtensionView, int), ErrorView>((person.extensions@.last()@, k as int)));
                        assert(ev[j as int] == EventView::Start { name: name@, attributes: attributes_view(child_attributes@) });
                        assert(person@ == PersonView { extensions: before.extensions.push(person.extensions@.last()@), ..before });
                        assert(parse_person(ev, pos as int, attributes_view(attributes@), inherited@)
                            == parse_person_body(ev, k as int, scope@, person@));
                        j = k;
                    } else if str_eq(name.as_str(), "name") || str_eq(name.as_str(), "email") || str_eq(
                        name.as_str(),
                        "uri",
                    ) {
                        let (text, k) = match atom_text(events, j + 1) {
                            Ok(x) => x,
                            Err(e) => {
                                return Err(e);
                            },
                        };
                        if str_eq(name.as_str(), "name") {
                            person.name = match text {
                                Some(t) => t,
                                None => String::new(),
                            };
                        } else if str_eq(name.as_str(), "email") {
                            person.email = text;
                        } else {
                            person.uri = text;
                        }
                        assert(parse_person(ev, pos as int, attributes_view(attributes@), inherited@)
                            == parse_person_body(ev, k as int, scope@, person@));
                        j = k;
                    } else {
                        j = match skip(events, j + 1) {
                            Ok(k) => k,
                            Err(e) => {
                                return Err(e);
                            },
                        };
                    }
                },
                XmlEvent::End { .. } => {
                    return Ok((person, j + 1));
                },
                _ => {
                    j = j + 1;
                },
            }
        }
    }

    /// Reads a person in an empty inherited scope.
    pub fn from_xml(events: &Vec<XmlEvent>, pos: usize, attributes: &Vec<XmlAttribute>) -> (r:
        Result<(Person, usize), Error>)
        ensures
            match parse_person(events_view(events@), pos as int, attributes_view(attributes@), Map::empty()) {
                Ok((p, k)) => r matches Ok((x, y)) && x@ == p && y == k,
                Err(e) => r matches Err(x) && x@ == e,
            },
    {
        let scope = NamespaceScope::new();
        Person::from_xml_with_scope(events, pos, attributes, &scope)
    }
}

// ---------------------------------------------------------------------------
// Writing
// ---------------------------------------------------------------------------

/// The events of a person written as the element `element`.
pub open spec fn person_events(p: PersonView, element: Seq<char>) -> Result<
    Seq<EventView>,
    NamespaceErrorView,
> {
    match extensions_events(p.extensions, atom_scope()) {
        Err(e) => Err(e),
        Ok(x) => Ok(
            seq![EventView::Start { name: element, attributes: seq![] }] + text_element_events(
                "name"@,
                p.name,
            ) + optional_text_element_events("email"@, p.email) + optional_text_element_events(
                "uri"@,
                p.uri,
            ) + x + seq![EventView::End { name: element }],
        ),
    }
}

impl Person {
    /// Writes this person as the element `name`.
    pub fn to_xml_named(&self, writer: &mut Vec<XmlEvent>, name: &str) -> (r: Result<(), XmlError>)
        ensures
            match person_events(self@, name@) {
                Ok(evs) => r is Ok && events_view(final(writer)@) == events_view(old(writer)@) + evs,
                Err(v) => r matches Err(e) && e@ == ErrorView::Namespace(v),
            },
    {
        let ghost w0 = events_view(writer@);
        let attributes: Vec<XmlAttribute> = Vec::new();
        assert(attributes_view(attributes@) =~= Seq::<AttributeEventView>::empty());
        writer.push(XmlEvent::Start { name: String::from_str(name), attributes });
        let ghost w1 = events_view(writer@);
        assert(w1 =~= w0 + seq![EventView::Start { name: name@, attributes: seq![] }]);
        write_text_element(writer, "name", self.name.as_str());
        let ghost w2 = events_view(writer@);
        match &self.email {
            Some(e) => write_text_element(writer, "email", e.as_str()),
            None => {},
        }
        let ghost w3 = events_view(writer@);
        assert(w3 =~= w2 + optional_text_element_events("email"@, self@.email));
        match &self.uri {
            Some(u) => write_text_element(writer, "uri", u.as_str()),
            None => {},
        }
        let ghost w4 = events_view(writer@);
        assert(w4 =~= w3 + optional_text_element_events("uri"@, self@.uri));
        let scope = new_atom_scope();
        match write_extensions(writer, &self.extensions, &scope) {
            Ok(()) => {},
            Err(e) => {
                return Err(e);
            },
        }
        let ghost w5 = events_view(writer@);
        writer.push(XmlEvent::End { name: String::from_str(name) });
        assert(events_view(writer@) =~= w5.push(EventView::End { name: name@ }));
        proof {
            let x = extensions_events(self@.extensions, atom_scope())->Ok_0;
            assert(events_view(writer@) =~= w0 + (seq![EventView::Start { name: name@, attributes: seq![] }]
                + text_element_events("name"@, self@.name) + optional_text_element_events(
                "email"@,
                self@.email,
            ) + optional_text_element_events("uri"@, self@.uri) + x + seq![
                EventView::End { name: name@ },
            ]));
        }
        Ok(())
    }
}

} // verus!
