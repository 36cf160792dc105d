//! Namespace bindings of XML names: the reserved namespaces, namespace
//! declarations, and the resolution of serialized names to expanded names.

use vstd::prelude::*;
use vstd::string::*;

use crate::chars::{
    copy_string, is_ncname, lemma_ncname_has_no_colon, starts_with_xml_any_case, starts_with_xml_ignore_case, str_eq,
    valid_ncname,
};
use crate::error::{invalid_extension, Error, ErrorView, NamespaceError, NamespaceErrorView};
use crate::extension::{
    lemma_content_view, same_expanded_name, AttributeView, ContentView, ExpandedName, Extension,
    ExtensionAttribute, ExtensionContent, ExtensionView, NameView, attribute_views, content_views,
};
use crate::scope::{KeyView, NamespaceScope};
use crate::xml::{
    attributes_view, events_view, AttributeEventView, EventView, XmlAttribute, XmlEvent,
};

verus! {

/// The namespace URI bound exclusively to the `xml` prefix.
pub const XML_NAMESPACE: &'static str = "http://www.w3.org/XML/1998/namespace";

/// The reserved namespace URI used only to spell namespace declarations.
pub const XMLNS_NAMESPACE: &'static str = "http://www.w3.org/2000/xmlns/";

/// The Atom namespace URI.
pub const ATOM_NAMESPACE: &'static str = "http://www.w3.org/2005/Atom";

/// The characters `xml`.
pub open spec fn xml_word() -> Seq<char> {
    seq!['x', 'm', 'l']
}

/// The characters `xmlns`.
pub open spec fn xmlns_word() -> Seq<char> {
    seq!['x', 'm', 'l', 'n', 's']
}

/// Facts about the reserved namespace URIs.
pub proof fn lemma_namespace_literals()
    ensures
        XML_NAMESPACE@ != XMLNS_NAMESPACE@,
        XML_NAMESPACE@ != ATOM_NAMESPACE@,
        XMLNS_NAMESPACE@ != ATOM_NAMESPACE@,
        XML_NAMESPACE@.len() > 0,
        XMLNS_NAMESPACE@.len() > 0,
        ATOM_NAMESPACE@.len() > 0,
{
    reveal_strlit("http://www.w3.org/XML/1998/namespace");
    reveal_strlit("http://www.w3.org/2000/xmlns/");
    reveal_strlit("http://www.w3.org/2005/Atom");
    assert(XML_NAMESPACE@[18] != XMLNS_NAMESPACE@[18]);
    assert(XML_NAMESPACE@[18] != ATOM_NAMESPACE@[18]);
    assert(XMLNS_NAMESPACE@.len() != ATOM_NAMESPACE@.len());
}


// ---------------------------------------------------------------------------
// Namespace declarations
// ---------------------------------------------------------------------------

/// Why a declaration of `prefix` (`None`: the default namespace) to `uri` is
/// rejected, if it is.
pub open spec fn declaration_violation(prefix: Option<Seq<char>>, uri: Seq<char>) -> Option<
    NamespaceErrorView,
> {
    if prefix is Some && (!is_ncname(prefix->0) || (prefix->0 != xml_word()
        && starts_with_xml_any_case(prefix->0))) {
        Some(NamespaceErrorView::InvalidPrefix)
    } else if prefix == Some(xmlns_word()) || uri == XMLNS_NAMESPACE@ {
        Some(NamespaceErrorView::ReservedXmlnsBinding)
    } else if prefix == Some(xml_word()) && uri != XML_NAMESPACE@ {
        Some(NamespaceErrorView::XmlPrefixMismatch)
    } else if uri == XML_NAMESPACE@ && prefix != Some(xml_word()) {
        Some(NamespaceErrorView::XmlNamespaceMismatch)
    } else if uri.len() == 0 && prefix is Some {
        Some(NamespaceErrorView::EmptyPrefixedDeclaration)
    } else {
        None
    }
}

/// A scope after one declaration: an empty URI undeclares the default
/// namespace, any other URI binds the prefix.
pub open spec fn apply_declaration(
    scope: Map<KeyView, Seq<char>>,
    prefix: Option<Seq<char>>,
    uri: Seq<char>,
) -> Result<Map<KeyView, Seq<char>>, ErrorView> {
    match declaration_violation(prefix, uri) {
        Some(v) => Err(ErrorView::Namespace(v)),
        None => Ok(
            if uri.len() == 0 {
                scope.remove(prefix)
            } else {
                scope.insert(prefix, uri)
            },
        ),
    }
}

/// The view of an optional string slice.
pub open spec fn opt_str_view(o: Option<&str>) -> Option<Seq<char>> {
    match o {
        Some(s) => Some(s@),
        None => None,
    }
}

/// Applies one `xmlns` declaration to the scope for its declaring element.
///
/// Empty URIs only undeclare the default namespace. Reserved prefixes and URIs
/// are rejected so later expanded-name resolution has XML's required bindings.
pub fn apply_namespace_declaration(scope: &mut NamespaceScope, prefix: Option<&str>, uri: String) -> (r:
    Result<(), Error>)
    ensures
        match apply_declaration(old(scope)@, opt_str_view(prefix), uri@) {
            Ok(s) => r is Ok && final(scope)@ == s,
            Err(e) => r matches Err(x) && x@ == e && final(scope)@ == old(scope)@,
        },
{
    proof {
        reveal_strlit("xml");
        reveal_strlit("xmlns");
        assert("xml"@ =~= xml_word());
        assert("xmlns"@ =~= xmlns_word());
    }
    match prefix {
        Some(p) => {
            if !valid_ncname(p) || (!str_eq(p, "xml") && starts_with_xml_ignore_case(p)) {
                return Err(Error::Xml(invalid_extension(NamespaceError::InvalidPrefix)));
            }
        },
        None => {},
    }
    let is_xmlns_prefix = match prefix {
        Some(p) => str_eq(p, "xmlns"),
        None => false,
    };
    let is_xml_prefix = match prefix {
        Some(p) => str_eq(p, "xml"),
        None => false,
    };
    let is_xmlns_uri = str_eq(uri.as_str(), XMLNS_NAMESPACE);
    let is_xml_uri = str_eq(uri.as_str(), XML_NAMESPACE);
    if is_xmlns_prefix || is_xmlns_uri {
        return Err(Error::Xml(invalid_extension(NamespaceError::ReservedXmlnsBinding)));
    }
    if is_xml_prefix && !is_xml_uri {
        return Err(Error::Xml(invalid_extension(NamespaceError::XmlPrefixMismatch)));
    }
    if is_xml_uri && !is_xml_prefix {
        return Err(Error::Xml(invalid_extension(NamespaceError::XmlNamespaceMismatch)));
    }
    let key: Option<String> = match prefix {
        Some(p) => Some(String::from_str(p)),
        None => None,
    };
    if uri.as_str().unicode_len() == 0 {
        if prefix.is_some() {
            return Err(Error::Xml(invalid_extension(NamespaceError::EmptyPrefixedDeclaration)));
        }
        assert(uri@ =~= Seq::<char>::empty());
        scope.remove(&key);
    } else {
        scope.insert(key, uri);
    }
    Ok(())
}

/// `xmlns:`.
pub open spec fn xmlns_colon() -> Seq<char> {
    xmlns_word().push(':')
}

/// What an attribute name declares: `Some(None)` for `xmlns`, `Some(Some(p))`
/// for `xmlns:p`, `None` for an ordinary attribute.
pub open spec fn declared_prefix(key: Seq<char>) -> Option<Option<Seq<char>>> {
    if key == xmlns_word() {
        Some(None)
    } else if key.len() >= 6 && key.take(6) == xmlns_colon() {
        Some(Some(key.skip(6)))
    } else {
        None
    }
}

/// The scope after the declarations among `attrs[i..]`.
pub open spec fn declared_scope(
    attrs: Seq<AttributeEventView>,
    i: int,
    scope: Map<KeyView, Seq<char>>,
) -> Result<Map<KeyView, Seq<char>>, ErrorView>
    decreases attrs.len() - i,
{
    if i < 0 || i >= attrs.len() {
        Ok(scope)
    } else {
        match declared_prefix(attrs[i].0) {
            None => declared_scope(attrs, i + 1, scope),
            Some(p) => match apply_declaration(scope, p, attrs[i].1) {
                Err(e) => Err(e),
                Ok(s2) => declared_scope(attrs, i + 1, s2),
            },
        }
    }
}

/// The scope of an element: the inherited bindings, the required `xml`
/// binding, and the element's own declarations in order.
pub open spec fn element_scope(attrs: Seq<AttributeEventView>, inherited: Map<KeyView, Seq<char>>) -> Result<
    Map<KeyView, Seq<char>>,
    ErrorView,
> {
    declared_scope(attrs, 0, inherited.insert(Some(xml_word()), XML_NAMESPACE@))
}

/// Classifies an attribute name as a declaration.
fn classify_declaration(key: &str) -> (r: Option<Option<String>>)
    ensures
        match declared_prefix(key@) {
            None => r is None,
            Some(None) => r == Some(None::<String>),
            Some(Some(p)) => r matches Some(Some(x)) && x@ == p,
        },
{
    proof {
        reveal_strlit("xmlns");
        reveal_strlit("xmlns:");
        assert("xmlns"@ =~= xmlns_word());
        assert("xmlns:"@ =~= xmlns_colon());
    }
    if str_eq(key, "xmlns") {
        return Some(None);
    }
    let n = key.unicode_len();
    if n >= 6 {
        let head = key.substring_char(0, 6);
        if str_eq(head, "xmlns:") {
            return Some(Some(String::from_str(key.substring_char(6, n))));
        }
    }
    None
}

/// Constructs an element's scope from inherited bindings and its attributes.
///
/// Namespace declaration attributes are applied in order; all other
/// attributes are ignored. The required `xml` binding is installed even when
/// absent from the document.
pub fn namespace_scope(attributes: &Vec<XmlAttribute>, inherited: &NamespaceScope) -> (r: Result<
    NamespaceScope,
    Error,
>)
    ensures
        match element_scope(attributes_view(attributes@), inherited@) {
            Ok(s) => r matches Ok(x) && x@ == s,
            Err(e) => r matches Err(x) && x@ == e,
        },
{
    let ghost av = attributes_view(attributes@);
    let mut scope = inherited.clone_scope();
    proof {
        reveal_strlit("xml");
        assert("xml"@ =~= xml_word());
    }
    scope.insert(Some(String::from_str("xml")), String::from_str(XML_NAMESPACE));
    let n = attributes.len();
    let mut i: usize = 0;
    while i < n
        invariant
            i <= n,
            n == attributes@.len(),
            av == attributes_view(attributes@),
            element_scope(av, inherited@) == declared_scope(av, i as int, scope@),
        decreases n - i,
    {
        let attribute = &attributes[i];
        assert(av[i as int] == attribute@);
        match classify_declaration(attribute.key.as_str()) {
            None => {},
            Some(prefix) => {
                assert(declared_prefix(av[i as int].0) is Some);
                let value = copy_string(&attribute.value);
                let applied = match &prefix {
                    Some(p) => apply_namespace_declaration(&mut scope, Some(p.as_str()), value),
                    None => apply_namespace_declaration(&mut scope, None, value),
                };
                match applied {
                    Ok(()) => {},
                    Err(e) => {
                        return Err(e);
                    },
                }
            },
        }
        i = i + 1;
    }
    Ok(scope)
}

// ---------------------------------------------------------------------------
// Resolving serialized names
// ---------------------------------------------------------------------------

/// The index of the first colon of `s`, if any.
pub open spec fn colon_position(s: Seq<char>) -> Option<nat>
    decreases s.len(),
{
    if s.len() == 0 {
        None
    } else if s[0] == ':' {
        Some(0)
    } else {
        match colon_position(s.drop_first()) {
            Some(k) => Some(k + 1),
            None => None,
        }
    }
}

pub proof fn lemma_colon_position(s: Seq<char>)
    ensures
        colon_position(s) is None <==> !s.contains(':'),
        colon_position(s) matches Some(k) ==> k < s.len() && s[k as int] == ':' && forall|j: int|
            0 <= j < k ==> s[j] != ':',
    decreases s.len(),
{
    if s.len() > 0 {
        lemma_colon_position(s.drop_first());
        if s[0] != ':' {
            if s.contains(':') {
                let j = choose|j: int| 0 <= j < s.len() && s[j] == ':';
                assert(s.drop_first()[j - 1] == ':');
            }
            if s.drop_first().contains(':') {
                let j = choose|j: int| 0 <= j < s.drop_first().len() && s.drop_first()[j] == ':';
                assert(s[j + 1] == ':');
            }
            if colon_position(s) is Some {
                assert forall|j: int| 0 <= j < colon_position(s)->0 implies s[j] != ':' by {
                    if j > 0 {
                        assert(s[j] == s.drop_first()[j - 1]);
                    }
                }
            }
        } else {
            assert(s.contains(':'));
        }
    }
}

/// Splits a serialized name at its first colon into a prefix and a local
/// name; `None` when the prefix or local name is empty or the local name holds
/// another colon.
pub open spec fn split_name(raw: Seq<char>) -> Option<(Option<Seq<char>>, Seq<char>)> {
    match colon_position(raw) {
        None => Some((None, raw)),
        Some(c) => {
            let p = raw.take(c as int);
            let l = raw.skip((c + 1) as int);
            if p.len() > 0 && l.len() > 0 && !l.contains(':') {
                Some((Some(p), l))
            } else {
                None
            }
        },
    }
}

/// Resolves a serialized XML name to its expanded name in `scope`.
///
/// Element names inherit the default namespace; unprefixed attributes do not.
/// The source prefix is kept as a serialization preference.
pub open spec fn resolve_name(raw: Seq<char>, scope: Map<KeyView, Seq<char>>, attribute: bool) -> Result<
    NameView,
    ErrorView,
> {
    match split_name(raw) {
        None => Err(ErrorView::Namespace(NamespaceErrorView::MalformedName)),
        Some((prefix, local)) => {
            if !is_ncname(local) || (prefix is Some && (!is_ncname(prefix->0) || prefix->0
                == xmlns_word())) {
                Err(ErrorView::Namespace(NamespaceErrorView::InvalidPrefixOrLocalName))
            } else {
                match prefix {
                    Some(p) => if scope.dom().contains(Some(p)) {
                        Ok(
                            NameView {
                                namespace_uri: Some(scope[Some(p)]),
                                local_name: local,
                                preferred_prefix: Some(p),
                            },
                        )
                    } else {
                        Err(ErrorView::Namespace(NamespaceErrorView::UnboundPrefix(p)))
                    },
                    None => Ok(
                        NameView {
                            namespace_uri: if attribute {
                                None
                            } else if scope.dom().contains(None) {
                                Some(scope[None])
                            } else {
                                None
                            },
                            local_name: local,
                            preferred_prefix: None,
                        },
                    ),
                }
            }
        },
    }
}

/// The index of the first colon of `s`, if any.
fn find_colon(s: &str) -> (r: Option<usize>)
    ensures
        r matches Some(k) ==> colon_position(s@) == Some(k as nat),
        r is None ==> colon_position(s@) is None,
{
    proof {
        lemma_colon_position(s@);
    }
    let n = s.unicode_len();
    let mut i: usize = 0;
    while i < n
        invariant
            i <= n,
            n == s@.len(),
            forall|j: int| 0 <= j < i ==> s@[j] != ':',
        decreases n - i,
    {
        if s.get_char(i) == ':' {
            proof {
                lemma_colon_position(s@);
                if colon_position(s@) is None {
                    assert(s@.contains(':'));
                } else {
                    let c = colon_position(s@)->0;
                    if c < i {
                        assert(s@[c as int] == ':');
                    } else if c > i {
                        assert(s@[i as int] == ':');
                    }
                }
            }
            return Some(i);
        }
        i = i + 1;
    }
    proof {
        lemma_colon_position(s@);
        if colon_position(s@) is Some {
            let c = colon_position(s@)->0;
            assert(s@[c as int] == ':');
        }
    }
    None
}

/// How a serialized name resolves, by its form.
///
/// A name without a colon resolves when it is an NCName, to itself as local
/// name, in no namespace for an attribute and in the default namespace (if
/// any) for an element, with no prefix. A name with a colon resolves exactly
/// when it is `p:l` with NCNames `p` (other than `xmlns`) and `l` and `p` is
/// bound in the scope, to `l` in the namespace bound to `p`, with the prefix
/// `p`.
pub proof fn law_resolved_name_forms(raw: Seq<char>, scope: Map<KeyView, Seq<char>>, attribute: bool)
    ensures
        !raw.contains(':') ==> (resolve_name(raw, scope, attribute) is Ok <==> is_ncname(raw)),
        !raw.contains(':') && is_ncname(raw) ==> resolve_name(raw, scope, attribute) == Ok::<NameView, ErrorView>(
            NameView {
                namespace_uri: if attribute {
                    None
                } else if scope.dom().contains(None) {
                    Some(scope[None])
                } else {
                    None
                },
                local_name: raw,
                preferred_prefix: None,
            },
        ),
        raw.contains(':') ==> (resolve_name(raw, scope, attribute) is Ok <==> exists|p: Seq<char>, l: Seq<char>|
            #![trigger p + seq![':'] + l]
            raw == p + seq![':'] + l && is_ncname(p) && p != xmlns_word() && is_ncname(l) && scope.dom().contains(
                Some(p),
            )),
        forall|p: Seq<char>, l: Seq<char>|
            #![trigger p + seq![':'] + l]
            raw == p + seq![':'] + l && is_ncname(p) && p != xmlns_word() && is_ncname(l) && scope.dom().contains(
                Some(p),
            ) ==> resolve_name(raw, scope, attribute) == Ok::<NameView, ErrorView>(
                NameView { namespace_uri: Some(scope[Some(p)]), local_name: l, preferred_prefix: Some(p) },
            ),
{
    lemma_colon_position(raw);
    assert forall|p: Seq<char>, l: Seq<char>|
        #![trigger p + seq![':'] + l]
        raw == p + seq![':'] + l && is_ncname(p) && is_ncname(l) implies colon_position(raw) == Some(p.len())
        && raw.take(p.len() as int) == p && raw.skip((p.len() + 1) as int) == l by {
        lemma_ncname_has_no_colon(p);
        lemma_ncname_has_no_colon(l);
        assert(raw[p.len() as int] == ':');
        assert forall|j: int| 0 <= j < p.len() implies raw[j] != ':' by {
            assert(raw[j] == p[j]);
        }
        let c = colon_position(raw)->0;
        if c < p.len() {
            assert(raw[c as int] == p[c as int]);
        }
        assert(raw.take(p.len() as int) =~= p);
        assert(raw.skip((p.len() + 1) as int) =~= l);
    }
    if raw.contains(':') {
        if resolve_name(raw, scope, attribute) is Ok {
            let c = colon_position(raw)->0;
            let p = raw.take(c as int);
            let l = raw.skip((c + 1) as int);
            assert(raw =~= p + seq![':'] + l);
        }
    }
}

/// Resolves a serialized XML name to its expanded name in `scope`.
///
/// Invalid prefixes or local names, multiple-colon names, and unbound
/// prefixes are errors.
pub fn expanded_name(raw_name: &str, scope: &NamespaceScope, attribute: bool) -> (r: Result<
    ExpandedName,
    Error,
>)
    ensures
        match resolve_name(raw_name@, scope@, attribute) {
            Ok(n) => r matches Ok(x) && x@ == n,
            Err(e) => r matches Err(x) && x@ == e,
        },
{
    proof {
        lemma_colon_position(raw_name@);
        reveal_strlit("xmlns");
        assert("xmlns"@ =~= xmlns_word());
    }
    let n = raw_name.unicode_len();
    let (prefix, local): (Option<String>, String) = match find_colon(raw_name) {
        Some(c) => {
            let p = raw_name.substring_char(0, c);
            let l = raw_name.substring_char(c + 1, n);
            proof {
                lemma_colon_position(l@);
            }
            if c == 0 || c + 1 == n || find_colon(l).is_some() {
                return Err(Error::Xml(invalid_extension(NamespaceError::MalformedName)));
            }
            assert(p@ == raw_name@.take(c as int));
            assert(l@ == raw_name@.skip(c + 1));
            (Some(String::from_str(p)), String::from_str(l))
        },
        None => (None, String::from_str(raw_name)),
    };
    let prefix_invalid = match &prefix {
        Some(p) => !valid_ncname(p.as_str()) || str_eq(p.as_str(), "xmlns"),
        None => false,
    };
    if !valid_ncname(local.as_str()) || prefix_invalid {
        return Err(Error::Xml(invalid_extension(NamespaceError::InvalidPrefixOrLocalName)));
    }
    let namespace_uri = match &prefix {
        Some(p) => match scope.get(&Some(copy_string(p))) {
            Some(u) => Some(copy_string(u)),
            None => {
                return Err(
                    Error::Xml(invalid_extension(NamespaceError::UnboundPrefix(copy_string(p)))),
                );
            },
        },
        None => {
            if attribute {
                None
            } else {
                match scope.get(&None) {
                    Some(u) => Some(copy_string(u)),
                    None => None,
                }
            }
        },
    };
    Ok(ExpandedName { namespace_uri, local_name: local, preferred_prefix: prefix })
}


// ---------------------------------------------------------------------------
// Classifying and parsing extension elements
// ---------------------------------------------------------------------------

/// Whether an element must be kept as an extension rather than read as an
/// Atom element: its name is resolved after its own declarations apply, and
/// any prefixed name, or any name outside the Atom namespace, is an extension.
pub open spec fn classify_extension(
    name: Seq<char>,
    attrs: Seq<AttributeEventView>,
    scope: Map<KeyView, Seq<char>>,
) -> Result<bool, ErrorView> {
    match element_scope(attrs, scope) {
        Err(e) => Err(e),
        Ok(s) => match resolve_name(name, s, false) {
            Err(e) => Err(e),
            Ok(n) => Ok(n.preferred_prefix is Some || n.namespace_uri != Some(ATOM_NAMESPACE@)),
        },
    }
}

/// Returns whether an element must be retained as an extension rather than
/// read as an Atom element. Malformed or unbound prefixes are errors.
pub fn is_extension(name: &str, attributes: &Vec<XmlAttribute>, scope: &NamespaceScope) -> (r:
    Result<bool, Error>)
    ensures
        match classify_extension(name@, attributes_view(attributes@), scope@) {
            Ok(b) => r == Ok::<bool, Error>(b),
            Err(e) => r matches Err(x) && x@ == e,
        },
{
    let scoped = match namespace_scope(attributes, scope) {
        Ok(s) => s,
        Err(e) => {
            return Err(e);
        },
    };
    let resolved = match expanded_name(name, &scoped, false) {
        Ok(n) => n,
        Err(e) => {
            return Err(e);
        },
    };
    let atom = match &resolved.namespace_uri {
        Some(u) => str_eq(u.as_str(), ATOM_NAMESPACE),
        None => false,
    };
    Ok(resolved.preferred_prefix.is_some() || !atom)
}

/// Content after appending character data, coalesced with preceding text.
pub open spec fn pushed_text(c: Seq<ContentView>, t: Seq<char>) -> Seq<ContentView> {
    if c.len() > 0 && c.last() is Text {
        c.drop_last().push(ContentView::Text(c.last()->Text_0 + t))
    } else {
        c.push(ContentView::Text(t))
    }
}

/// Appends character data while coalescing it with preceding text content.
pub fn push_text(content: &mut Vec<ExtensionContent>, text: String)
    ensures
        content_views(final(content)@) == pushed_text(content_views(old(content)@), text@),
{
    let ghost before = content_views(content@);
    match content.pop() {
        Some(ExtensionContent::Text(previous)) => {
            let mut joined = previous;
            joined.append(text.as_str());
            content.push(ExtensionContent::Text(joined));
        },
        Some(other) => {
            content.push(other);
            content.push(ExtensionContent::Text(text));
        },
        None => {
            content.push(ExtensionContent::Text(text));
        },
    }
    assert(content_views(content@) =~= pushed_text(before, text@));
}

/// The text of a general reference: what it resolves to, or the reference
/// itself when it is neither predefined nor a character reference.
pub open spec fn reference_text(name: Seq<char>, resolved: Option<Seq<char>>) -> Seq<char> {
    match resolved {
        Some(t) => t,
        None => seq!['&'] + name + seq![';'],
    }
}

/// The attributes of an extension element: declarations are skipped, names
/// are resolved in the element's scope, and an expanded name met twice is an error.
pub open spec fn parse_attributes(
    attrs: Seq<AttributeEventView>,
    i: int,
    scope: Map<KeyView, Seq<char>>,
    acc: Seq<AttributeView>,
) -> Result<Seq<AttributeView>, ErrorView>
    decreases attrs.len() - i,
{
    if i < 0 || i >= attrs.len() {
        Ok(acc)
    } else if declared_prefix(attrs[i].0) is Some {
        parse_attributes(attrs, i + 1, scope, acc)
    } else {
        match resolve_name(attrs[i].0, scope, true) {
            Err(e) => Err(e),
            Ok(n) => if exists|k: int| 0 <= k < acc.len() && same_expanded_name(acc[k].name, n) {
                Err(ErrorView::Namespace(NamespaceErrorView::DuplicateAttribute))
            } else {
                parse_attributes(attrs, i + 1, scope, acc.push(AttributeView { name: n, value: attrs[i].1 }))
            },
        }
    }
}

/// Parses the extension element whose start tag is `ev[i]`: its scope, name,
/// attributes and content, up to its end tag. Returns the extension and the
/// index just past its end tag.
pub open spec fn parse_element(ev: Seq<EventView>, i: int, inherited: Map<KeyView, Seq<char>>) -> Result<
    (ExtensionView, int),
    ErrorView,
>
    decreases ev.len() - i, 0int,
{
    if 0 <= i < ev.len() && ev[i] is Start {
        let name = ev[i]->Start_name;
        let attrs = ev[i]->Start_attributes;
        match element_scope(attrs, inherited) {
            Err(e) => Err(e),
            Ok(scope) => match resolve_name(name, scope, false) {
                Err(e) => Err(e),
                Ok(n) => match parse_attributes(attrs, 0, scope, seq![]) {
                    Err(e) => Err(e),
                    Ok(a) => match parse_content(ev, i + 1, scope, seq![]) {
                        Err(e) => Err(e),
                        Ok((c, j)) => Ok((ExtensionView { name: n, attributes: a, content: c }, j)),
                    },
                },
            },
        }
    } else {
        Err(ErrorView::Eof)
    }
}

/// Parses mixed content from `ev[j]` up to and including the end tag that
/// closes it, after the content `acc` already read.
pub open spec fn parse_content(
    ev: Seq<EventView>,
    j: int,
    scope: Map<KeyView, Seq<char>>,
    acc: Seq<ContentView>,
) -> Result<(Seq<ContentView>, int), ErrorView>
    decreases ev.len() - j, 1int,
{
    if j < 0 || j >= ev.len() {
        Err(ErrorView::Eof)
    } else {
        match ev[j] {
            EventView::Start { .. } => match parse_element(ev, j, scope) {
                Err(e) => Err(e),
                Ok((child, k)) => if j < k <= ev.len() {
                    parse_content(ev, k, scope, acc.push(ContentView::Element(child)))
                } else {
                    Err(ErrorView::Eof)
                },
            },
            EventView::Text(t) => parse_content(ev, j + 1, scope, pushed_text(acc, t)),
            EventView::CData(t) => parse_content(ev, j + 1, scope, acc.push(ContentView::Text(t))),
            EventView::Reference { name, resolved } => parse_content(
                ev,
                j + 1,
                scope,
                pushed_text(acc, reference_text(name, resolved)),
            ),
            EventView::End { .. } => Ok((acc, j + 1)),
            EventView::Other => parse_content(ev, j + 1, scope, acc),
        }
    }
}

/// Parses the attributes of an extension element.
fn parse_extension_attributes(attributes: &Vec<XmlAttribute>, scope: &NamespaceScope) -> (r: Result<
    Vec<ExtensionAttribute>,
    Error,
>)
    ensures
        match parse_attributes(attributes_view(attributes@), 0, scope@, seq![]) {
            Ok(a) => r matches Ok(x) && attribute_views(x@) == a,
            Err(e) => r matches Err(x) && x@ == e,
        },
{
    let ghost av = attributes_view(attributes@);
    let mut out: Vec<ExtensionAttribute> = Vec::new();
    assert(attribute_views(out@) =~= Seq::<AttributeView>::empty());
    let n = attributes.len();
    let mut i: usize = 0;
    while i < n
        invariant
            i <= n,
            n == attributes@.len(),
            av == attributes_view(attributes@),
            parse_attributes(av, 0, scope@, seq![]) == parse_attributes(
                av,
                i as int,
                scope@,
                attribute_views(out@),
            ),
        decreases n - i,
    {
        let attribute = &attributes[i];
        assert(av[i as int] == attribute@);
        if classify_declaration(attribute.key.as_str()).is_none() {
            let name = match expanded_name(attribute.key.as_str(), scope, true) {
                Ok(x) => x,
                Err(e) => {
                    return Err(e);
                },
            };
            let ghost ov = attribute_views(out@);
            let mut k: usize = 0;
            while k < out.len()
                invariant
                    k <= out@.len(),
                    ov == attribute_views(out@),
                    i < n,
                    n == attributes@.len(),
                    av == attributes_view(attributes@),
                    declared_prefix(av[i as int].0) is None,
                    resolve_name(av[i as int].0, scope@, true) == Ok::<NameView, ErrorView>(name@),
                    parse_attributes(av, 0, scope@, seq![]) == parse_attributes(
                        av,
                        i as int,
                        scope@,
                        ov,
                    ),
                    forall|x: int| 0 <= x < k ==> !same_expanded_name(#[trigger] ov[x].name, name@),
                decreases out@.len() - k,
            {
                if crate::extension::names_equal(&out[k].name, &name) {
                    assert(ov[k as int] == out@[k as int]@);
                    return Err(Error::Xml(invalid_extension(NamespaceError::DuplicateAttribute)));
                }
                k = k + 1;
            }
            let value = copy_string(&attribute.value);
            out.push(ExtensionAttribute { name, value });
            assert(attribute_views(out@) =~= ov.push(
                AttributeView { name: out@[ov.len() as int].name@, value: av[i as int].1 },
            ));
        }
        i = i + 1;
    }
    Ok(out)
}

/// Parses an extension subtree with expanded names and ordered mixed content.
///
/// `events[pos]` is the start tag; the result holds the extension and the
/// index just past its end tag. The element's scope is derived from its own
/// declarations before any of its names is resolved.
pub fn parse_extension_element(events: &Vec<XmlEvent>, pos: usize, inherited: &NamespaceScope) -> (r:
    Result<(Extension, usize), Error>)
    requires
        pos < events@.len(),
        events@[pos as int] is Start,
    ensures
        match parse_element(events_view(events@), pos as int, inherited@) {
            Ok((e, j)) => r matches Ok((x, k)) && x@ == e && k == j,
            Err(e) => r matches Err(x) && x@ == e,
        },
        r matches Ok((_, k)) ==> pos < k <= events@.len(),
    decreases events@.len() - pos,
{
    let ghost ev = events_view(events@);
    let (raw_name, attributes) = match &events[pos] {
        XmlEvent::Start { name, attributes } => (name, attributes),
        _ => {
            return Err(Error::Eof);
        },
    };
    assert(ev[pos as int] == events@[pos as int]@);
    let scope = match namespace_scope(attributes, inherited) {
        Ok(s) => s,
        Err(e) => {
            return Err(e);
        },
    };
    let name = match expanded_name(raw_name.as_str(), &scope, false) {
        Ok(n) => n,
        Err(e) => {
            return Err(e);
        },
    };
    let parsed_attributes = match parse_extension_attributes(attributes, &scope) {
        Ok(a) => a,
        Err(e) => {
            return Err(e);
        },
    };
    let ghost name_view = name@;
    let ghost attributes_parsed = attribute_views(parsed_attributes@);
    let mut content: Vec<ExtensionContent> = Vec::new();
    assert(content_views(content@) =~= Seq::<ContentView>::empty());
    let n = events.len();
    let mut j: usize = pos + 1;
    loop
        invariant
            pos < j <= n,
            n == events@.len(),
            ev == events_view(events@),
            name_view == name@,
            attributes_parsed == attribute_views(parsed_attributes@),
            parse_element(ev, pos as int, inherited@) == match parse_content(
                ev,
                pos + 1,
                scope@,
                seq![],
            ) {
                Err(e) => Err(e),
                Ok((c, k)) => Ok(
                    (ExtensionView { name: name_view, attributes: attributes_parsed, content: c }, k),
                ),
            },
            parse_content(ev, pos + 1, scope@, seq![]) == parse_content(
                ev,
                j as int,
                scope@,
                content_views(content@),
            ),
        decreases n - j,
    {
        if j >= n {
            return Err(Error::Eof);
        }
        let ghost before = content_views(content@);
        assert(ev[j as int] == events@[j as int]@);
        match &events[j] {
            XmlEvent::Start { .. } => {
                let (child, k) = match parse_extension_element(events, j, &scope) {
                    Ok(x) => x,
                    Err(e) => {
                        return Err(e);
                    },
                };
                content.push(ExtensionContent::Element(child));
                assert(content_views(content@) =~= before.push(ContentView::Element(child@)));
                j = k;
            },
            XmlEvent::Text(t) => {
                push_text(&mut content, copy_string(t));
                j = j + 1;
            },
            XmlEvent::CData(t) => {
                content.push(ExtensionContent::Text(copy_string(t)));
                assert(content_views(content@) =~= before.push(ContentView::Text(t@)));
                j = j + 1;
            },
            XmlEvent::Reference { name, resolved } => {
                let text = match resolved {
                    Some(x) => copy_string(x),
                    None => {
                        proof {
                            reveal_strlit("&");
                            reveal_strlit(";");
                        }
                        let mut t = String::from_str("&");
                        t.append(name.as_str());
                        t.append(";");
                        t
                    },
                };
                assert(text@ =~= reference_text(name@, resolved.deep_view()));
                push_text(&mut content, text);
                j = j + 1;
            },
            XmlEvent::End { .. } => {
                let e = Extension { name, attributes: parsed_attributes, content };
                proof {
                    lemma_content_view(e);
                }
                return Ok((e, j + 1));
            },
            XmlEvent::Other => {
                j = j + 1;
            },
        }
    }
}

/// Parses one extension child and appends it in document order; returns the
/// index just past its end tag.
pub fn parse_extension(
    events: &Vec<XmlEvent>,
    pos: usize,
    inherited: &NamespaceScope,
    extensions: &mut Vec<Extension>,
) -> (r: Result<usize, Error>)
    requires
        pos < events@.len(),
        events@[pos as int] is Start,
    ensures
        match parse_element(events_view(events@), pos as int, inherited@) {
            Ok((e, j)) => r matches Ok(k) && k == j && final(extensions)@.len() == old(
                extensions,
            )@.len() + 1 && final(extensions)@.take(old(extensions)@.len() as int) == old(
                extensions,
            )@ && final(extensions)@.last()@ == e,
            Err(e) => r matches Err(x) && x@ == e,
        },
        r matches Ok(k) ==> pos < k <= events@.len(),
{
    match parse_extension_element(events, pos, inherited) {
        Ok((e, k)) => {
            extensions.push(e);
            assert(extensions@.take(old(extensions)@.len() as int) =~= old(extensions)@);
            Ok(k)
        },
        Err(e) => Err(e),
    }
}


// ---------------------------------------------------------------------------
// Laws of reading
// ---------------------------------------------------------------------------

/// The character data of mixed content: its text items one after the other
/// (child elements hold none of it).
pub open spec fn content_chars(c: Seq<ContentView>) -> Seq<char>
    decreases c.len(),
{
    if c.len() == 0 {
        seq![]
    } else {
        content_chars(c.drop_last()) + match c.last() {
            ContentView::Text(t) => t,
            ContentView::Element(_) => seq![],
        }
    }
}

/// The character data that one event carries: the text of character data
/// and of a CDATA section, the text a reference stands for.
pub open spec fn event_chars(e: EventView) -> Seq<char> {
    match e {
        EventView::Text(t) => t,
        EventView::CData(t) => t,
        EventView::Reference { name, resolved } => reference_text(name, resolved),
        _ => seq![],
    }
}

/// The character data of the events `ev[j..k]`, one after the other.
pub open spec fn chars_between(ev: Seq<EventView>, j: int, k: int) -> Seq<char>
    decreases k - j,
{
    if j >= k {
        seq![]
    } else {
        event_chars(ev[j]) + chars_between(ev, j + 1, k)
    }
}

proof fn lemma_pushed_text_chars(c: Seq<ContentView>, t: Seq<char>)
    ensures
        content_chars(pushed_text(c, t)) == content_chars(c) + t,
{
    if c.len() > 0 && c.last() is Text {
        let d = pushed_text(c, t);
        assert(d.drop_last() =~= c.drop_last());
        assert(content_chars(c) == content_chars(c.drop_last()) + c.last()->Text_0);
        assert(content_chars(d) == content_chars(c.drop_last()) + (c.last()->Text_0 + t));
        assert(content_chars(c.drop_last()) + (c.last()->Text_0 + t) =~= content_chars(c.drop_last())
            + c.last()->Text_0 + t);
    } else {
        let d = c.push(ContentView::Text(t));
        assert(d.drop_last() =~= c);
    }
}

/// Content made only of character data, CDATA sections, references and other
/// events (no child element) keeps all of its character data, in document
/// order: reading it from `ev[j]` to its end tag `ev[k]` appends to the text
/// read before exactly the text of each event, and stops just past the end
/// tag.
pub proof fn law_content_keeps_character_data(
    ev: Seq<EventView>,
    j: int,
    k: int,
    scope: Map<KeyView, Seq<char>>,
    acc: Seq<ContentView>,
)
    requires
        0 <= j <= k < ev.len(),
        ev[k] is End,
        forall|i: int| j <= i < k ==> !(#[trigger] ev[i] is Start) && !(ev[i] is End),
    ensures
        parse_content(ev, j, scope, acc) matches Ok((c, m)) && m == k + 1 && content_chars(c) == content_chars(
            acc,
        ) + chars_between(ev, j, k),
    decreases k - j,
{
    if j == k {
        assert(content_chars(acc) + seq![] =~= content_chars(acc));
    } else {
        let e = ev[j];
        assert(!(e is Start) && !(e is End));
        let acc2 = match e {
            EventView::Text(t) => pushed_text(acc, t),
            EventView::CData(t) => acc.push(ContentView::Text(t)),
            EventView::Reference { name, resolved } => pushed_text(acc, reference_text(name, resolved)),
            _ => acc,
        };
        match e {
            EventView::Text(t) => lemma_pushed_text_chars(acc, t),
            EventView::CData(t) => {
                assert(acc.push(ContentView::Text(t)).drop_last() =~= acc);
            },
            EventView::Reference { name, resolved } => lemma_pushed_text_chars(acc, reference_text(name, resolved)),
            _ => {
                assert(content_chars(acc) + seq![] =~= content_chars(acc));
            },
        }
        assert(content_chars(acc2) == content_chars(acc) + event_chars(e));
        law_content_keeps_character_data(ev, j + 1, k, scope, acc2);
        let c = parse_content(ev, j + 1, scope, acc2)->Ok_0.0;
        assert(content_chars(c) =~= content_chars(acc) + chars_between(ev, j, k));
    }
}

/// The attribute that declares `p` bound to `u`: `xmlns:p="u"`.
pub open spec fn declaration_of(p: Seq<char>, u: Seq<char>) -> AttributeEventView {
    (xmlns_colon() + p, u)
}

proof fn lemma_declared_scope_inherited(
    attrs: Seq<AttributeEventView>,
    i: int,
    s: Map<KeyView, Seq<char>>,
    p: Seq<char>,
)
    requires
        0 <= i <= attrs.len(),
        s.dom().contains(Some(p)),
        declaration_violation(Some(p), s[Some(p)]) is None,
        forall|x: int| i <= x < attrs.len() ==> #[trigger] declared_prefix(attrs[x].0) != Some(Some(p)),
    ensures
        declared_scope(attrs.push(declaration_of(p, s[Some(p)])), i, s.remove(Some(p))) == declared_scope(
            attrs,
            i,
            s,
        ),
    decreases attrs.len() - i,
{
    let u = s[Some(p)];
    let all = attrs.push(declaration_of(p, u));
    if i == attrs.len() {
        let key = xmlns_colon() + p;
        assert(key.take(6) =~= xmlns_colon());
        assert(key.skip(6) =~= p);
        assert(key.len() != xmlns_word().len());
        assert(all[i] == declaration_of(p, u));
        assert(declared_prefix(all[i].0) == Some(Some(p)));
        assert(u.len() > 0);
        assert(s.remove(Some(p)).insert(Some(p), u) =~= s);
        assert(apply_declaration(s.remove(Some(p)), Some(p), u) == Ok::<Map<KeyView, Seq<char>>, ErrorView>(s));
        assert(declared_scope(all, i + 1, s) == Ok::<Map<KeyView, Seq<char>>, ErrorView>(s));
        assert(declared_scope(attrs, i, s) == Ok::<Map<KeyView, Seq<char>>, ErrorView>(s));
    } else {
        assert(all[i] == attrs[i]);
        match declared_prefix(attrs[i].0) {
            None => {
                lemma_declared_scope_inherited(attrs, i + 1, s, p);
            },
            Some(q) => {
                let v = attrs[i].1;
                match apply_declaration(s, q, v) {
                    Err(_) => {},
                    Ok(s2) => {
                        assert(q != Some(p));
                        if v.len() == 0 {
                            assert(s.remove(Some(p)).remove(q) =~= s2.remove(Some(p)));
                        } else {
                            assert(s.remove(Some(p)).insert(q, v) =~= s2.remove(Some(p)));
                        }
                        assert(s2.dom().contains(Some(p)) && s2[Some(p)] == u);
                        assert(apply_declaration(s.remove(Some(p)), q, v) == Ok::<Map<KeyView, Seq<char>>, ErrorView>(
                            s2.remove(Some(p)),
                        ));
                        lemma_declared_scope_inherited(attrs, i + 1, s2, p);
                    },
                }
            },
        }
    }
}

/// A binding that a tag inherits and does not redeclare is the same as one
/// that the tag declares after its own declarations: the tag's scope is the
/// same either way.
pub proof fn law_inherited_binding_is_kept(
    attrs: Seq<AttributeEventView>,
    inherited: Map<KeyView, Seq<char>>,
    p: Seq<char>,
)
    requires
        inherited.dom().contains(Some(p)),
        p != xml_word(),
        declaration_violation(Some(p), inherited[Some(p)]) is None,
        forall|x: int| 0 <= x < attrs.len() ==> #[trigger] declared_prefix(attrs[x].0) != Some(Some(p)),
    ensures
        element_scope(attrs.push(declaration_of(p, inherited[Some(p)])), inherited.remove(Some(p)))
            == element_scope(attrs, inherited),
        element_scope(attrs, inherited) matches Ok(s) ==> s.dom().contains(Some(p)) && s[Some(p)]
            == inherited[Some(p)],
{
    let s = inherited.insert(Some(xml_word()), XML_NAMESPACE@);
    assert(inherited.remove(Some(p)).insert(Some(xml_word()), XML_NAMESPACE@) =~= s.remove(Some(p)));
    lemma_declared_scope_inherited(attrs, 0, s, p);
    lemma_declared_scope_keeps(attrs, 0, s, p);
}

proof fn lemma_declared_scope_keeps(attrs: Seq<AttributeEventView>, i: int, s: Map<KeyView, Seq<char>>, p: Seq<char>)
    requires
        0 <= i <= attrs.len(),
        s.dom().contains(Some(p)),
        forall|x: int| i <= x < attrs.len() ==> #[trigger] declared_prefix(attrs[x].0) != Some(Some(p)),
    ensures
        declared_scope(attrs, i, s) matches Ok(t) ==> t.dom().contains(Some(p)) && t[Some(p)] == s[Some(p)],
    decreases attrs.len() - i,
{
    if i < attrs.len() {
        match declared_prefix(attrs[i].0) {
            None => lemma_declared_scope_keeps(attrs, i + 1, s, p),
            Some(q) => match apply_declaration(s, q, attrs[i].1) {
                Err(_) => {},
                Ok(s2) => {
                    assert(q != Some(p));
                    lemma_declared_scope_keeps(attrs, i + 1, s2, p);
                },
            },
        }
    }
}

} // verus!
