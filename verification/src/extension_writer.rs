//! Writing extensions as XML events.
//!
//! Each start tag gets its own set of synthesized namespace declarations: a
//! name keeps its preferred prefix when that prefix is usable, reuses a prefix
//! already bound to its URI, or gets a fresh `ns{index}` prefix. A prefix used
//! once on a start tag is never rebound on the same tag.

use vstd::prelude::*;
use vstd::string::*;

use crate::chars::{
    concat_str, copy_string, decimal, is_ncname, is_writable_prefix, lemma_decimal_injective,
    push_decimal, seq_lt, str_eq, valid_ncname, valid_prefix,
};
use crate::error::{invalid_extension, NamespaceError, NamespaceErrorView, XmlError, ErrorView};
use crate::extension::{
    lemma_content_view, same_expanded_name, AttributeView, ContentView, ExpandedName, Extension,
    ExtensionContent, ExtensionView, NameView, attribute_views, content_views,
};
use crate::namespace::{xmlns_word, XMLNS_NAMESPACE, XML_NAMESPACE};
use crate::scope::{
    key_lt, lemma_map_of_sorted, map_of, sorted, sorted_entries, KeyView, NamespaceScope,
};
use crate::xml::{
    attributes_view, events_view, AttributeEventView, EventView, XmlAttribute, XmlEvent,
};

verus! {

// ---------------------------------------------------------------------------
// Specification
// ---------------------------------------------------------------------------

/// Why a name cannot be written, if it cannot.
///
/// Local names must be NCNames, namespace URIs cannot be empty or the reserved
/// `xmlns` URI, and an unqualified `xmlns` attribute cannot masquerade as a
/// declaration.
pub open spec fn name_violation(n: NameView, attribute: bool) -> Option<NamespaceErrorView> {
    if !is_ncname(n.local_name) {
        Some(NamespaceErrorView::InvalidNcName)
    } else if n.namespace_uri == Some(Seq::<char>::empty()) {
        Some(NamespaceErrorView::EmptyNamespaceUri)
    } else if n.namespace_uri == Some(XMLNS_NAMESPACE@) {
        Some(NamespaceErrorView::ReservedXmlnsUri)
    } else if attribute && n.namespace_uri is None && n.local_name == xmlns_word() {
        Some(NamespaceErrorView::DeclarationAttributeName)
    } else {
        None
    }
}

/// The namespace state of one start tag while its names are written.
pub struct TagState {
    /// The bindings in scope, including those declared on this tag so far.
    pub scope: Map<KeyView, Seq<char>>,
    /// The declarations to emit on this tag.
    pub declarations: Map<KeyView, Seq<char>>,
    /// The prefixes used on this tag, with the URI each was used for.
    pub used: Map<KeyView, Seq<char>>,
}

/// A prefix may be used for `uri` on this tag: it is unused, or used for `uri`.
pub open spec fn reusable(used: Map<KeyView, Seq<char>>, p: Seq<char>, uri: Seq<char>) -> bool {
    !used.dom().contains(Some(p)) || used[Some(p)] == uri
}

/// A prefix in scope, bound to `uri`, and usable for it on this tag.
pub open spec fn scope_candidate(
    scope: Map<KeyView, Seq<char>>,
    used: Map<KeyView, Seq<char>>,
    uri: Seq<char>,
    p: Seq<char>,
) -> bool {
    scope.dom().contains(Some(p)) && scope[Some(p)] == uri && reusable(used, p, uri)
}

/// The least candidate prefix in scope (in code point order), if any.
pub open spec fn least_scope_candidate(
    scope: Map<KeyView, Seq<char>>,
    used: Map<KeyView, Seq<char>>,
    uri: Seq<char>,
) -> Option<Seq<char>> {
    if exists|p: Seq<char>| scope_candidate(scope, used, uri, p) {
        Some(
            choose|p: Seq<char>|
                scope_candidate(scope, used, uri, p) && forall|q: Seq<char>|
                    scope_candidate(scope, used, uri, q) ==> q == p || seq_lt(p, q),
        )
    } else {
        None
    }
}

/// The `i`-th generated prefix, `ns{i}`.
pub open spec fn generated_prefix(i: nat) -> Seq<char> {
    seq!['n', 's'] + decimal(i)
}

/// A prefix neither in scope nor used on this tag.
pub open spec fn prefix_free(
    scope: Map<KeyView, Seq<char>>,
    used: Map<KeyView, Seq<char>>,
    p: Seq<char>,
) -> bool {
    !scope.dom().contains(Some(p)) && !used.dom().contains(Some(p))
}

/// The least index whose generated prefix is free.
pub open spec fn least_free_index(scope: Map<KeyView, Seq<char>>, used: Map<KeyView, Seq<char>>) -> nat {
    choose|i: nat|
        prefix_free(scope, used, generated_prefix(i)) && forall|j: nat|
            j < i ==> !prefix_free(scope, used, #[trigger] generated_prefix(j))
}

/// The prefix chosen for a namespaced name: the preferred prefix when it is a
/// writable prefix not used on this tag for another URI; else the least prefix
/// in scope bound to the URI and usable; else the first free generated prefix.
pub open spec fn chosen_prefix(n: NameView, st: TagState, uri: Seq<char>) -> Seq<char> {
    if n.preferred_prefix is Some && is_writable_prefix(n.preferred_prefix->0) && reusable(
        st.used,
        n.preferred_prefix->0,
        uri,
    ) {
        n.preferred_prefix->0
    } else if least_scope_candidate(st.scope, st.used, uri) is Some {
        least_scope_candidate(st.scope, st.used, uri)->0
    } else {
        generated_prefix(least_free_index(st.scope, st.used))
    }
}

/// The serialized name of `n` on a start tag in state `st`, and the state after it.
///
/// Element names may use or clear the default namespace; attributes must use a
/// prefix when namespaced. Names in the XML namespace use the `xml` prefix.
pub open spec fn spec_serialized_name(n: NameView, attribute: bool, st: TagState) -> Result<
    (Seq<char>, TagState),
    NamespaceErrorView,
> {
    if name_violation(n, attribute) is Some {
        Err(name_violation(n, attribute)->0)
    } else {
        match n.namespace_uri {
            None => {
                if !attribute && st.scope.dom().contains(None) {
                    Ok(
                        (
                            n.local_name,
                            TagState {
                                scope: st.scope.remove(None),
                                declarations: st.declarations.insert(None, Seq::empty()),
                                used: st.used,
                            },
                        ),
                    )
                } else {
                    Ok((n.local_name, st))
                }
            },
            Some(uri) => {
                if uri == XML_NAMESPACE@ {
                    Ok((seq!['x', 'm', 'l', ':'] + n.local_name, st))
                } else {
                    let p = chosen_prefix(n, st, uri);
                    let used = st.used.insert(Some(p), uri);
                    let st2 = if st.scope.dom().contains(Some(p)) && st.scope[Some(p)] == uri {
                        TagState { scope: st.scope, declarations: st.declarations, used }
                    } else {
                        TagState {
                            scope: st.scope.insert(Some(p), uri),
                            declarations: st.declarations.insert(Some(p), uri),
                            used,
                        }
                    };
                    Ok((p + seq![':'] + n.local_name, st2))
                }
            },
        }
    }
}

/// Writes the attributes `attrs[i..]` onto a start tag; an expanded attribute
/// name met twice is an error.
pub open spec fn write_attributes(
    attrs: Seq<AttributeView>,
    i: int,
    st: TagState,
    acc: Seq<AttributeEventView>,
) -> Result<(Seq<AttributeEventView>, TagState), NamespaceErrorView>
    decreases attrs.len() - i,
{
    if i < 0 || i >= attrs.len() {
        Ok((acc, st))
    } else if exists|k: int| 0 <= k < i && same_expanded_name(attrs[k].name, attrs[i].name) {
        Err(NamespaceErrorView::DuplicateAttribute)
    } else {
        match spec_serialized_name(attrs[i].name, true, st) {
            Err(e) => Err(e),
            Ok((name, st2)) => write_attributes(attrs, i + 1, st2, acc.push((name, attrs[i].value))),
        }
    }
}

/// The declaration attribute for one binding.
pub open spec fn declaration_attribute(e: (KeyView, Seq<char>)) -> AttributeEventView {
    match e.0 {
        Some(p) => (xmlns_word() + seq![':'] + p, e.1),
        None => (xmlns_word(), e.1),
    }
}

/// The declaration attributes of a start tag, in key order.
pub open spec fn declaration_attributes(d: Map<KeyView, Seq<char>>) -> Seq<AttributeEventView> {
    sorted_entries(d).map_values(|e: (KeyView, Seq<char>)| declaration_attribute(e))
}

/// The start tag of an extension in an inherited scope: its name, its
/// attributes (its own, then the synthesized declarations), and the scope its
/// content is written in.
pub open spec fn start_tag(e: ExtensionView, inherited: Map<KeyView, Seq<char>>) -> Result<
    (Seq<char>, Seq<AttributeEventView>, Map<KeyView, Seq<char>>),
    NamespaceErrorView,
> {
    let st0 = TagState { scope: inherited, declarations: Map::empty(), used: Map::empty() };
    match spec_serialized_name(e.name, false, st0) {
        Err(x) => Err(x),
        Ok((name, st1)) => match write_attributes(e.attributes, 0, st1, seq![]) {
            Err(x) => Err(x),
            Ok((attrs, st2)) => Ok(
                (name, attrs + declaration_attributes(st2.declarations), st2.scope),
            ),
        },
    }
}

/// The events of an extension written in an inherited scope.
pub open spec fn write_extension(e: ExtensionView, inherited: Map<KeyView, Seq<char>>) -> Result<
    Seq<EventView>,
    NamespaceErrorView,
>
    decreases e,
{
    match start_tag(e, inherited) {
        Err(x) => Err(x),
        Ok((name, attrs, scope)) => match write_content(e.content, scope) {
            Err(x) => Err(x),
            Ok(body) => Ok(
                seq![EventView::Start { name, attributes: attrs }] + body + seq![
                    EventView::End { name },
                ],
            ),
        },
    }
}

/// The events of mixed content written in a scope.
pub open spec fn write_content(c: Seq<ContentView>, scope: Map<KeyView, Seq<char>>) -> Result<
    Seq<EventView>,
    NamespaceErrorView,
>
    decreases c,
{
    if c.len() == 0 {
        Ok(seq![])
    } else {
        let first = match c[0] {
            ContentView::Text(t) => Ok(seq![EventView::Text(t)]),
            ContentView::Element(x) => write_extension(x, scope),
        };
        match first {
            Err(x) => Err(x),
            Ok(f) => {
                proof {
                    assert(c.drop_first() == c.subrange(1, c.len() as int));
                }
                match write_content(c.drop_first(), scope) {
                    Err(x) => Err(x),
                    Ok(rest) => Ok(f + rest),
                }
            },
        }
    }
}

// ---------------------------------------------------------------------------
// Choosing names
// ---------------------------------------------------------------------------

/// Rejects names that cannot be represented by this namespace-aware writer.
pub fn validate_serialized_name(name: &ExpandedName, attribute: bool) -> (r: Result<(), XmlError>)
    ensures
        match name_violation(name@, attribute) {
            None => r is Ok,
            Some(v) => r matches Err(e) && e@ == ErrorView::Namespace(v),
        },
{
    if !valid_ncname(name.local_name.as_str()) {
        return Err(invalid_extension(NamespaceError::InvalidNcName));
    }
    match &name.namespace_uri {
        Some(uri) => {
            if uri.as_str().unicode_len() == 0 {
                assert(uri@ =~= Seq::<char>::empty());
                return Err(invalid_extension(NamespaceError::EmptyNamespaceUri));
            }
            if str_eq(uri.as_str(), XMLNS_NAMESPACE) {
                return Err(invalid_extension(NamespaceError::ReservedXmlnsUri));
            }
        },
        None => {
            proof {
                reveal_strlit("xmlns");
                assert("xmlns"@ =~= xmlns_word());
            }
            if attribute && str_eq(name.local_name.as_str(), "xmlns") {
                return Err(invalid_extension(NamespaceError::DeclarationAttributeName));
            }
        },
    }
    Ok(())
}

/// Whether `prefix` may be used for `uri` on this tag.
fn prefix_reusable(used: &NamespaceScope, prefix: &String, uri: &String) -> (r: bool)
    ensures
        r == reusable(used@, prefix@, uri@),
{
    let key = Some(copy_string(prefix));
    match used.get(&key) {
        None => true,
        Some(u) => str_eq(u.as_str(), uri.as_str()),
    }
}

/// The least prefix in scope bound to `uri` and usable for it on this tag.
fn first_scope_prefix(scope: &NamespaceScope, used: &NamespaceScope, uri: &String) -> (r: Option<
    String,
>)
    ensures
        r.deep_view() == least_scope_candidate(scope@, used@, uri@),
{
    let n = scope.len();
    let ghost es = sorted_entries(scope@);
    proof {
        lemma_map_of_sorted(es);
    }
    let mut i: usize = 0;
    while i < n
        invariant
            i <= n,
            n == es.len(),
            n == scope@.dom().len(),
            es == sorted_entries(scope@),
            sorted(es),
            map_of(es) == scope@,
            forall|k: int|
                0 <= k < i ==> !(#[trigger] es[k].0 is Some && scope_candidate(
                    scope@,
                    used@,
                    uri@,
                    es[k].0->0,
                )),
        decreases n - i,
    {
        let b = scope.binding_at(i);
        proof {
            lemma_map_of_sorted(es);
        }
        match &b.prefix {
            Some(p) => {
                if str_eq(b.uri.as_str(), uri.as_str()) && prefix_reusable(used, p, uri) {
                    proof {
                        let pv = p@;
                        assert(es[i as int].0 == Some(pv));
                        assert(scope@[Some(pv)] == es[i as int].1);
                        assert(scope_candidate(scope@, used@, uri@, pv));
                        assert forall|q: Seq<char>| scope_candidate(scope@, used@, uri@, q) implies q
                            == pv || seq_lt(pv, q) by {
                            assert(map_of(es).dom().contains(Some(q)));
                            let m = choose|m: int| 0 <= m < es.len() && es[m].0 == Some(q);
                            if m < i {
                                assert(es[m].0 is Some);
                            } else if m > i {
                                assert(key_lt(es[i as int].0, es[m].0));
                            }
                        }
                        let c = choose|c: Seq<char>|
                            scope_candidate(scope@, used@, uri@, c) && forall|q: Seq<char>|
                                scope_candidate(scope@, used@, uri@, q) ==> q == c || seq_lt(c, q);
                        if c != pv {
                            crate::chars::lemma_seq_lt_total(c, pv);
                        }
                    }
                    return Some(copy_string(p));
                }
            },
            None => {},
        }
        i = i + 1;
    }
    proof {
        assert forall|q: Seq<char>| !scope_candidate(scope@, used@, uri@, q) by {
            if scope_candidate(scope@, used@, uri@, q) {
                assert(map_of(es).dom().contains(Some(q)));
                let m = choose|m: int| 0 <= m < es.len() && es[m].0 == Some(q);
                assert(es[m].0 is Some);
            }
        }
    }
    None
}

/// Among `ns0`, `ns1`, ... one of the first `|scope| + |used| + 1` is free.
pub proof fn lemma_free_index_exists(scope: Map<KeyView, Seq<char>>, used: Map<KeyView, Seq<char>>)
    requires
        scope.dom().finite(),
        used.dom().finite(),
    ensures
        exists|i: nat|
            i <= scope.dom().len() + used.dom().len() && prefix_free(
                scope,
                used,
                generated_prefix(i),
            ),
{
    let n = scope.dom().len() + used.dom().len();
    if !exists|i: nat| i <= n && prefix_free(scope, used, generated_prefix(i)) {
        let f = |i: int| -> KeyView { Some(generated_prefix(i as nat)) };
        let x = vstd::set_lib::set_int_range(0, (n + 1) as int);
        vstd::set_lib::lemma_int_range(0, (n + 1) as int);
        let y = x.map(f);
        assert(vstd::relations::injective_on(f, x)) by {
            assert forall|a: int, b: int|
                x.contains(a) && x.contains(b) && #[trigger] f(a) == #[trigger] f(b) implies a
                == b by {
                let ga = generated_prefix(a as nat);
                let gb = generated_prefix(b as nat);
                assert(ga.skip(2) =~= decimal(a as nat));
                assert(gb.skip(2) =~= decimal(b as nat));
                lemma_decimal_injective(a as nat, b as nat);
            }
        }
        vstd::set_lib::lemma_map_size(x, y, f);
        let u = scope.dom().union(used.dom());
        vstd::set_lib::lemma_len_union(scope.dom(), used.dom());
        assert(y.subset_of(u)) by {
            assert forall|k: KeyView| y.contains(k) implies u.contains(k) by {
                let i = choose|i: int| x.contains(i) && f(i) == k;
                assert(!prefix_free(scope, used, generated_prefix(i as nat)));
            }
        }
        vstd::set_lib::lemma_len_subset(y, u);
    }
}

proof fn lemma_least_free_exists(scope: Map<KeyView, Seq<char>>, used: Map<KeyView, Seq<char>>, i: nat)
    requires
        prefix_free(scope, used, generated_prefix(i)),
    ensures
        exists|m: nat|
            prefix_free(scope, used, generated_prefix(m)) && forall|j: nat|
                j < m ==> !prefix_free(scope, used, #[trigger] generated_prefix(j)),
    decreases i,
{
    if exists|j: nat| j < i && prefix_free(scope, used, generated_prefix(j)) {
        let j = choose|j: nat| j < i && prefix_free(scope, used, generated_prefix(j));
        lemma_least_free_exists(scope, used, j);
    } else {
        assert(forall|j: nat| j < i ==> !prefix_free(scope, used, #[trigger] generated_prefix(j)));
    }
}

/// The generated prefix of a tag is the first of `ns0`, `ns1`, ... that is
/// neither in scope nor used on the tag: it is free, and every one before it
/// is taken.
pub proof fn law_least_free_index(scope: Map<KeyView, Seq<char>>, used: Map<KeyView, Seq<char>>)
    requires
        scope.dom().finite(),
        used.dom().finite(),
    ensures
        prefix_free(scope, used, generated_prefix(least_free_index(scope, used))),
        forall|j: nat|
            j < least_free_index(scope, used) ==> !prefix_free(scope, used, #[trigger] generated_prefix(j)),
{
    lemma_free_index_exists(scope, used);
    let i = choose|i: nat|
        i <= scope.dom().len() + used.dom().len() && prefix_free(scope, used, generated_prefix(i));
    lemma_least_free_exists(scope, used, i);
}

/// Finds the first generated prefix unused by both the inherited scope and this tag.
fn next_prefix(scope: &NamespaceScope, used: &NamespaceScope) -> (r: String)
    ensures
        r@ == generated_prefix(least_free_index(scope@, used@)),
        prefix_free(scope@, used@, r@),
{
    let ls = scope.len();
    let lu = used.len();
    proof {
        lemma_free_index_exists(scope@, used@);
    }
    let ghost w = choose|i: nat|
        i <= scope@.dom().len() + used@.dom().len() && prefix_free(
            scope@,
            used@,
            generated_prefix(i),
        );
    let mut i: u128 = 0;
    loop
        invariant
            i <= w,
            w <= ls + lu,
            ls <= usize::MAX,
            lu <= usize::MAX,
            prefix_free(scope@, used@, generated_prefix(w)),
            forall|j: nat| j < i ==> !prefix_free(scope@, used@, #[trigger] generated_prefix(j)),
        decreases w - i,
    {
        let mut p = String::new();
        proof {
            reveal_strlit("ns");
        }
        p.append("ns");
        push_decimal(&mut p, i);
        assert(p@ =~= generated_prefix(i as nat));
        let key = Some(copy_string(&p));
        if !scope.contains_key(&key) && !used.contains_key(&key) {
            proof {
                let c = least_free_index(scope@, used@);
                assert(prefix_free(scope@, used@, generated_prefix(i as nat)));
                if c != i {
                    if c < i {
                        assert(!prefix_free(scope@, used@, generated_prefix(c)));
                    } else {
                        assert(!prefix_free(scope@, used@, generated_prefix(i as nat)));
                    }
                }
            }
            return p;
        }
        assert(i != w);
        i = i + 1;
    }
}

/// Chooses a legal serialized XML name for `name` in this start tag's namespace scope.
///
/// `declarations` records bindings to emit on this tag, while `used_prefixes`
/// prevents a prefix already assigned on the tag from being rebound to a
/// different URI.
pub fn serialized_name(
    name: &ExpandedName,
    attribute: bool,
    scope: &mut NamespaceScope,
    declarations: &mut NamespaceScope,
    used_prefixes: &mut NamespaceScope,
) -> (r: Result<String, XmlError>)
    ensures
        match spec_serialized_name(
            name@,
            attribute,
            TagState {
                scope: old(scope)@,
                declarations: old(declarations)@,
                used: old(used_prefixes)@,
            },
        ) {
            Ok((s, st)) => r matches Ok(x) && x@ == s && final(scope)@ == st.scope
                && final(declarations)@ == st.declarations && final(used_prefixes)@ == st.used,
            Err(v) => r matches Err(e) && e@ == ErrorView::Namespace(v) && final(scope)@ == old(scope)@
                && final(declarations)@ == old(declarations)@ && final(used_prefixes)@ == old(used_prefixes)@,
        },
{
    match validate_serialized_name(name, attribute) {
        Err(e) => {
            return Err(e);
        },
        Ok(()) => {},
    }
    match &name.namespace_uri {
        None => {
            if !attribute && scope.contains_key(&None) {
                scope.remove(&None);
                declarations.insert(None, String::new());
            }
            Ok(copy_string(&name.local_name))
        },
        Some(uri) => {
            if str_eq(uri.as_str(), XML_NAMESPACE) {
                proof {
                    reveal_strlit("xml:");
                }
                return Ok(concat_str("xml:", name.local_name.as_str()));
            }
            let ghost st = TagState {
                scope: scope@,
                declarations: declarations@,
                used: used_prefixes@,
            };
            let preferred: Option<String> = match &name.preferred_prefix {
                Some(p) => {
                    if valid_prefix(p.as_str()) && prefix_reusable(used_prefixes, p, uri) {
                        Some(copy_string(p))
                    } else {
                        None
                    }
                },
                None => None,
            };
            let prefix = match preferred {
                Some(p) => p,
                None => match first_scope_prefix(scope, used_prefixes, uri) {
                    Some(p) => p,
                    None => next_prefix(scope, used_prefixes),
                },
            };
            assert(prefix@ == chosen_prefix(name@, st, uri@));
            used_prefixes.insert(Some(copy_string(&prefix)), copy_string(uri));
            let bound_here = match scope.get(&Some(copy_string(&prefix))) {
                Some(u) => str_eq(u.as_str(), uri.as_str()),
                None => false,
            };
            if !bound_here {
                scope.insert(Some(copy_string(&prefix)), copy_string(uri));
                declarations.insert(Some(copy_string(&prefix)), copy_string(uri));
            }
            proof {
                reveal_strlit(":");
            }
            let mut s = copy_string(&prefix);
            s.append(":");
            s.append(name.local_name.as_str());
            Ok(s)
        },
    }
}

// ---------------------------------------------------------------------------
// Writing extension trees
// ---------------------------------------------------------------------------

/// Whether an attribute before `i` has the same expanded name as attribute `i`.
fn has_earlier_duplicate(attributes: &Vec<crate::extension::ExtensionAttribute>, i: usize) -> (r:
    bool)
    requires
        i < attributes@.len(),
    ensures
        r == exists|k: int|
            0 <= k < i && same_expanded_name(
                attribute_views(attributes@)[k].name,
                attribute_views(attributes@)[i as int].name,
            ),
{
    let ghost av = attribute_views(attributes@);
    let mut k: usize = 0;
    while k < i
        invariant
            k <= i,
            i < attributes@.len(),
            av == attribute_views(attributes@),
            forall|x: int| 0 <= x < k ==> !same_expanded_name(#[trigger] av[x].name, av[i as int].name),
        decreases i - k,
    {
        if crate::extension::names_equal(&attributes[k].name, &attributes[i].name) {
            assert(av[k as int].name == attributes@[k as int].name@);
            return true;
        }
        k = k + 1;
    }
    false
}

/// The declaration attributes of a start tag, in key order.
fn declaration_events(declarations: &NamespaceScope) -> (r: Vec<XmlAttribute>)
    ensures
        attributes_view(r@) == declaration_attributes(declarations@),
{
    let n = declarations.len();
    let ghost es = sorted_entries(declarations@);
    let mut out: Vec<XmlAttribute> = Vec::new();
    let mut k: usize = 0;
    proof {
        reveal_strlit("xmlns");
        reveal_strlit("xmlns:");
        assert("xmlns"@ =~= xmlns_word());
        assert("xmlns:"@ =~= xmlns_word() + seq![':']);
    }
    while k < n
        invariant
            k <= n,
            n == es.len(),
            n == declarations@.dom().len(),
            es == sorted_entries(declarations@),
            "xmlns"@ == xmlns_word(),
            "xmlns:"@ == xmlns_word() + seq![':'],
            attributes_view(out@) == es.take(k as int).map_values(
                |e: (KeyView, Seq<char>)| declaration_attribute(e),
            ),
        decreases n - k,
    {
        let b = declarations.binding_at(k);
        let key = match &b.prefix {
            Some(p) => concat_str("xmlns:", p.as_str()),
            None => String::from_str("xmlns"),
        };
        assert(declaration_attribute(es[k as int]) == (key@, b.uri@));
        let ghost prev = attributes_view(out@);
        let attribute = XmlAttribute { key, value: copy_string(&b.uri) };
        assert(attribute@ == declaration_attribute(es[k as int]));
        out.push(attribute);
        assert(attributes_view(out@) =~= prev.push(declaration_attribute(es[k as int])));
        assert(attributes_view(out@) =~= es.take(k + 1).map_values(
            |e: (KeyView, Seq<char>)| declaration_attribute(e),
        ));
        k = k + 1;
    }
    assert(es.take(n as int) =~= es);
    out
}

/// The events of content after an already produced prefix: the prefix, then the rest's.
pub open spec fn after(produced: Seq<EventView>, rest: Result<Seq<EventView>, NamespaceErrorView>) -> Result<
    Seq<EventView>,
    NamespaceErrorView,
> {
    match rest {
        Ok(r) => Ok(produced + r),
        Err(e) => Err(e),
    }
}

proof fn lemma_write_content_step(
    c: Seq<ContentView>,
    k: int,
    scope: Map<KeyView, Seq<char>>,
    produced: Seq<EventView>,
    first: Seq<EventView>,
)
    requires
        0 <= k < c.len(),
        match c[k] {
            ContentView::Text(t) => first == seq![EventView::Text(t)],
            ContentView::Element(x) => write_extension(x, scope) == Ok::<
                Seq<EventView>,
                NamespaceErrorView,
            >(first),
        },
    ensures
        after(produced, write_content(c.skip(k), scope)) == after(
            produced + first,
            write_content(c.skip(k + 1), scope),
        ),
{
    let s = c.skip(k);
    assert(s[0] == c[k]);
    assert(s.drop_first() =~= c.skip(k + 1));
    match write_content(c.skip(k + 1), scope) {
        Ok(r) => {
            assert(produced + (first + r) =~= (produced + first) + r);
        },
        Err(_) => {},
    }
}

impl Extension {
    /// Writes this extension as events, using bindings inherited from its parent element.
    ///
    /// The inherited scope is copied before this element's declarations are
    /// applied, so bindings synthesized here remain visible to descendants but
    /// cannot escape into siblings. Invalid names and duplicate expanded
    /// attribute names are errors.
    pub fn to_xml_with_scope(&self, writer: &mut Vec<XmlEvent>, inherited: &NamespaceScope) -> (r:
        Result<(), XmlError>)
        ensures
            match write_extension(self@, inherited@) {
                Ok(evs) => r is Ok && events_view(final(writer)@) == events_view(old(writer)@)
                    + evs,
                Err(v) => r matches Err(e) && e@ == ErrorView::Namespace(v) && events_view(
                    old(writer)@,
                ).is_prefix_of(events_view(final(writer)@)) && (start_tag(self@, inherited@) is Err
                    ==> events_view(final(writer)@) == events_view(old(writer)@)),
            },
        decreases self,
    {
        let ghost w0 = events_view(writer@);
        let mut scope = inherited.clone_scope();
        let mut declarations = NamespaceScope::new();
        let mut used_prefixes = NamespaceScope::new();
        let ghost st0 = TagState {
            scope: inherited@,
            declarations: Map::empty(),
            used: Map::empty(),
        };
        let element_name = match serialized_name(
            &self.name,
            false,
            &mut scope,
            &mut declarations,
            &mut used_prefixes,
        ) {
            Ok(n) => n,
            Err(e) => {
                return Err(e);
            },
        };
        let ghost st1 = TagState {
            scope: scope@,
            declarations: declarations@,
            used: used_prefixes@,
        };
        assert(self@.name == self.name@);
        assert(spec_serialized_name(self@.name, false, st0) == Ok::<
            (Seq<char>, TagState),
            NamespaceErrorView,
        >((element_name@, st1)));
        let ghost av = self@.attributes;
        let mut attributes: Vec<XmlAttribute> = Vec::new();
        assert(attributes_view(attributes@) =~= Seq::<AttributeEventView>::empty());
        let n = self.attributes.len();
        let mut i: usize = 0;
        while i < n
            invariant
                i <= n,
                n == self.attributes@.len(),
                av == self@.attributes,
                av == attribute_views(self.attributes@),
                st0 == (TagState { scope: inherited@, declarations: Map::empty(), used: Map::empty() }),
                spec_serialized_name(self@.name, false, st0) == Ok::<
                    (Seq<char>, TagState),
                    NamespaceErrorView,
                >((element_name@, st1)),
                write_attributes(av, 0, st1, seq![]) == write_attributes(
                    av,
                    i as int,
                    TagState { scope: scope@, declarations: declarations@, used: used_prefixes@ },
                    attributes_view(attributes@),
                ),
            decreases n - i,
        {
            if has_earlier_duplicate(&self.attributes, i) {
                proof {
                    assert(write_attributes(
                        av,
                        i as int,
                        TagState { scope: scope@, declarations: declarations@, used: used_prefixes@ },
                        attributes_view(attributes@),
                    ) == Err::<(Seq<AttributeEventView>, TagState), NamespaceErrorView>(
                        NamespaceErrorView::DuplicateAttribute,
                    ));
                    assert(start_tag(self@, inherited@) is Err);
                }
                return Err(invalid_extension(NamespaceError::DuplicateAttribute));
            }
            let attribute = &self.attributes[i];
            assert(av[i as int] == attribute@);
            let key = match serialized_name(
                &attribute.name,
                true,
                &mut scope,
                &mut declarations,
                &mut used_prefixes,
            ) {
                Ok(k) => k,
                Err(e) => {
                    return Err(e);
                },
            };
            let ghost prev = attributes_view(attributes@);
            let ghost key_view = key@;
            attributes.push(XmlAttribute { key, value: copy_string(&attribute.value) });
            assert(attributes_view(attributes@) =~= prev.push((key_view, av[i as int].value)));
            i = i + 1;
        }
        let ghost own_attributes = attributes_view(attributes@);
        let decl_events = declaration_events(&declarations);
        let mut decl_events = decl_events;
        attributes.append(&mut decl_events);
        assert(attributes_view(attributes@) =~= own_attributes + declaration_attributes(
            declarations@,
        ));
        let ghost tag_name = element_name@;
        let ghost tag_attributes = attributes_view(attributes@);
        writer.push(XmlEvent::Start { name: copy_string(&element_name), attributes });
        let ghost scope_view = scope@;
        let ghost cv = self@.content;
        proof {
            lemma_content_view(*self);
            assert(start_tag(self@, inherited@) == Ok::<
                (Seq<char>, Seq<AttributeEventView>, Map<KeyView, Seq<char>>),
                NamespaceErrorView,
            >((tag_name, tag_attributes, scope_view)));
            assert(cv.skip(0) =~= cv);
        }
        let ghost start_event = seq![EventView::Start { name: tag_name, attributes: tag_attributes }];
        assert(events_view(writer@) =~= w0 + start_event);
        let m = self.content.len();
        let mut k: usize = 0;
        let ghost mut produced: Seq<EventView> = seq![];
        while k < m
            invariant
                k <= m,
                m == self.content@.len(),
                cv == self@.content,
                cv == content_views(self.content@),
                scope_view == scope@,
                start_tag(self@, inherited@) == Ok::<
                    (Seq<char>, Seq<AttributeEventView>, Map<KeyView, Seq<char>>),
                    NamespaceErrorView,
                >((tag_name, tag_attributes, scope_view)),
                start_event == seq![EventView::Start { name: tag_name, attributes: tag_attributes }],
                events_view(writer@) == w0 + start_event + produced,
                w0 == events_view(old(writer)@),
                write_content(cv, scope_view) == after(produced, write_content(cv.skip(k as int), scope_view)),
            decreases m - k,
        {
            let ghost before = events_view(writer@);
            assert(cv.skip(k as int)[0] == cv[k as int]);
            assert(cv.skip(k as int).drop_first() =~= cv.skip(k + 1));
            match &self.content[k] {
                ExtensionContent::Text(t) => {
                    proof {
                        lemma_write_content_step(cv, k as int, scope_view, produced, seq![EventView::Text(t@)]);
                    }
                    let ev = XmlEvent::Text(copy_string(t));
                    assert(ev@ == EventView::Text(t@));
                    writer.push(ev);
                    assert(events_view(writer@) =~= before.push(EventView::Text(t@)));
                    proof {
                        produced = produced + seq![EventView::Text(t@)];
                    }
                    assert(events_view(writer@) =~= w0 + start_event + produced);
                },
                ExtensionContent::Element(child) => {
                    assert(decreases_to!(self => self.content));
                    assert(decreases_to!(self.content => self.content@));
                    let ghost mid = events_view(writer@);
                    match child.to_xml_with_scope(writer, &scope) {
                        Ok(()) => {},
                        Err(e) => {
                            proof {
                                let fin = events_view(writer@);
                                assert(write_extension(child@, scope_view) is Err);
                                assert(mid.is_prefix_of(fin));
                                assert(w0.is_prefix_of(mid));
                                assert(fin.subrange(0, w0.len() as int) =~= mid.subrange(0, w0.len() as int));
                                assert(w0.is_prefix_of(fin));
                            }
                            return Err(e);
                        },
                    }
                    proof {
                        let evs = write_extension(child@, scope_view)->Ok_0;
                        lemma_write_content_step(cv, k as int, scope_view, produced, evs);
                        produced = produced + evs;
                    }
                    assert(events_view(writer@) =~= w0 + start_event + produced);
                },
            }

            k = k + 1;
        }
        let ghost before_end = events_view(writer@);
        let end = XmlEvent::End { name: element_name };
        assert(end@ == EventView::End { name: tag_name });
        writer.push(end);
        assert(events_view(writer@) =~= before_end.push(EventView::End { name: tag_name }));
        proof {
            assert(cv.skip(m as int) =~= Seq::<ContentView>::empty());
            assert(events_view(writer@) =~= w0 + (start_event + produced + seq![EventView::End { name: tag_name }]));
        }
        Ok(())
    }

    /// Writes this extension as events in an empty inherited scope.
    pub fn to_xml(&self, writer: &mut Vec<XmlEvent>) -> (r: Result<(), XmlError>)
        ensures
            match write_extension(self@, Map::empty()) {
                Ok(evs) => r is Ok && events_view(final(writer)@) == events_view(old(writer)@)
                    + evs,
                Err(v) => r matches Err(e) && e@ == ErrorView::Namespace(v),
            },
    {
        let scope = NamespaceScope::new();
        self.to_xml_with_scope(writer, &scope)
    }
}

} // verus!
