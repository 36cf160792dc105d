//! Reading back what the extension writer wrote.
//!
//! The central law of extensions: the events that [`write_extension`] makes
//! for an extension, read by [`parse_element`], give back an equivalent
//! extension. The prefixes and the placement of declarations may differ;
//! every expanded name, attribute and piece of mixed content survives.

use vstd::prelude::*;
use vstd::relations::{is_minimal, total_ordering};

use crate::chars::{
    decimal, digit_char, is_ascii_alnum, is_ncname, is_writable_prefix, seq_lt,
    lemma_ncname_has_no_colon, lemma_seq_lt_total,
    lemma_seq_lt_transitive,
};
use crate::extension::{
    equivalent, attribute_key, attribute_keys, same_expanded_name, AttributeView, ContentView,
    ExtensionView, NameView,
};
use crate::error::ErrorView;
use crate::equivalence::{
    key_form, lemma_equivalent_normal, lemma_fold_push, lemma_normal_append,
    lemma_normal_pushed_text, normal_content,
};
use crate::extension_writer::{
    write_content, write_extension, declaration_attribute, declaration_attributes, start_tag,
    chosen_prefix, generated_prefix, least_free_index, least_scope_candidate, prefix_free,
    reusable, scope_candidate, spec_serialized_name, write_attributes, TagState, name_violation,
};
use crate::toxml::atom_scope;
use crate::xml::{AttributeEventView, EventView};
use crate::namespace::{
    classify_extension, colon_position, declaration_violation, declared_prefix, declared_scope,
    element_scope, lemma_colon_position, lemma_namespace_literals, parse_attributes, parse_content,
    parse_element, pushed_text, resolve_name, split_name, xml_word, xmlns_colon, xmlns_word,
    ATOM_NAMESPACE, XMLNS_NAMESPACE, XML_NAMESPACE,
};
use crate::scope::{
    key_lt, lemma_key_lt_irreflexive, lemma_key_lt_total, lemma_key_lt_transitive,
    lemma_map_of_sorted, map_of, sorted, sorted_entries, EntryView, KeyView,
};

verus! {

// ---------------------------------------------------------------------------
// Finite maps have sorted entries; finite candidate sets have a least member
// ---------------------------------------------------------------------------

/// Keys ordered by `key_lt`, or equal.
pub open spec fn key_le(a: KeyView, b: KeyView) -> bool {
    a == b || key_lt(a, b)
}

proof fn lemma_key_le_total_ordering()
    ensures
        total_ordering(|a: KeyView, b: KeyView| key_le(a, b)),
{
    let r = |a: KeyView, b: KeyView| key_le(a, b);
    assert forall|x: KeyView, y: KeyView| #[trigger] r(x, y) && #[trigger] r(y, x) implies x == y by {
        lemma_key_lt_total(x, y);
    }
    assert forall|x: KeyView, y: KeyView, z: KeyView| #[trigger] r(x, y) && #[trigger] r(y, z) implies r(
        x,
        z,
    ) by {
        if x != y && y != z {
            lemma_key_lt_transitive(x, y, z);
        }
    }
    assert forall|x: KeyView, y: KeyView| #[trigger] r(x, y) || #[trigger] r(y, x) by {
        lemma_key_lt_total(x, y);
    }
}

/// Every finite map is denoted by its sorted entries.
pub proof fn lemma_sorted_entries_exist(m: Map<KeyView, Seq<char>>)
    requires
        m.dom().finite(),
    ensures
        sorted(sorted_entries(m)),
        map_of(sorted_entries(m)) == m,
    decreases m.dom().len(),
{
    if m.dom().len() == 0 {
        assert(m.dom() =~= Set::<KeyView>::empty());
        let s = Seq::<EntryView>::empty();
        assert(map_of(s) =~= m);
        assert(sorted(s));
    } else {
        let r = |a: KeyView, b: KeyView| key_le(a, b);
        lemma_key_le_total_ordering();
        m.dom().find_unique_minimal_ensures(r);
        let k0 = m.dom().find_unique_minimal(r);
        let rest = m.remove(k0);
        assert(rest.dom() =~= m.dom().remove(k0));
        lemma_sorted_entries_exist(rest);
        let t = sorted_entries(rest);
        lemma_map_of_sorted(t);
        let s = seq![(k0, m[k0])] + t;
        assert(s.drop_first() =~= t);
        assert forall|i: int, j: int| 0 <= i < j < s.len() implies key_lt(#[trigger] s[i].0, #[trigger] s[j].0) by {
            if i == 0 {
                let k = s[j].0;
                assert(s[j] == t[j - 1]);
                assert(map_of(t).dom().contains(k));
                assert(m.dom().contains(k) && k != k0);
                lemma_key_lt_total(k0, k);
                if key_lt(k, k0) {
                    assert(r(k, k0));
                    assert(r(k0, k));
                    lemma_key_lt_total(k, k0);
                }
            } else {
                assert(s[i] == t[i - 1]);
                assert(s[j] == t[j - 1]);
            }
        }
        assert(map_of(s) == map_of(t).insert(k0, m[k0]));
        assert(map_of(s) =~= m);
    }
}

/// A finite scope has a least candidate prefix when it has a candidate.
proof fn lemma_least_scope_candidate(
    scope: Map<KeyView, Seq<char>>,
    used: Map<KeyView, Seq<char>>,
    uri: Seq<char>,
)
    requires
        scope.dom().finite(),
    ensures
        least_scope_candidate(scope, used, uri) matches Some(p) ==> scope_candidate(scope, used, uri, p),
{
    if exists|p: Seq<char>| scope_candidate(scope, used, uri, p) {
        let c = Set::new(|p: Seq<char>| scope_candidate(scope, used, uri, p));
        let f = |k: KeyView| match k {
            Some(p) => p,
            None => Seq::<char>::empty(),
        };
        scope.dom().lemma_map_finite(f);
        assert(c.subset_of(scope.dom().map(f))) by {
            assert forall|p: Seq<char>| c.contains(p) implies scope.dom().map(f).contains(p) by {
                assert(scope.dom().contains(Some(p)) && f(Some(p)) == p);
            }
        }
        vstd::set_lib::lemma_set_subset_finite(scope.dom().map(f), c);
        let p0 = choose|p: Seq<char>| scope_candidate(scope, used, uri, p);
        assert(c.contains(p0));
        assert(c.len() > 0) by {
            if c.len() == 0 {
                vstd::set_lib::lemma_set_empty_equivalency_len(c);
                assert(c.contains(p0));
            }
        }
        let r = |a: Seq<char>, b: Seq<char>| a == b || seq_lt(a, b);
        assert(total_ordering(r)) by {
            assert forall|x: Seq<char>, y: Seq<char>| #[trigger] r(x, y) && #[trigger] r(y, x) implies x
                == y by {
                lemma_seq_lt_total(x, y);
            }
            assert forall|x: Seq<char>, y: Seq<char>, z: Seq<char>| #[trigger] r(x, y) && #[trigger] r(
                y,
                z,
            ) implies r(x, z) by {
                if x != y && y != z {
                    lemma_seq_lt_transitive(x, y, z);
                }
            }
            assert forall|x: Seq<char>, y: Seq<char>| #[trigger] r(x, y) || #[trigger] r(y, x) by {
                lemma_seq_lt_total(x, y);
            }
        }
        c.find_unique_minimal_ensures(r);
        let m = c.find_unique_minimal(r);
        assert(is_minimal(r, m, c));
        assert forall|q: Seq<char>| scope_candidate(scope, used, uri, q) implies q == m || seq_lt(m, q) by {
            assert(c.contains(q));
            lemma_seq_lt_total(m, q);
            if seq_lt(q, m) {
                assert(r(q, m));
                assert(r(m, q));
                lemma_seq_lt_total(q, m);
            }
        }
    }
}

/// Some index has the least free generated prefix.
proof fn lemma_least_free_from(scope: Map<KeyView, Seq<char>>, used: Map<KeyView, Seq<char>>, n: nat)
    requires
        prefix_free(scope, used, generated_prefix(n)),
    ensures
        exists|i: nat|
            prefix_free(scope, used, generated_prefix(i)) && forall|j: nat|
                j < i ==> !prefix_free(scope, used, #[trigger] generated_prefix(j)),
    decreases n,
{
    if exists|j: nat| j < n && prefix_free(scope, used, generated_prefix(j)) {
        let j = choose|j: nat| j < n && prefix_free(scope, used, generated_prefix(j));
        lemma_least_free_from(scope, used, j);
    } else {
        assert(forall|j: nat| j < n ==> !prefix_free(scope, used, #[trigger] generated_prefix(j)));
    }
}

/// The generated prefix that the writer picks is free.
proof fn lemma_least_free(scope: Map<KeyView, Seq<char>>, used: Map<KeyView, Seq<char>>)
    requires
        scope.dom().finite(),
        used.dom().finite(),
    ensures
        prefix_free(scope, used, generated_prefix(least_free_index(scope, used))),
{
    crate::extension_writer::lemma_free_index_exists(scope, used);
    let n = choose|i: nat|
        i <= scope.dom().len() + used.dom().len() && prefix_free(scope, used, generated_prefix(i));
    lemma_least_free_from(scope, used, n);
}

/// Generated prefixes are writable.
proof fn lemma_generated_prefix_writable(i: nat)
    ensures
        is_writable_prefix(generated_prefix(i)),
    decreases i,
{
    let g = generated_prefix(i);
    lemma_decimal_digits(i);
    assert forall|k: int| 1 <= k < g.len() implies {
        let c = #[trigger] g[k];
        is_ascii_alnum(c) || c == '_' || c == '-' || c == '.'
    } by {
        if k >= 2 {
            assert(g[k] == decimal(i)[k - 2]);
        }
    }
}

/// A prefix that a reader can have in scope: an NCName that does not begin
/// with `xml` in any case.
pub open spec fn readable_prefix(p: Seq<char>) -> bool {
    is_ncname(p) && !crate::chars::starts_with_xml_any_case(p)
}

/// Decimal spellings are made of digits.
proof fn lemma_decimal_digits(n: nat)
    ensures
        forall|k: int| 0 <= k < decimal(n).len() ==> '0' <= #[trigger] decimal(n)[k] <= '9',
    decreases n,
{
    if n >= 10 {
        lemma_decimal_digits(n / 10);
        assert forall|k: int| 0 <= k < decimal(n).len() implies '0' <= #[trigger] decimal(n)[k] <= '9' by {
            if k < decimal(n / 10).len() {
                assert(decimal(n)[k] == decimal(n / 10)[k]);
            } else {
                assert(decimal(n)[k] == digit_char(n % 10));
            }
        }
    } else {
        assert(decimal(n)[0] == digit_char(n));
    }
}

// ---------------------------------------------------------------------------
// The writer's tag state
// ---------------------------------------------------------------------------

/// A URI that a prefixed declaration may bind.
pub open spec fn bindable_uri(u: Seq<char>) -> bool {
    u.len() > 0 && u != XMLNS_NAMESPACE@ && u != XML_NAMESPACE@
}

/// A scope that the writer may start a tag in: finitely many bindings, each
/// prefix an NCName not beginning with `xml` in any case and bound to a URI
/// that a declaration may bind. Every scope that a reader builds from
/// declarations is such a scope with the `xml` binding added
/// ([`reader_scope`]).
pub open spec fn writer_scope_ok(w: Map<KeyView, Seq<char>>) -> bool {
    &&& w.dom().finite()
    &&& forall|k: KeyView|
        #[trigger] w.dom().contains(k) ==> (k matches Some(p) ==> readable_prefix(p) && bindable_uri(
            w[k],
        ))
}

/// The scope that a reader has where a writer has scope `w`: the same
/// bindings, with the `xml` prefix bound to the XML namespace.
pub open spec fn reader_scope(w: Map<KeyView, Seq<char>>) -> Map<KeyView, Seq<char>> {
    w.insert(Some(xml_word()), XML_NAMESPACE@)
}

/// The scope `w` after the declarations `d` (an empty URI undeclares).
pub open spec fn combine(w: Map<KeyView, Seq<char>>, d: Map<KeyView, Seq<char>>) -> Map<
    KeyView,
    Seq<char>,
> {
    Map::new(
        |k: KeyView|
            (d.dom().contains(k) && d[k].len() > 0) || (!d.dom().contains(k) && w.dom().contains(k)),
        |k: KeyView|
            if d.dom().contains(k) {
                d[k]
            } else {
                w[k]
            },
    )
}

/// Declarations the writer may make: `xmlns=""`, or a prefix that a reader
/// can have in scope bound to a bindable URI.
pub open spec fn declarations_ok(d: Map<KeyView, Seq<char>>) -> bool {
    &&& d.dom().finite()
    &&& forall|k: KeyView|
        #[trigger] d.dom().contains(k) ==> match k {
            Some(p) => readable_prefix(p) && bindable_uri(d[k]),
            None => d[k].len() == 0,
        }
}

/// `b` holds every binding of `a`.
pub open spec fn grows(a: Map<KeyView, Seq<char>>, b: Map<KeyView, Seq<char>>) -> bool {
    forall|k: KeyView| #[trigger] a.dom().contains(k) ==> b.dom().contains(k) && b[k] == a[k]
}

/// The invariant of a start tag being written in the inherited scope `w`.
pub open spec fn tag_ok(st: TagState, w: Map<KeyView, Seq<char>>) -> bool {
    &&& writer_scope_ok(w)
    &&& declarations_ok(st.declarations)
    &&& st.scope == combine(w, st.declarations)
    &&& st.used.dom().finite()
    &&& forall|k: KeyView|
        #[trigger] st.used.dom().contains(k) ==> k is Some && st.scope.dom().contains(k) && st.scope[k]
            == st.used[k]
}

/// How a name was written on a tag whose used prefixes include `used`.
pub open spec fn written_as(s: Seq<char>, n: NameView, attribute: bool, used: Map<KeyView, Seq<char>>) -> bool {
    &&& is_ncname(n.local_name)
    &&& !(attribute && n.namespace_uri is None && n.local_name == xmlns_word())
    &&& match n.namespace_uri {
        None => s == n.local_name,
        Some(u) => if u == XML_NAMESPACE@ {
            s == xml_word() + seq![':'] + n.local_name
        } else {
            exists|p: Seq<char>|
                #![trigger used[Some(p)]]
                readable_prefix(p) && used.dom().contains(Some(p)) && used[Some(p)] == u && s == p
                    + seq![':'] + n.local_name
        },
    }
}

proof fn lemma_combine_ok(w: Map<KeyView, Seq<char>>, d: Map<KeyView, Seq<char>>)
    requires
        writer_scope_ok(w),
        declarations_ok(d),
    ensures
        writer_scope_ok(combine(w, d)),
{
    let c = combine(w, d);
    assert(c.dom().subset_of(w.dom().union(d.dom())));
    vstd::set_lib::lemma_set_subset_finite(w.dom().union(d.dom()), c.dom());
}

proof fn lemma_written_as_grows(
    s: Seq<char>,
    n: NameView,
    attribute: bool,
    a: Map<KeyView, Seq<char>>,
    b: Map<KeyView, Seq<char>>,
)
    requires
        written_as(s, n, attribute, a),
        grows(a, b),
    ensures
        written_as(s, n, attribute, b),
{
    if n.namespace_uri is Some && n.namespace_uri->0 != XML_NAMESPACE@ {
        let u = n.namespace_uri->0;
        let p = choose|p: Seq<char>|
            #![trigger a[Some(p)]]
            readable_prefix(p) && a.dom().contains(Some(p)) && a[Some(p)] == u && s == p + seq![':']
                + n.local_name;
        assert(b[Some(p)] == u);
    }
}

/// The first tag state of an extension's start tag.
pub open spec fn first_state(w: Map<KeyView, Seq<char>>) -> TagState {
    TagState { scope: w, declarations: Map::empty(), used: Map::empty() }
}

proof fn lemma_first_state(w: Map<KeyView, Seq<char>>)
    requires
        writer_scope_ok(w),
    ensures
        tag_ok(first_state(w), w),
{
    assert(combine(w, Map::empty()) =~= w);
    assert(Map::<KeyView, Seq<char>>::empty().dom() =~= Set::empty());
}

/// What writing one name keeps and records.
pub open spec fn name_step_ok(
    n: NameView,
    attribute: bool,
    st: TagState,
    s: Seq<char>,
    st2: TagState,
    w: Map<KeyView, Seq<char>>,
) -> bool {
    &&& tag_ok(st2, w)
    &&& grows(st.used, st2.used)
    &&& written_as(s, n, attribute, st2.used)
    &&& (attribute || n.namespace_uri is Some) ==> (st2.scope.dom().contains(None)
        <==> st.scope.dom().contains(None))
    &&& (!attribute && n.namespace_uri is None) ==> !st2.scope.dom().contains(None)
}

/// Writing one name keeps the tag's invariant, keeps every used prefix, and
/// records how the name was written.
proof fn lemma_name_step(n: NameView, attribute: bool, st: TagState, w: Map<KeyView, Seq<char>>)
    requires
        tag_ok(st, w),
        spec_serialized_name(n, attribute, st) is Ok,
    ensures
        name_step_ok(n, attribute, st, spec_serialized_name(n, attribute, st)->Ok_0.0, spec_serialized_name(n, attribute, st)->Ok_0.1, w),
{
    let (s, st2) = spec_serialized_name(n, attribute, st)->Ok_0;
    lemma_combine_ok(w, st.declarations);
    assert(is_ncname(n.local_name));
    match n.namespace_uri {
        None => {
            assert(s == n.local_name);
            if !attribute && st.scope.dom().contains(None) {
                let d2 = st.declarations.insert(None, Seq::<char>::empty());
                assert(st2.scope =~= combine(w, d2));
                assert(d2.dom() =~= st.declarations.dom().insert(None));
                assert(declarations_ok(d2));
                assert(grows(st.used, st2.used));
                assert(tag_ok(st2, w));
            } else {
                assert(st2 == st);
            }
            assert(written_as(s, n, attribute, st2.used));
            assert(name_step_ok(n, attribute, st, s, st2, w));
        },
        Some(u) => {
            if u == XML_NAMESPACE@ {
                assert(st2 == st);
                assert(xml_word() + seq![':'] =~= seq!['x', 'm', 'l', ':']);
                assert(name_step_ok(n, attribute, st, s, st2, w));
            } else {
                reveal_strlit("http://www.w3.org/2000/xmlns/");
                let p = chosen_prefix(n, st, u);
                lemma_least_scope_candidate(st.scope, st.used, u);
                lemma_least_free(st.scope, st.used);
                lemma_generated_prefix_writable(least_free_index(st.scope, st.used));
                assert(readable_prefix(p) && reusable(st.used, p, u));
                let used2 = st.used.insert(Some(p), u);
                assert(used2.dom() =~= st.used.dom().insert(Some(p)));
                if u.len() == 0 {
                    assert(u =~= Seq::<char>::empty());
                }
                if !(st.scope.dom().contains(Some(p)) && st.scope[Some(p)] == u) {
                    let d2 = st.declarations.insert(Some(p), u);
                    assert(d2.dom() =~= st.declarations.dom().insert(Some(p)));
                    assert(st2.scope =~= combine(w, d2));
                }
                assert(used2[Some(p)] == u);
                assert(tag_ok(st2, w));
                assert(grows(st.used, st2.used));
                assert(written_as(s, n, attribute, st2.used));
                assert(name_step_ok(n, attribute, st, s, st2, w));
            }
        },
    }
}

/// What writing the attributes `attrs[i..]` after `acc` keeps and records.
pub open spec fn attributes_step_ok(
    attrs: Seq<AttributeView>,
    i: int,
    st: TagState,
    acc: Seq<AttributeEventView>,
    out: Seq<AttributeEventView>,
    stf: TagState,
    w: Map<KeyView, Seq<char>>,
) -> bool {
    &&& tag_ok(stf, w)
    &&& grows(st.used, stf.used)
    &&& (stf.scope.dom().contains(None) <==> st.scope.dom().contains(None))
    &&& out.len() == acc.len() + attrs.len() - i
    &&& forall|q: int| 0 <= q < acc.len() ==> #[trigger] out[q] == acc[q]
    &&& forall|k: int|
        i <= k < attrs.len() ==> (#[trigger] out[acc.len() + k - i]).1 == attrs[k].value && written_as(
            out[acc.len() + k - i].0,
            attrs[k].name,
            true,
            stf.used,
        )
    &&& forall|k: int, k2: int|
        i <= k < attrs.len() && 0 <= k2 < k ==> !same_expanded_name(
            #[trigger] attrs[k2].name,
            #[trigger] attrs[k].name,
        )
}

proof fn lemma_write_attributes(
    attrs: Seq<AttributeView>,
    i: int,
    st: TagState,
    acc: Seq<AttributeEventView>,
    w: Map<KeyView, Seq<char>>,
)
    requires
        tag_ok(st, w),
        0 <= i <= attrs.len(),
        write_attributes(attrs, i, st, acc) is Ok,
    ensures
        attributes_step_ok(
            attrs,
            i,
            st,
            acc,
            write_attributes(attrs, i, st, acc)->Ok_0.0,
            write_attributes(attrs, i, st, acc)->Ok_0.1,
            w,
        ),
    decreases attrs.len() - i,
{
    let (out, stf) = write_attributes(attrs, i, st, acc)->Ok_0;
    if i < attrs.len() {
        let (name, st2) = spec_serialized_name(attrs[i].name, true, st)->Ok_0;
        lemma_name_step(attrs[i].name, true, st, w);
        let acc2 = acc.push((name, attrs[i].value));
        lemma_write_attributes(attrs, i + 1, st2, acc2, w);
        assert(out[acc.len() as int] == acc2[acc.len() as int]);
        lemma_written_as_grows(name, attrs[i].name, true, st2.used, stf.used);
        assert forall|k: int| i <= k < attrs.len() implies (#[trigger] out[acc.len() + k - i]).1
            == attrs[k].value && written_as(out[acc.len() + k - i].0, attrs[k].name, true, stf.used) by {
            if k > i {
                assert(acc2.len() + k - (i + 1) == acc.len() + k - i);
            }
        }
        assert forall|q: int| 0 <= q < acc.len() implies #[trigger] out[q] == acc[q] by {
            assert(out[q] == acc2[q]);
        }
        assert forall|k: int, k2: int|
            i <= k < attrs.len() && 0 <= k2 < k implies !same_expanded_name(
            #[trigger] attrs[k2].name,
            #[trigger] attrs[k].name,
        ) by {
            if k == i {
                assert(!exists|x: int| 0 <= x < i && same_expanded_name(attrs[x].name, attrs[i].name));
            }
        }
        assert(grows(st.used, stf.used));
    } else {
        assert(out == acc && stf == st);
    }
}

// ---------------------------------------------------------------------------
// Reading written names back
// ---------------------------------------------------------------------------

pub(crate) proof fn lemma_split_plain(l: Seq<char>)
    requires
        is_ncname(l),
    ensures
        split_name(l) == Some((None::<Seq<char>>, l)),
{
    lemma_ncname_has_no_colon(l);
    lemma_colon_position(l);
}

proof fn lemma_split_prefixed(p: Seq<char>, l: Seq<char>)
    requires
        is_ncname(p),
        is_ncname(l),
    ensures
        split_name(p + seq![':'] + l) == Some((Some(p), l)),
{
    let s = p + seq![':'] + l;
    lemma_ncname_has_no_colon(p);
    lemma_ncname_has_no_colon(l);
    lemma_colon_position(s);
    assert(s[p.len() as int] == ':');
    assert(s.contains(':'));
    let c = colon_position(s)->0;
    if c < p.len() {
        assert(s[c as int] == p[c as int]);
        assert(p.contains(':'));
    }
    assert(c == p.len());
    assert(s.take(c as int) =~= p);
    assert(s.skip((c + 1) as int) =~= l);
}

proof fn lemma_xml_word_ncname()
    ensures
        is_ncname(xml_word()),
        !readable_prefix(xml_word()),
        !readable_prefix(xmlns_word()),
        xml_word() != xmlns_word(),
{
    assert(xml_word().len() != xmlns_word().len());
}

/// A name written on a tag reads back, in the reader's scope for the tag's
/// final scope, as the same expanded name.
proof fn lemma_resolve_written(
    s: Seq<char>,
    n: NameView,
    attribute: bool,
    stf: TagState,
    w: Map<KeyView, Seq<char>>,
)
    requires
        tag_ok(stf, w),
        written_as(s, n, attribute, stf.used),
        !attribute && n.namespace_uri is None ==> !stf.scope.dom().contains(None),
    ensures
        resolve_name(s, reader_scope(stf.scope), attribute) matches Ok(m) && same_expanded_name(m, n) && (
        m.preferred_prefix is Some <==> n.namespace_uri is Some),
{
    let r = reader_scope(stf.scope);
    lemma_xml_word_ncname();
    match n.namespace_uri {
        None => {
            lemma_split_plain(n.local_name);
        },
        Some(u) => {
            if u == XML_NAMESPACE@ {
                lemma_split_prefixed(xml_word(), n.local_name);
            } else {
                let p = choose|p: Seq<char>|
                    #![trigger stf.used[Some(p)]]
                    readable_prefix(p) && stf.used.dom().contains(Some(p)) && stf.used[Some(p)] == u
                        && s == p + seq![':'] + n.local_name;
                lemma_split_prefixed(p, n.local_name);
                assert(p != xml_word());
                assert(p != xmlns_word());
                assert(r[Some(p)] == stf.scope[Some(p)]);
            }
        },
    }
}

// ---------------------------------------------------------------------------
// Reading the written declarations back
// ---------------------------------------------------------------------------

/// A scope after the bindings `t` in order (an empty URI undeclares).
pub open spec fn apply_entries(sc: Map<KeyView, Seq<char>>, t: Seq<EntryView>) -> Map<
    KeyView,
    Seq<char>,
>
    decreases t.len(),
{
    if t.len() == 0 {
        sc
    } else {
        let e = t[0];
        let next = if e.1.len() == 0 {
            sc.remove(e.0)
        } else {
            sc.insert(e.0, e.1)
        };
        apply_entries(next, t.drop_first())
    }
}

proof fn lemma_apply_entries_combine(sc: Map<KeyView, Seq<char>>, t: Seq<EntryView>)
    requires
        sorted(t),
    ensures
        apply_entries(sc, t) == combine(sc, map_of(t)),
    decreases t.len(),
{
    if t.len() == 0 {
        assert(combine(sc, map_of(t)) =~= sc);
    } else {
        let e = t[0];
        let rest = t.drop_first();
        let next = if e.1.len() == 0 {
            sc.remove(e.0)
        } else {
            sc.insert(e.0, e.1)
        };
        crate::scope::lemma_sorted_drop_first(t);
        lemma_apply_entries_combine(next, rest);
        lemma_map_of_sorted(t);
        lemma_map_of_sorted(rest);
        assert(!map_of(rest).dom().contains(e.0)) by {
            if map_of(rest).dom().contains(e.0) {
                let i = choose|i: int| 0 <= i < rest.len() && rest[i].0 == e.0;
                assert(t[i + 1] == rest[i]);
                lemma_key_lt_irreflexive(e.0);
            }
        }
        assert(combine(next, map_of(rest)) =~= combine(sc, map_of(rest).insert(e.0, e.1)));
    }
}

/// A writer's own attribute name is never a declaration.
pub(crate) proof fn lemma_own_not_declaration(s: Seq<char>, n: NameView, used: Map<KeyView, Seq<char>>)
    requires
        written_as(s, n, true, used),
    ensures
        declared_prefix(s) is None,
{
    lemma_ncname_has_no_colon(n.local_name);
    let xc = xmlns_colon();
    assert(xc[5] == ':');
    match n.namespace_uri {
        None => {
            if s.len() >= 6 && s.take(6) == xc {
                assert(s[5] == s.take(6)[5]);
                assert(n.local_name.contains(':'));
            }
        },
        Some(u) => {
            let (p, l) = if u == XML_NAMESPACE@ {
                (xml_word(), n.local_name)
            } else {
                let p = choose|p: Seq<char>|
                    #![trigger used[Some(p)]]
                    readable_prefix(p) && used.dom().contains(Some(p)) && used[Some(p)] == u && s
                        == p + seq![':'] + n.local_name;
                (p, n.local_name)
            };
            assert(s == p + seq![':'] + l);
            assert(s[p.len() as int] == ':');
            if s == xmlns_word() {
                assert(xmlns_word()[p.len() as int] != ':');
            }
            if s.len() >= 6 && s.take(6) == xc {
                assert forall|j: int| 0 <= j < 6 implies s[j] == #[trigger] xc[j] by {
                    assert(s.take(6)[j] == s[j]);
                }
                if p.len() < 5 {
                    assert(xc[p.len() as int] != ':');
                } else {
                    assert(p[0] == s[0] && p[1] == s[1] && p[2] == s[2]);
                    assert(xc[0] == 'x' && xc[1] == 'm' && xc[2] == 'l');
                    assert(crate::chars::starts_with_xml_any_case(p));
                    if u != XML_NAMESPACE@ {
                        assert(!readable_prefix(p));
                    }
                }
            }
        },
    }
}

/// What a declaration attribute declares.
pub(crate) proof fn lemma_declaration_attribute_declares(e: EntryView)
    ensures
        declared_prefix(declaration_attribute(e).0) == Some(e.0),
{
    let key = declaration_attribute(e).0;
    match e.0 {
        Some(p) => {
            assert(key.len() != xmlns_word().len());
            assert(key.take(6) =~= xmlns_colon());
            assert(key.skip(6) =~= p);
        },
        None => {},
    }
}

proof fn lemma_declared_suffix(
    all: Seq<AttributeEventView>,
    base: int,
    t: Seq<EntryView>,
    m: int,
    sc: Map<KeyView, Seq<char>>,
)
    requires
        0 <= base,
        0 <= m <= t.len(),
        base + t.len() == all.len(),
        forall|j: int| 0 <= j < t.len() ==> all[base + j] == declaration_attribute(#[trigger] t[j]),
        forall|j: int| 0 <= j < t.len() ==> declaration_violation((#[trigger] t[j]).0, t[j].1) is None,
    ensures
        declared_scope(all, base + m, sc) == Ok::<Map<KeyView, Seq<char>>, ErrorView>(apply_entries(sc, t.skip(m))),
    decreases t.len() - m,
{
    if m < t.len() {
        let e = t[m];
        lemma_declaration_attribute_declares(e);
        assert(all[base + m] == declaration_attribute(e));
        let next = if e.1.len() == 0 {
            sc.remove(e.0)
        } else {
            sc.insert(e.0, e.1)
        };
        lemma_declared_suffix(all, base, t, m + 1, next);
        assert(t.skip(m)[0] == e);
        assert(t.skip(m).drop_first() =~= t.skip(m + 1));
    } else {
        assert(t.skip(m) =~= Seq::<EntryView>::empty());
    }
}

pub(crate) proof fn lemma_skip_own(all: Seq<AttributeEventView>, k: int, end: int, sc: Map<KeyView, Seq<char>>)
    requires
        0 <= k <= end <= all.len(),
        forall|j: int| k <= j < end ==> declared_prefix((#[trigger] all[j]).0) is None,
    ensures
        declared_scope(all, k, sc) == declared_scope(all, end, sc),
    decreases end - k,
{
    if k < end {
        lemma_skip_own(all, k + 1, end, sc);
    }
}

/// The writer's declarations pass the reader's checks.
proof fn lemma_declaration_ok(k: KeyView, u: Seq<char>)
    requires
        match k {
            Some(p) => readable_prefix(p) && bindable_uri(u),
            None => u.len() == 0,
        },
    ensures
        declaration_violation(k, u) is None,
{
    lemma_namespace_literals();
    lemma_xml_word_ncname();
}

/// The writer's start tag of an extension.
pub open spec fn start_state(e: ExtensionView, w: Map<KeyView, Seq<char>>) -> (TagState, Seq<char>, TagState, Seq<AttributeEventView>) {
    let (name, st1) = spec_serialized_name(e.name, false, first_state(w))->Ok_0;
    let (out, st2) = write_attributes(e.attributes, 0, st1, seq![])->Ok_0;
    (st1, name, st2, out)
}

/// Facts about a start tag that the writer made.
pub(crate) proof fn lemma_start_tag(e: ExtensionView, w: Map<KeyView, Seq<char>>)
    requires
        writer_scope_ok(w),
        start_tag(e, w) is Ok,
    ensures
        ({
            let (st1, name, st2, out) = start_state(e, w);
            let (tag_name, attrs, scope2) = start_tag(e, w)->Ok_0;
            &&& tag_name == name
            &&& scope2 == st2.scope
            &&& tag_ok(st2, w)
            &&& attrs == out + declaration_attributes(st2.declarations)
            &&& attributes_step_ok(e.attributes, 0, st1, seq![], out, st2, w)
            &&& written_as(name, e.name, false, st2.used)
            &&& (e.name.namespace_uri is None ==> !st2.scope.dom().contains(None))
            &&& element_scope(attrs, reader_scope(w)) == Ok::<Map<KeyView, Seq<char>>, ErrorView>(reader_scope(st2.scope))
        }),
{
    let (st1, name, st2, out) = start_state(e, w);
    let (tag_name, attrs, scope2) = start_tag(e, w)->Ok_0;
    lemma_first_state(w);
    lemma_name_step(e.name, false, first_state(w), w);
    lemma_write_attributes(e.attributes, 0, st1, seq![], w);
    lemma_written_as_grows(name, e.name, false, st1.used, st2.used);
    let d = st2.declarations;
    lemma_sorted_entries_exist(d);
    let t = sorted_entries(d);
    lemma_map_of_sorted(t);
    let decl = declaration_attributes(d);
    assert(attrs == out + decl);
    let r = reader_scope(w);
    assert(r.insert(Some(xml_word()), XML_NAMESPACE@) =~= r);
    assert forall|j: int| 0 <= j < out.len() implies declared_prefix((#[trigger] attrs[j]).0) is None by {
        assert(attrs[j] == out[j]);
        assert(out[0 + j - 0] == out[j]);
        lemma_own_not_declaration(out[j].0, e.attributes[j].name, st2.used);
    }
    lemma_skip_own(attrs, 0, out.len() as int, r);
    assert forall|j: int| 0 <= j < t.len() implies attrs[out.len() + j] == declaration_attribute(#[trigger] t[j]) by {
        assert(attrs[out.len() + j] == decl[j]);
    }
    assert forall|j: int| 0 <= j < t.len() implies declaration_violation((#[trigger] t[j]).0, t[j].1) is None by {
        assert(d.dom().contains(t[j].0));
        assert(d[t[j].0] == t[j].1);
        lemma_declaration_ok(t[j].0, t[j].1);
    }
    lemma_declared_suffix(attrs, out.len() as int, t, 0, r);
    assert(t.skip(0) =~= t);
    lemma_apply_entries_combine(r, t);
    lemma_xml_word_ncname();
    assert(!d.dom().contains(Some(xml_word())));
    assert(combine(r, d) =~= reader_scope(combine(w, d)));
}

// ---------------------------------------------------------------------------
// Reading the written attributes back
// ---------------------------------------------------------------------------

proof fn lemma_parse_declarations_only(
    attrs: Seq<AttributeEventView>,
    k: int,
    sc: Map<KeyView, Seq<char>>,
    racc: Seq<AttributeView>,
)
    requires
        0 <= k <= attrs.len(),
        forall|j: int| k <= j < attrs.len() ==> declared_prefix((#[trigger] attrs[j]).0) is Some,
    ensures
        parse_attributes(attrs, k, sc, racc) == Ok::<Seq<AttributeView>, ErrorView>(racc),
    decreases attrs.len() - k,
{
    if k < attrs.len() {
        lemma_parse_declarations_only(attrs, k + 1, sc, racc);
    }
}

proof fn lemma_read_attributes(
    e: ExtensionView,
    w: Map<KeyView, Seq<char>>,
    attrs: Seq<AttributeEventView>,
    out: Seq<AttributeEventView>,
    st1: TagState,
    st2: TagState,
    k: int,
    racc: Seq<AttributeView>,
)
    requires
        tag_ok(st2, w),
        attributes_step_ok(e.attributes, 0, st1, seq![], out, st2, w),
        out.len() <= attrs.len(),
        forall|j: int| 0 <= j < out.len() ==> #[trigger] attrs[j] == out[j],
        forall|j: int| out.len() <= j < attrs.len() ==> declared_prefix((#[trigger] attrs[j]).0) is Some,
        0 <= k <= out.len(),
        racc.len() == k,
        forall|q: int| 0 <= q < k ==> attribute_key(#[trigger] racc[q]) == attribute_key(e.attributes[q]),
    ensures
        parse_attributes(attrs, k, reader_scope(st2.scope), racc) matches Ok(res) && attribute_keys(res)
            == attribute_keys(e.attributes),
    decreases out.len() - k,
{
    let sc = reader_scope(st2.scope);
    if k < out.len() {
        let a = e.attributes[k];
        assert(out[0 + k - 0] == out[k]);
        assert(attrs[k] == out[k]);
        lemma_own_not_declaration(out[k].0, a.name, st2.used);
        lemma_resolve_written(out[k].0, a.name, true, st2, w);
        let m = resolve_name(attrs[k].0, sc, true)->Ok_0;
        assert(!exists|q: int| 0 <= q < racc.len() && same_expanded_name(racc[q].name, m)) by {
            if exists|q: int| 0 <= q < racc.len() && same_expanded_name(racc[q].name, m) {
                let q = choose|q: int| 0 <= q < racc.len() && same_expanded_name(racc[q].name, m);
                assert(attribute_key(racc[q]) == attribute_key(e.attributes[q]));
                assert(same_expanded_name(e.attributes[q].name, e.attributes[k].name));
            }
        }
        let racc2 = racc.push(AttributeView { name: m, value: attrs[k].1 });
        assert forall|q: int| 0 <= q < k + 1 implies attribute_key(#[trigger] racc2[q]) == attribute_key(
            e.attributes[q],
        ) by {
            if q < k {
                assert(racc2[q] == racc[q]);
            }
        }
        lemma_read_attributes(e, w, attrs, out, st1, st2, k + 1, racc2);
    } else {
        lemma_parse_declarations_only(attrs, k, sc, racc);
        assert(attribute_keys(racc) =~= attribute_keys(e.attributes));
    }
}

// ---------------------------------------------------------------------------
// Reading written extensions back
// ---------------------------------------------------------------------------

/// The events of an extension written in scope `w`, read where they stand in
/// `ev` at `i` in the reader's scope for `w`, give an extension with the
/// same normal form, and end just after them.
pub(crate) proof fn lemma_element_roundtrip(e: ExtensionView, w: Map<KeyView, Seq<char>>, ev: Seq<EventView>, i: int)
    requires
        writer_scope_ok(w),
        write_extension(e, w) is Ok,
        0 <= i,
        i + write_extension(e, w)->Ok_0.len() <= ev.len(),
        ev.subrange(i, i + write_extension(e, w)->Ok_0.len()) == write_extension(e, w)->Ok_0,
    ensures
        parse_element(ev, i, reader_scope(w)) matches Ok((x, j)) && j == i + write_extension(e, w)->Ok_0.len()
            && key_form(x) == key_form(e),
    decreases e, 1int,
{
    let wr = write_extension(e, w)->Ok_0;
    let (name, attrs, scope2) = start_tag(e, w)->Ok_0;
    let body = write_content(e.content, scope2)->Ok_0;
    let n = wr.len() as int;
    assert(wr == seq![EventView::Start { name, attributes: attrs }] + body + seq![EventView::End { name }]);
    lemma_start_tag(e, w);
    let (st1, nm, st2, out) = start_state(e, w);
    assert(ev[i] == wr[0]);
    let r2 = reader_scope(st2.scope);
    lemma_resolve_written(name, e.name, false, st2, w);
    let d = st2.declarations;
    let decl = declaration_attributes(d);
    assert forall|j: int| 0 <= j < out.len() implies #[trigger] attrs[j] == out[j] by {}
    assert forall|j: int| out.len() <= j < attrs.len() implies declared_prefix((#[trigger] attrs[j]).0) is Some by {
        lemma_sorted_entries_exist(d);
        let t = sorted_entries(d);
        assert(attrs[j] == decl[j - out.len()]);
        lemma_declaration_attribute_declares(t[j - out.len()]);
    }
    lemma_read_attributes(e, w, attrs, out, st1, st2, 0, seq![]);
    lemma_combine_ok(w, d);
    assert forall|k: int| 0 <= k < body.len() implies #[trigger] ev.subrange(i + 1, i + 1 + body.len())[k] == body[k] by {
        assert(ev.subrange(i, i + n)[k + 1] == wr[k + 1]);
    }
    assert(ev.subrange(i + 1, i + 1 + body.len()) =~= body);
    assert(ev[i + 1 + body.len()] == wr[n - 1]);
    lemma_content_roundtrip(e.content, st2.scope, ev, i + 1, seq![]);
    assert(Seq::<ContentView>::empty() + e.content =~= e.content);
}

/// Mixed content written in scope `w`, read after `acc` where its events
/// stand in `ev` at `j` (an end tag follows them), gives content whose normal
/// form is that of `acc` followed by it.
proof fn lemma_content_roundtrip(
    c: Seq<ContentView>,
    w: Map<KeyView, Seq<char>>,
    ev: Seq<EventView>,
    j: int,
    acc: Seq<ContentView>,
)
    requires
        writer_scope_ok(w),
        write_content(c, w) is Ok,
        0 <= j,
        j + write_content(c, w)->Ok_0.len() < ev.len(),
        ev.subrange(j, j + write_content(c, w)->Ok_0.len()) == write_content(c, w)->Ok_0,
        ev[j + write_content(c, w)->Ok_0.len()] is End,
    ensures
        parse_content(ev, j, reader_scope(w), acc) matches Ok((res, k)) && k == j + write_content(c, w)->Ok_0.len()
            + 1 && normal_content(res) == normal_content(acc + c),
    decreases c, 0int,
{
    let body = write_content(c, w)->Ok_0;
    let r = reader_scope(w);
    if c.len() == 0 {
        assert(body.len() == 0);
        assert(acc + c =~= acc);
    } else {
        let rest = c.drop_first();
        assert(rest == c.subrange(1, c.len() as int));
        let rb = write_content(rest, w)->Ok_0;
        match c[0] {
            ContentView::Text(t) => {
                assert(body == seq![EventView::Text(t)] + rb);
                assert(ev[j] == ev.subrange(j, j + body.len())[0]);
                assert forall|k: int| 0 <= k < rb.len() implies #[trigger] ev.subrange(j + 1, j + 1 + rb.len())[k]
                    == rb[k] by {
                    assert(ev.subrange(j, j + body.len())[k + 1] == body[k + 1]);
                }
                assert(ev.subrange(j + 1, j + 1 + rb.len()) =~= rb);
                let acc2 = pushed_text(acc, t);
                lemma_content_roundtrip(rest, w, ev, j + 1, acc2);
                let res = parse_content(ev, j + 1, r, acc2)->Ok_0.0;
                lemma_normal_append(acc2, rest);
                lemma_normal_append(acc.push(ContentView::Text(t)), rest);
                lemma_normal_pushed_text(acc, t);
                assert(acc + c =~= acc.push(ContentView::Text(t)) + rest);
            },
            ContentView::Element(x) => {
                assert(decreases_to!(c => c[0]));
                let wx = write_extension(x, w)->Ok_0;
                assert(body == wx + rb);
                assert forall|k: int| 0 <= k < wx.len() implies #[trigger] ev.subrange(j, j + wx.len())[k]
                    == wx[k] by {
                    assert(ev.subrange(j, j + body.len())[k] == body[k]);
                }
                assert(ev.subrange(j, j + wx.len()) =~= wx);
                lemma_element_roundtrip(x, w, ev, j);
                assert(wx.len() >= 2);
                assert(ev[j] == wx[0]);
                let x2 = parse_element(ev, j, r)->Ok_0.0;
                let k = j + wx.len();
                assert forall|q: int| 0 <= q < rb.len() implies #[trigger] ev.subrange(k, k + rb.len())[q]
                    == rb[q] by {
                    assert(ev.subrange(j, j + body.len())[wx.len() + q] == body[wx.len() + q]);
                }
                assert(ev.subrange(k, k + rb.len()) =~= rb);
                let acc2 = acc.push(ContentView::Element(x2));
                lemma_content_roundtrip(rest, w, ev, k, acc2);
                lemma_normal_append(acc2, rest);
                lemma_normal_append(acc.push(ContentView::Element(x)), rest);
                lemma_fold_push(seq![], acc, ContentView::Element(x2));
                lemma_fold_push(seq![], acc, ContentView::Element(x));
                assert(acc + c =~= acc.push(ContentView::Element(x)) + rest);
            },
        }
    }
}

// ---------------------------------------------------------------------------
// When writing succeeds
// ---------------------------------------------------------------------------

/// Whether the start tag of `e` can be written: its name and every
/// attribute's name are valid, and no two attributes share an expanded name.
pub open spec fn tag_writable(e: ExtensionView) -> bool {
    &&& name_violation(e.name, false) is None
    &&& forall|i: int| 0 <= i < e.attributes.len() ==> name_violation(#[trigger] e.attributes[i].name, true) is None
    &&& forall|k: int, i: int|
        0 <= k < i < e.attributes.len() ==> !same_expanded_name(
            #[trigger] e.attributes[k].name,
            #[trigger] e.attributes[i].name,
        )
}

/// Whether every start tag of the extension tree `e` can be written.
pub open spec fn writable_extension(e: ExtensionView) -> bool
    decreases e,
{
    tag_writable(e) && writable_content(e.content)
}

/// Whether every start tag of the extensions among the content `c` can be
/// written.
pub open spec fn writable_content(c: Seq<ContentView>) -> bool
    decreases c,
{
    if c.len() == 0 {
        true
    } else {
        let first = match c[0] {
            ContentView::Text(_) => true,
            ContentView::Element(x) => writable_extension(x),
        };
        first && {
            proof {
                assert(c.drop_first() == c.subrange(1, c.len() as int));
            }
            writable_content(c.drop_first())
        }
    }
}

proof fn lemma_attributes_writable(e: ExtensionView, i: int, st: TagState, acc: Seq<AttributeEventView>)
    requires
        tag_writable(e),
        0 <= i,
    ensures
        write_attributes(e.attributes, i, st, acc) is Ok,
    decreases e.attributes.len() - i,
{
    let attrs = e.attributes;
    if i < attrs.len() {
        assert(!exists|k: int| 0 <= k < i && same_expanded_name(attrs[k].name, attrs[i].name)) by {
            assert forall|k: int| 0 <= k < i implies !same_expanded_name(attrs[k].name, attrs[i].name) by {
                assert(!same_expanded_name(e.attributes[k].name, e.attributes[i].name));
            }
        }
        assert(name_violation(attrs[i].name, true) is None);
        let st2 = spec_serialized_name(attrs[i].name, true, st)->Ok_0.1;
        let name = spec_serialized_name(attrs[i].name, true, st)->Ok_0.0;
        lemma_attributes_writable(e, i + 1, st2, acc.push((name, attrs[i].value)));
    }
}

/// An extension tree whose names are all valid, and none of whose elements
/// repeats an expanded attribute name, can be written in any scope.
pub proof fn law_writable_extension_writes(e: ExtensionView, w: Map<KeyView, Seq<char>>)
    requires
        writable_extension(e),
    ensures
        write_extension(e, w) is Ok,
    decreases e, 1int,
{
    let st0 = TagState { scope: w, declarations: Map::empty(), used: Map::empty() };
    let st1 = spec_serialized_name(e.name, false, st0)->Ok_0.1;
    lemma_attributes_writable(e, 0, st1, seq![]);
    let scope = start_tag(e, w)->Ok_0.2;
    lemma_content_writes(e.content, scope);
}

proof fn lemma_content_writes(c: Seq<ContentView>, w: Map<KeyView, Seq<char>>)
    requires
        writable_content(c),
    ensures
        write_content(c, w) is Ok,
    decreases c, 0int,
{
    if c.len() > 0 {
        assert(c.drop_first() == c.subrange(1, c.len() as int));
        if let ContentView::Element(x) = c[0] {
            assert(decreases_to!(c => c[0]));
            law_writable_extension_writes(x, w);
        }
        lemma_content_writes(c.drop_first(), w);
    }
}

// ---------------------------------------------------------------------------
// Laws
// ---------------------------------------------------------------------------

/// Reading back what the writer wrote gives an equivalent extension.
///
/// Write an extension with [`write_extension`] in a scope the writer may
/// start a tag in, and read the events with [`parse_element`] in the scope a
/// reader has there: the result is equivalent to the extension (the same
/// expanded names, attributes and mixed content; prefixes may differ), and
/// the reader stops exactly at the end of the written events.
pub proof fn law_read_after_write(e: ExtensionView, w: Map<KeyView, Seq<char>>)
    requires
        writer_scope_ok(w),
        write_extension(e, w) is Ok,
    ensures
        parse_element(write_extension(e, w)->Ok_0, 0, reader_scope(w)) matches Ok((x, j)) && j
            == write_extension(e, w)->Ok_0.len() && equivalent(x, e),
{
    let wr = write_extension(e, w)->Ok_0;
    assert(wr.subrange(0, wr.len() as int) =~= wr);
    lemma_element_roundtrip(e, w, wr, 0);
    let x = parse_element(wr, 0, reader_scope(w))->Ok_0.0;
    lemma_equivalent_normal(x, e);
}

/// An extension tree whose names are all valid, and none of whose elements
/// repeats an expanded attribute name, is written, and reads back as an
/// equivalent extension.
pub proof fn law_writable_extension_round_trips(e: ExtensionView, w: Map<KeyView, Seq<char>>)
    requires
        writer_scope_ok(w),
        writable_extension(e),
    ensures
        write_extension(e, w) is Ok,
        parse_element(write_extension(e, w)->Ok_0, 0, reader_scope(w)) matches Ok((x, j)) && j
            == write_extension(e, w)->Ok_0.len() && equivalent(x, e),
{
    law_writable_extension_writes(e, w);
    law_read_after_write(e, w);
}

/// An extension written among the children of a feed or an entry reads back
/// as an equivalent extension.
///
/// The writer writes such an extension in [`atom_scope`] (the Atom namespace
/// is the default, declared by the feed's or entry's start tag); a reader of
/// that start tag has the scope that [`element_scope`] gives for it.
pub proof fn law_child_extension_read_after_write(e: ExtensionView)
    requires
        write_extension(e, atom_scope()) is Ok,
    ensures
        element_scope(seq![(xmlns_word(), ATOM_NAMESPACE@)], Map::empty()) matches Ok(sc) && parse_element(
            write_extension(e, atom_scope())->Ok_0,
            0,
            sc,
        ) matches Ok((x, j)) && j == write_extension(e, atom_scope())->Ok_0.len() && equivalent(x, e),
{
    let w = atom_scope();
    lemma_namespace_literals();
    assert(writer_scope_ok(w)) by {
        assert(w.dom() =~= set![None::<Seq<char>>]);
    }
    let attrs = seq![(xmlns_word(), ATOM_NAMESPACE@)];
    let start = Map::<KeyView, Seq<char>>::empty().insert(Some(xml_word()), XML_NAMESPACE@);
    assert(declared_prefix(attrs[0].0) == Some(None::<Seq<char>>));
    assert(declaration_violation(None, ATOM_NAMESPACE@) is None);
    assert(declared_scope(attrs, 1, start.insert(None, ATOM_NAMESPACE@)) == Ok::<
        Map<KeyView, Seq<char>>,
        ErrorView,
    >(start.insert(None, ATOM_NAMESPACE@)));
    assert(start.insert(None, ATOM_NAMESPACE@) =~= reader_scope(w));
    law_read_after_write(e, w);
}

/// A written extension's start tag is read as an extension's, whatever the
/// default namespace: its name is prefixed, or has no namespace.
pub(crate) proof fn lemma_written_is_extension(e: ExtensionView, w: Map<KeyView, Seq<char>>)
    requires
        writer_scope_ok(w),
        write_extension(e, w) is Ok,
    ensures
        write_extension(e, w)->Ok_0[0] matches EventView::Start { name, attributes } && classify_extension(
            name,
            attributes,
            reader_scope(w),
        ) == Ok::<bool, ErrorView>(true),
{
    let (name, attrs, scope2) = start_tag(e, w)->Ok_0;
    lemma_start_tag(e, w);
    let (st1, nm, st2, out) = start_state(e, w);
    lemma_resolve_written(name, e.name, false, st2, w);
    let wr = write_extension(e, w)->Ok_0;
    assert(wr[0] == EventView::Start { name, attributes: attrs });
}

} // verus!
