//! A normal form of extensions, and the laws of their semantic equality.
//!
//! Two extensions are [`equivalent`] exactly when their normal forms are
//! equal. The normal form forgets preferred prefixes and attribute order, and
//! joins adjacent text items into one.

use vstd::prelude::*;
use vstd::multiset::Multiset;

use crate::namespace::{content_chars, pushed_text};
use crate::extension::{
    attribute_keys, equivalent, lemma_text_run_bounds, same_content, same_expanded_name, text_run,
    ContentView, ExtensionView,
};

verus! {

/// One item of normalized content.
pub enum KeyItem {
    Text(Seq<char>),
    Element(KeyForm),
}

/// The normal form of an extension.
pub struct KeyForm {
    pub namespace_uri: Option<Seq<char>>,
    pub local_name: Seq<char>,
    pub attributes: Multiset<(Option<Seq<char>>, Seq<char>, Seq<char>)>,
    pub content: Seq<KeyItem>,
}

/// Appends character data to normalized content, joining it to a trailing
/// text item.
pub open spec fn push_key_text(k: Seq<KeyItem>, t: Seq<char>) -> Seq<KeyItem> {
    if k.len() > 0 && k.last() is Text {
        k.drop_last().push(KeyItem::Text(k.last()->Text_0 + t))
    } else {
        k.push(KeyItem::Text(t))
    }
}

/// The normal form of an extension.
pub open spec fn key_form(e: ExtensionView) -> KeyForm
    decreases e, 1int,
{
    KeyForm {
        namespace_uri: e.name.namespace_uri,
        local_name: e.name.local_name,
        attributes: attribute_keys(e.attributes).to_multiset(),
        content: fold_content(seq![], e.content),
    }
}

/// Normalized content `k` followed by the content `c`, item by item.
pub open spec fn fold_content(k: Seq<KeyItem>, c: Seq<ContentView>) -> Seq<KeyItem>
    decreases c, 0int,
{
    if c.len() == 0 {
        k
    } else {
        let k2 = match c[0] {
            ContentView::Text(t) => push_key_text(k, t),
            ContentView::Element(x) => {
                proof {
                    assert(decreases_to!(c => c[0]));
                }
                k.push(KeyItem::Element(key_form(x)))
            },
        };
        proof {
            assert(c.drop_first() == c.subrange(1, c.len() as int));
        }
        fold_content(k2, c.drop_first())
    }
}

/// The normal form of mixed content.
pub open spec fn normal_content(c: Seq<ContentView>) -> Seq<KeyItem> {
    fold_content(seq![], c)
}

// ---------------------------------------------------------------------------
// Folding content
// ---------------------------------------------------------------------------

/// Folding a concatenation folds its parts in turn.
pub proof fn lemma_fold_append(k: Seq<KeyItem>, a: Seq<ContentView>, b: Seq<ContentView>)
    ensures
        fold_content(k, a + b) == fold_content(fold_content(k, a), b),
    decreases a.len(),
{
    if a.len() == 0 {
        assert(a + b =~= b);
    } else {
        assert((a + b)[0] == a[0]);
        assert((a + b).drop_first() =~= a.drop_first() + b);
        let k2 = match a[0] {
            ContentView::Text(t) => push_key_text(k, t),
            ContentView::Element(x) => k.push(KeyItem::Element(key_form(x))),
        };
        lemma_fold_append(k2, a.drop_first(), b);
    }
}

/// Folding touches only the last item of a non-empty accumulator.
proof fn lemma_fold_prefix(k: Seq<KeyItem>, m: Seq<KeyItem>, c: Seq<ContentView>)
    requires
        m.len() > 0,
    ensures
        fold_content(k + m, c) == k + fold_content(m, c),
    decreases c.len(),
{
    if c.len() > 0 {
        let (a, b) = match c[0] {
            ContentView::Text(t) => (push_key_text(k + m, t), push_key_text(m, t)),
            ContentView::Element(x) => (
                (k + m).push(KeyItem::Element(key_form(x))),
                m.push(KeyItem::Element(key_form(x))),
            ),
        };
        assert((k + m).last() == m.last());
        assert((k + m).drop_last() =~= k + m.drop_last());
        assert(a =~= k + b);
        lemma_fold_prefix(k, b, c.drop_first());
    }
}

/// Content that does not begin with text folds after any accumulator.
proof fn lemma_fold_after(k: Seq<KeyItem>, c: Seq<ContentView>)
    requires
        c.len() == 0 || !(c[0] is Text) || k.len() == 0 || !(k.last() is Text),
    ensures
        fold_content(k, c) == k + fold_content(seq![], c),
{
    if c.len() == 0 {
        assert(k + Seq::<KeyItem>::empty() =~= k);
    } else {
        match c[0] {
            ContentView::Element(x) => {
                let e = KeyItem::Element(key_form(x));
                assert(k.push(e) =~= k + seq![e]);
                assert(Seq::<KeyItem>::empty().push(e) =~= seq![e]);
                lemma_fold_prefix(k, seq![e], c.drop_first());
            },
            ContentView::Text(t) => {
                let e = KeyItem::Text(t);
                assert(push_key_text(k, t) =~= k + seq![e]);
                assert(push_key_text(seq![], t) =~= seq![e]);
                lemma_fold_prefix(k, seq![e], c.drop_first());
            },
        }
    }
}

/// Appending two pieces of text is appending their concatenation.
proof fn lemma_push_key_text_twice(k: Seq<KeyItem>, a: Seq<char>, b: Seq<char>)
    ensures
        push_key_text(push_key_text(k, a), b) == push_key_text(k, a + b),
{
    let k1 = push_key_text(k, a);
    assert(k1.last() is Text);
    assert(k1.drop_last().push(KeyItem::Text(k1.last()->Text_0 + b)) == push_key_text(k1, b));
    if k.len() > 0 && k.last() is Text {
        assert(k1.drop_last() =~= k.drop_last());
        assert(k.last()->Text_0 + a + b =~= k.last()->Text_0 + (a + b));
    } else {
        assert(k1.drop_last() =~= k);
    }
}

/// A leading run of text folds as one piece of text.
proof fn lemma_fold_text_run(k: Seq<KeyItem>, c: Seq<ContentView>)
    requires
        c.len() > 0,
        c[0] is Text,
    ensures
        fold_content(k, c) == fold_content(push_key_text(k, text_run(c).0), c.skip(text_run(c).1 as int)),
    decreases c.len(),
{
    let t = c[0]->Text_0;
    let rest = c.drop_first();
    assert(text_run(c) == (t + text_run(rest).0, text_run(rest).1 + 1));
    lemma_text_run_bounds(rest);
    if rest.len() > 0 && rest[0] is Text {
        lemma_fold_text_run(push_key_text(k, t), rest);
        lemma_push_key_text_twice(k, t, text_run(rest).0);
        assert(c.skip(text_run(c).1 as int) =~= rest.skip(text_run(rest).1 as int));
    } else {
        assert(text_run(rest) == (Seq::<char>::empty(), 0nat));
        assert(text_run(c).0 =~= t);
        assert(c.skip(1) =~= rest);
    }
}

/// Normalized content beginning with a text run.
proof fn lemma_normal_text_head(c: Seq<ContentView>)
    requires
        c.len() > 0,
        c[0] is Text,
    ensures
        normal_content(c) == seq![KeyItem::Text(text_run(c).0)] + normal_content(
            c.skip(text_run(c).1 as int),
        ),
{
    lemma_text_run_bounds(c);
    let n = text_run(c).1 as int;
    lemma_fold_text_run(seq![], c);
    let head = seq![KeyItem::Text(text_run(c).0)];
    assert(push_key_text(seq![], text_run(c).0) =~= head);
    lemma_fold_after(head, c.skip(n));
    if n < c.len() {
        assert(c.skip(n)[0] == c[n]);
    }
}

/// Normalized content beginning with an element.
proof fn lemma_normal_element_head(c: Seq<ContentView>)
    requires
        c.len() > 0,
        c[0] is Element,
    ensures
        normal_content(c) == seq![KeyItem::Element(key_form(c[0]->Element_0))] + normal_content(
            c.drop_first(),
        ),
{
    let head = seq![KeyItem::Element(key_form(c[0]->Element_0))];
    assert(Seq::<KeyItem>::empty().push(KeyItem::Element(key_form(c[0]->Element_0))) =~= head);
    lemma_fold_after(head, c.drop_first());
}

/// The normal form of a concatenation.
pub proof fn lemma_normal_append(a: Seq<ContentView>, b: Seq<ContentView>)
    ensures
        normal_content(a + b) == fold_content(normal_content(a), b),
{
    lemma_fold_append(seq![], a, b);
}

/// Folding one more item.
pub proof fn lemma_fold_push(k: Seq<KeyItem>, c: Seq<ContentView>, item: ContentView)
    ensures
        fold_content(k, c.push(item)) == match item {
            ContentView::Text(t) => push_key_text(fold_content(k, c), t),
            ContentView::Element(x) => fold_content(k, c).push(KeyItem::Element(key_form(x))),
        },
{
    assert(c.push(item) =~= c + seq![item]);
    lemma_fold_append(k, c, seq![item]);
    assert(seq![item].drop_first() =~= Seq::<ContentView>::empty());
    reveal_with_fuel(fold_content, 2);
}

/// Coalescing text into the last text item does not change the normal form.
pub proof fn lemma_normal_pushed_text(acc: Seq<ContentView>, t: Seq<char>)
    ensures
        normal_content(pushed_text(acc, t)) == normal_content(acc.push(ContentView::Text(t))),
{
    lemma_fold_push(seq![], acc, ContentView::Text(t));
    if acc.len() > 0 && acc.last() is Text {
        let s = acc.last()->Text_0;
        let front = acc.drop_last();
        assert(acc =~= front.push(ContentView::Text(s)));
        lemma_fold_push(seq![], front, ContentView::Text(s));
        lemma_fold_push(seq![], front, ContentView::Text(s + t));
        lemma_push_key_text_twice(fold_content(seq![], front), s, t);
    }
}

// ---------------------------------------------------------------------------
// Equivalence is equality of normal forms
// ---------------------------------------------------------------------------

/// Mixed content is the same exactly when its normal forms are equal.
pub proof fn lemma_same_content_normal(l: Seq<ContentView>, r: Seq<ContentView>)
    ensures
        same_content(l, r) <==> normal_content(l) == normal_content(r),
    decreases l,
{
    if l.len() == 0 || r.len() == 0 {
        if l.len() > 0 {
            if l[0] is Text {
                lemma_normal_text_head(l);
            } else {
                lemma_normal_element_head(l);
            }
            assert(normal_content(l).len() > 0);
        }
        if r.len() > 0 {
            if r[0] is Text {
                lemma_normal_text_head(r);
            } else {
                lemma_normal_element_head(r);
            }
            assert(normal_content(r).len() > 0);
        }
    } else {
        match (l[0], r[0]) {
            (ContentView::Element(a), ContentView::Element(b)) => {
                assert(decreases_to!(l => l[0]));
                lemma_equivalent_normal(a, b);
                lemma_normal_element_head(l);
                lemma_normal_element_head(r);
                assert(l.drop_first() == l.subrange(1, l.len() as int));
                lemma_same_content_normal(l.drop_first(), r.drop_first());
                lemma_seq_cons_eq(
                    KeyItem::Element(key_form(a)),
                    normal_content(l.drop_first()),
                    KeyItem::Element(key_form(b)),
                    normal_content(r.drop_first()),
                );
            },
            (ContentView::Text(_), ContentView::Text(_)) => {
                lemma_text_run_bounds(l);
                lemma_text_run_bounds(r);
                let ln = text_run(l).1 as int;
                let rn = text_run(r).1 as int;
                lemma_normal_text_head(l);
                lemma_normal_text_head(r);
                assert(l.skip(ln) == l.subrange(ln, l.len() as int));
                lemma_same_content_normal(l.skip(ln), r.skip(rn));
                lemma_seq_cons_eq(
                    KeyItem::Text(text_run(l).0),
                    normal_content(l.skip(ln)),
                    KeyItem::Text(text_run(r).0),
                    normal_content(r.skip(rn)),
                );
            },
            (ContentView::Text(_), ContentView::Element(b)) => {
                lemma_normal_text_head(l);
                lemma_normal_element_head(r);
                assert(normal_content(l)[0] != normal_content(r)[0]);
            },
            (ContentView::Element(a), ContentView::Text(_)) => {
                lemma_normal_element_head(l);
                lemma_normal_text_head(r);
                assert(normal_content(l)[0] != normal_content(r)[0]);
            },
        }
    }
}

/// Two extensions are equivalent exactly when their normal forms are equal.
pub proof fn lemma_equivalent_normal(a: ExtensionView, b: ExtensionView)
    ensures
        equivalent(a, b) <==> key_form(a) == key_form(b),
    decreases a,
{
    lemma_same_content_normal(a.content, b.content);
}

proof fn lemma_seq_cons_eq<A>(x: A, s: Seq<A>, y: A, t: Seq<A>)
    ensures
        seq![x] + s == seq![y] + t <==> x == y && s == t,
{
    if seq![x] + s == seq![y] + t {
        assert((seq![x] + s)[0] == x);
        assert((seq![y] + t)[0] == y);
        assert(s =~= (seq![x] + s).drop_first());
        assert(t =~= (seq![y] + t).drop_first());
    }
}

// ---------------------------------------------------------------------------
// Laws
// ---------------------------------------------------------------------------

/// Every extension is equivalent to itself.
pub proof fn law_equivalent_reflexive(a: ExtensionView)
    ensures
        equivalent(a, a),
{
    lemma_equivalent_normal(a, a);
}

/// Equivalence does not depend on the order of its arguments.
pub proof fn law_equivalent_symmetric(a: ExtensionView, b: ExtensionView)
    ensures
        equivalent(a, b) == equivalent(b, a),
{
    lemma_equivalent_normal(a, b);
    lemma_equivalent_normal(b, a);
}

/// Two extensions equivalent to a third are equivalent to each other.
pub proof fn law_equivalent_transitive(a: ExtensionView, b: ExtensionView, c: ExtensionView)
    requires
        equivalent(a, b),
        equivalent(b, c),
    ensures
        equivalent(a, c),
{
    lemma_equivalent_normal(a, b);
    lemma_equivalent_normal(b, c);
    lemma_equivalent_normal(a, c);
}

/// Splitting a text item in two, anywhere in mixed content, keeps the content
/// the same: a text run means its character data, however it is split.
pub proof fn law_text_split_is_same_content(
    before: Seq<ContentView>,
    x: Seq<char>,
    y: Seq<char>,
    after: Seq<ContentView>,
)
    ensures
        same_content(
            before + seq![ContentView::Text(x), ContentView::Text(y)] + after,
            before + seq![ContentView::Text(x + y)] + after,
        ),
{
    let split = before + seq![ContentView::Text(x), ContentView::Text(y)] + after;
    let joined = before + seq![ContentView::Text(x + y)] + after;
    let k = fold_content(seq![], before);
    lemma_fold_append(seq![], before + seq![ContentView::Text(x), ContentView::Text(y)], after);
    lemma_fold_append(seq![], before, seq![ContentView::Text(x), ContentView::Text(y)]);
    lemma_fold_append(seq![], before + seq![ContentView::Text(x + y)], after);
    lemma_fold_append(seq![], before, seq![ContentView::Text(x + y)]);
    let two = seq![ContentView::Text(x), ContentView::Text(y)];
    assert(two.drop_first() =~= seq![ContentView::Text(y)]);
    assert(seq![ContentView::Text(y)].drop_first() =~= Seq::<ContentView>::empty());
    assert(seq![ContentView::Text(x + y)].drop_first() =~= Seq::<ContentView>::empty());
    assert(fold_content(k, two) == push_key_text(push_key_text(k, x), y)) by {
        reveal_with_fuel(fold_content, 3);
    }
    assert(fold_content(k, seq![ContentView::Text(x + y)]) == push_key_text(k, x + y)) by {
        reveal_with_fuel(fold_content, 2);
    }
    lemma_push_key_text_twice(k, x, y);
    lemma_same_content_normal(split, joined);
}

/// The order of attributes is not part of an extension's identity: the same
/// attributes in another order give an equivalent extension.
pub proof fn law_attribute_order_is_not_identity(a: ExtensionView, b: ExtensionView)
    requires
        same_expanded_name(a.name, b.name),
        attribute_keys(a.attributes).to_multiset() == attribute_keys(b.attributes).to_multiset(),
        a.content == b.content,
    ensures
        equivalent(a, b),
{
    lemma_same_content_normal(a.content, b.content);
}

/// Preferred prefixes are not part of an extension's identity: names that
/// differ only in their preferred prefixes give an equivalent extension.
pub proof fn law_prefix_is_not_identity(a: ExtensionView, b: ExtensionView)
    requires
        same_expanded_name(a.name, b.name),
        a.attributes.len() == b.attributes.len(),
        forall|i: int|
            0 <= i < a.attributes.len() ==> same_expanded_name(
                #[trigger] a.attributes[i].name,
                b.attributes[i].name,
            ) && a.attributes[i].value == b.attributes[i].value,
        a.content == b.content,
    ensures
        equivalent(a, b),
{
    assert(attribute_keys(a.attributes) =~= attribute_keys(b.attributes));
    lemma_same_content_normal(a.content, b.content);
}


proof fn lemma_content_chars_concat(a: Seq<ContentView>, b: Seq<ContentView>)
    ensures
        content_chars(a + b) == content_chars(a) + content_chars(b),
    decreases b.len(),
{
    if b.len() == 0 {
        assert(a + b =~= a);
        assert(content_chars(a) + content_chars(b) =~= content_chars(a));
    } else {
        assert((a + b).drop_last() =~= a + b.drop_last());
        assert((a + b).last() == b.last());
        lemma_content_chars_concat(a, b.drop_last());
        let tail = match b.last() {
            ContentView::Text(t) => t,
            ContentView::Element(_) => seq![],
        };
        assert(content_chars(a) + content_chars(b.drop_last()) + tail =~= content_chars(a) + (content_chars(
            b.drop_last(),
        ) + tail));
    }
}

proof fn lemma_content_chars_first(s: Seq<ContentView>)
    requires
        s.len() > 0,
    ensures
        content_chars(s) == content_chars(seq![s[0]]) + content_chars(s.drop_first()),
        content_chars(seq![s[0]]) == match s[0] {
            ContentView::Text(t) => t,
            ContentView::Element(_) => seq![],
        },
{
    assert(s =~= seq![s[0]] + s.drop_first());
    lemma_content_chars_concat(seq![s[0]], s.drop_first());
    assert(seq![s[0]].drop_last() =~= Seq::<ContentView>::empty());
    assert(seq![s[0]].last() == s[0]);
    assert(content_chars(Seq::<ContentView>::empty()) == Seq::<char>::empty());
    let t = match s[0] {
        ContentView::Text(t) => t,
        ContentView::Element(_) => seq![],
    };
    assert(Seq::<char>::empty() + t =~= t);
    assert(content_chars(seq![s[0]]) == content_chars(seq![s[0]].drop_last()) + t);
}

proof fn lemma_text_run_chars(s: Seq<ContentView>)
    ensures
        text_run(s).1 <= s.len(),
        content_chars(s) == text_run(s).0 + content_chars(s.skip(text_run(s).1 as int)),
    decreases s.len(),
{
    lemma_text_run_bounds(s);
    if s.len() > 0 && s[0] is Text {
        let rest = s.drop_first();
        lemma_text_run_chars(rest);
        lemma_content_chars_first(s);
        assert(s.skip(text_run(s).1 as int) =~= rest.skip(text_run(rest).1 as int));
        assert(s[0]->Text_0 + (text_run(rest).0 + content_chars(rest.skip(text_run(rest).1 as int))) =~= (s[0]->Text_0
            + text_run(rest).0) + content_chars(rest.skip(text_run(rest).1 as int)));
    } else {
        assert(s.skip(0) =~= s);
        assert(Seq::<char>::empty() + content_chars(s) =~= content_chars(s));
    }
}

proof fn lemma_same_content_chars(l: Seq<ContentView>, r: Seq<ContentView>)
    requires
        same_content(l, r),
    ensures
        content_chars(l) == content_chars(r),
    decreases l.len(),
{
    if l.len() > 0 && r.len() > 0 {
        match (l[0], r[0]) {
            (ContentView::Element(_), ContentView::Element(_)) => {
                lemma_content_chars_first(l);
                lemma_content_chars_first(r);
                lemma_same_content_chars(l.drop_first(), r.drop_first());
                assert(Seq::<char>::empty() + content_chars(l.drop_first()) =~= content_chars(l.drop_first()));
                assert(Seq::<char>::empty() + content_chars(r.drop_first()) =~= content_chars(r.drop_first()));
            },
            (ContentView::Text(_), ContentView::Text(_)) => {
                lemma_text_run_bounds(l);
                lemma_text_run_bounds(r);
                lemma_text_run_chars(l);
                lemma_text_run_chars(r);
                let ln = text_run(l).1;
                let rn = text_run(r).1;
                lemma_same_content_chars(l.skip(ln as int), r.skip(rn as int));
            },
            _ => {},
        }
    } else {
        assert(l.len() == 0 && r.len() == 0);
    }
}

/// Equivalent extensions have the same expanded name, as many attributes,
/// and the same character data directly inside them, however it is split
/// into text items.
pub proof fn law_equivalent_same_character_data(a: ExtensionView, b: ExtensionView)
    requires
        equivalent(a, b),
    ensures
        same_expanded_name(a.name, b.name),
        a.attributes.len() == b.attributes.len(),
        content_chars(a.content) == content_chars(b.content),
{
    lemma_same_content_chars(a.content, b.content);
    assert(attribute_keys(a.attributes).to_multiset().len() == attribute_keys(b.attributes).to_multiset().len());
    attribute_keys(a.attributes).to_multiset_ensures();
    attribute_keys(b.attributes).to_multiset_ensures();
}

} // verus!
