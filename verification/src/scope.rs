//! Prefix-to-URI bindings visible at one XML element.
//!
//! `None` is the default namespace. A scope is kept sorted by key (`None`
//! first, then prefixes in code point order), so walking it visits bindings in
//! the same order as an ordered map would.

use vstd::prelude::*;

use crate::chars::{
    copy_opt_string, copy_string, lemma_seq_lt_irreflexive, lemma_seq_lt_total, lemma_seq_lt_transitive,
    seq_lt, str_order,
};

verus! {

/// The view of a binding's key: `None` for the default namespace.
pub type KeyView = Option<Seq<char>>;

/// The view of one binding.
pub type EntryView = (KeyView, Seq<char>);

/// Key order: the default namespace first, then prefixes lexicographically.
pub open spec fn key_lt(a: KeyView, b: KeyView) -> bool {
    match (a, b) {
        (None, Some(_)) => true,
        (Some(x), Some(y)) => seq_lt(x, y),
        _ => false,
    }
}

pub proof fn lemma_key_lt_irreflexive(a: KeyView)
    ensures
        !key_lt(a, a),
{
    if let Some(x) = a {
        lemma_seq_lt_irreflexive(x);
    }
}

pub proof fn lemma_key_lt_transitive(a: KeyView, b: KeyView, c: KeyView)
    requires
        key_lt(a, b),
        key_lt(b, c),
    ensures
        key_lt(a, c),
{
    if a is Some {
        lemma_seq_lt_transitive(a->0, b->0, c->0);
    }
}

pub proof fn lemma_key_lt_total(a: KeyView, b: KeyView)
    ensures
        a != b ==> key_lt(a, b) || key_lt(b, a),
        !(key_lt(a, b) && key_lt(b, a)),
{
    if a is Some && b is Some {
        lemma_seq_lt_total(a->0, b->0);
    }
}

/// Keys strictly increase along the sequence.
pub open spec fn sorted(s: Seq<EntryView>) -> bool {
    forall|i: int, j: int| 0 <= i < j < s.len() ==> key_lt(#[trigger] s[i].0, #[trigger] s[j].0)
}

/// The map that a binding sequence denotes.
pub open spec fn map_of(s: Seq<EntryView>) -> Map<KeyView, Seq<char>>
    decreases s.len(),
{
    if s.len() == 0 {
        Map::empty()
    } else {
        map_of(s.drop_first()).insert(s[0].0, s[0].1)
    }
}

/// The unique sorted binding sequence denoting a map.
pub open spec fn sorted_entries(m: Map<KeyView, Seq<char>>) -> Seq<EntryView> {
    choose|s: Seq<EntryView>| sorted(s) && map_of(s) == m
}

pub proof fn lemma_sorted_drop_first(s: Seq<EntryView>)
    requires
        sorted(s),
        s.len() > 0,
    ensures
        sorted(s.drop_first()),
{
    assert forall|i: int, j: int|
        0 <= i < j < s.drop_first().len() implies key_lt(
        #[trigger] s.drop_first()[i].0,
        #[trigger] s.drop_first()[j].0,
    ) by {
        assert(s.drop_first()[i] == s[i + 1]);
        assert(s.drop_first()[j] == s[j + 1]);
    }
}

/// What a sorted binding sequence's map holds.
pub proof fn lemma_map_of_sorted(s: Seq<EntryView>)
    requires
        sorted(s),
    ensures
        map_of(s).dom().finite(),
        map_of(s).dom().len() == s.len(),
        forall|k: KeyView|
            #![trigger map_of(s).dom().contains(k)]
            map_of(s).dom().contains(k) <==> exists|i: int| 0 <= i < s.len() && s[i].0 == k,
        forall|i: int| #![trigger s[i]] 0 <= i < s.len() ==> map_of(s)[s[i].0] == s[i].1,
        forall|k: KeyView|
            #![trigger map_of(s).dom().contains(k)]
            s.len() > 0 && map_of(s).dom().contains(k) ==> k == s[0].0 || key_lt(s[0].0, k),
    decreases s.len(),
{
    if s.len() > 0 {
        let t = s.drop_first();
        lemma_sorted_drop_first(s);
        lemma_map_of_sorted(t);
        assert(!map_of(t).dom().contains(s[0].0)) by {
            if map_of(t).dom().contains(s[0].0) {
                let i = choose|i: int| 0 <= i < t.len() && t[i].0 == s[0].0;
                assert(s[i + 1] == t[i]);
                assert(key_lt(s[0].0, s[i + 1].0));
                lemma_key_lt_irreflexive(s[0].0);
            }
        }
        assert forall|k: KeyView|
            #![trigger map_of(s).dom().contains(k)]
            map_of(s).dom().contains(k) <==> exists|i: int| 0 <= i < s.len() && s[i].0 == k by {
            if map_of(s).dom().contains(k) && k != s[0].0 {
                let i = choose|i: int| 0 <= i < t.len() && t[i].0 == k;
                assert(s[i + 1] == t[i]);
            }
            if exists|i: int| 0 <= i < s.len() && s[i].0 == k {
                let i = choose|i: int| 0 <= i < s.len() && s[i].0 == k;
                if i > 0 {
                    assert(t[i - 1] == s[i]);
                }
            }
        }
        assert forall|i: int| #![trigger s[i]] 0 <= i < s.len() implies map_of(s)[s[i].0]
            == s[i].1 by {
            if i > 0 {
                assert(t[i - 1] == s[i]);
                assert(key_lt(s[0].0, s[i].0));
                lemma_key_lt_irreflexive(s[0].0);
            }
        }
        assert forall|k: KeyView|
            #![trigger map_of(s).dom().contains(k)]
            s.len() > 0 && map_of(s).dom().contains(k) implies k == s[0].0 || key_lt(
            s[0].0,
            k,
        ) by {
            if k != s[0].0 {
                let i = choose|i: int| 0 <= i < t.len() && t[i].0 == k;
                assert(s[i + 1] == t[i]);
            }
        }
    }
}

/// Two sorted sequences with the same map are the same sequence.
pub proof fn lemma_sorted_unique(s1: Seq<EntryView>, s2: Seq<EntryView>)
    requires
        sorted(s1),
        sorted(s2),
        map_of(s1) == map_of(s2),
    ensures
        s1 == s2,
    decreases s1.len(),
{
    lemma_map_of_sorted(s1);
    lemma_map_of_sorted(s2);
    if s1.len() > 0 {
        assert(s2.len() > 0);
        let k1 = s1[0].0;
        let k2 = s2[0].0;
        assert(map_of(s1).dom().contains(k1));
        assert(map_of(s2).dom().contains(k2));
        if k1 != k2 {
            lemma_key_lt_total(k1, k2);
        }
        assert(k1 == k2);
        lemma_sorted_drop_first(s1);
        lemma_sorted_drop_first(s2);
        lemma_map_of_sorted(s1.drop_first());
        lemma_map_of_sorted(s2.drop_first());
        assert(!map_of(s1.drop_first()).dom().contains(k1)) by {
            if map_of(s1.drop_first()).dom().contains(k1) {
                let i = choose|i: int|
                    0 <= i < s1.drop_first().len() && s1.drop_first()[i].0 == k1;
                assert(s1[i + 1] == s1.drop_first()[i]);
                lemma_key_lt_irreflexive(k1);
            }
        }
        assert(!map_of(s2.drop_first()).dom().contains(k1)) by {
            if map_of(s2.drop_first()).dom().contains(k1) {
                let i = choose|i: int|
                    0 <= i < s2.drop_first().len() && s2.drop_first()[i].0 == k1;
                assert(s2[i + 1] == s2.drop_first()[i]);
                lemma_key_lt_irreflexive(k1);
            }
        }
        assert(map_of(s1.drop_first()) =~= map_of(s1).remove(k1));
        assert(map_of(s2.drop_first()) =~= map_of(s2).remove(k1));
        lemma_sorted_unique(s1.drop_first(), s2.drop_first());
        assert(s1 =~= seq![s1[0]] + s1.drop_first());
        assert(s2 =~= seq![s2[0]] + s2.drop_first());
    } else {
        assert(s2.len() == 0);
        assert(s1 =~= s2);
    }
}

/// A sorted sequence is the sorted sequence of its map.
pub proof fn lemma_sorted_entries_of(s: Seq<EntryView>)
    requires
        sorted(s),
    ensures
        sorted_entries(map_of(s)) == s,
{
    let t = sorted_entries(map_of(s));
    assert(sorted(s) && map_of(s) == map_of(s));
    lemma_sorted_unique(t, s);
}

/// One prefix-to-URI binding.
pub struct Binding {
    /// The prefix, or `None` for the default namespace.
    pub prefix: Option<String>,
    /// The namespace URI it is bound to.
    pub uri: String,
}

impl View for Binding {
    type V = EntryView;

    open spec fn view(&self) -> EntryView {
        (self.prefix.deep_view(), self.uri@)
    }
}

/// Prefix-to-URI bindings visible at one XML element.
///
/// Scopes are built by inheriting parent bindings and applying declarations
/// on the current start tag.
pub struct NamespaceScope {
    bindings: Vec<Binding>,
}

impl NamespaceScope {
    /// The bindings in key order.
    pub closed spec fn entries(&self) -> Seq<EntryView> {
        Seq::new(self.bindings@.len(), |i: int| self.bindings@[i]@)
    }

    #[verifier::type_invariant]
    spec fn sorted_inv(&self) -> bool {
        sorted(self.entries())
    }

    /// The bindings in key order; the same order as `sorted_entries(self@)`.
    pub fn len(&self) -> (r: usize)
        ensures
            self@.dom().finite(),
            r == self@.dom().len(),
            r == sorted_entries(self@).len(),
            sorted(sorted_entries(self@)),
            map_of(sorted_entries(self@)) == self@,
    {
        proof {
            use_type_invariant(self);
            lemma_map_of_sorted(self.entries());
            lemma_sorted_entries_of(self.entries());
        }
        self.bindings.len()
    }

    /// The `i`-th binding in key order.
    pub fn binding_at(&self, i: usize) -> (r: &Binding)
        requires
            i < self@.dom().len(),
        ensures
            r@ == sorted_entries(self@)[i as int],
    {
        proof {
            use_type_invariant(self);
            lemma_map_of_sorted(self.entries());
            lemma_sorted_entries_of(self.entries());
        }
        &self.bindings[i]
    }

    /// An empty scope.
    pub fn new() -> (r: NamespaceScope)
        ensures
            r@ == Map::<KeyView, Seq<char>>::empty(),
    {
        let r = NamespaceScope { bindings: Vec::new() };
        assert(r.entries() =~= Seq::<EntryView>::empty());
        r
    }

    /// The position at which `key` is or would be stored.
    fn position(&self, key: &Option<String>) -> (r: (usize, bool))
        ensures
            r.0 <= self.entries().len(),
            forall|j: int| 0 <= j < r.0 ==> key_lt(#[trigger] self.entries()[j].0, key.deep_view()),
            r.1 ==> r.0 < self.entries().len() && self.entries()[r.0 as int].0 == key.deep_view(),
            !r.1 ==> forall|j: int|
                r.0 <= j < self.entries().len() ==> key_lt(
                    key.deep_view(),
                    #[trigger] self.entries()[j].0,
                ),
    {
        proof {
            use_type_invariant(self);
        }
        let n = self.bindings.len();
        let mut i: usize = 0;
        while i < n
            invariant
                i <= n,
                n == self.entries().len(),
                sorted(self.entries()),
                forall|j: int| 0 <= j < i ==> key_lt(#[trigger] self.entries()[j].0, key.deep_view()),
            decreases n - i,
        {
            let b = &self.bindings[i];
            assert(b@ == self.entries()[i as int]);
            let order: i8 = match (&b.prefix, key) {
                (None, None) => 0,
                (None, Some(_)) => -1,
                (Some(_), None) => 1,
                (Some(p), Some(k)) => str_order(p.as_str(), k.as_str()),
            };
            if order == 0 {
                return (i, true);
            }
            if order > 0 {
                assert forall|j: int| i <= j < n implies key_lt(
                    key.deep_view(),
                    #[trigger] self.entries()[j].0,
                ) by {
                    if j > i {
                        lemma_key_lt_transitive(
                            key.deep_view(),
                            self.entries()[i as int].0,
                            self.entries()[j].0,
                        );
                    }
                }
                return (i, false);
            }
            i = i + 1;
        }
        (n, false)
    }

    /// The URI bound to `key`, if any.
    pub fn get(&self, key: &Option<String>) -> (r: Option<&String>)
        ensures
            r is Some == self@.dom().contains(key.deep_view()),
            r matches Some(u) ==> u@ == self@[key.deep_view()],
    {
        proof {
            use_type_invariant(self);
            lemma_map_of_sorted(self.entries());
        }
        let (i, found) = self.position(key);
        if found {
            Some(&self.bindings[i].uri)
        } else {
            proof {
                if self@.dom().contains(key.deep_view()) {
                    let j = choose|j: int|
                        0 <= j < self.entries().len() && self.entries()[j].0 == key.deep_view();
                    lemma_key_lt_irreflexive(key.deep_view());
                }
            }
            None
        }
    }

    /// Whether `key` is bound.
    pub fn contains_key(&self, key: &Option<String>) -> (r: bool)
        ensures
            r == self@.dom().contains(key.deep_view()),
    {
        self.get(key).is_some()
    }

    /// Binds `key` to `uri`, replacing an earlier binding of `key`.
    pub fn insert(&mut self, key: Option<String>, uri: String)
        ensures
            final(self)@ == old(self)@.insert(key.deep_view(), uri@),
    {
        proof {
            use_type_invariant(&*self);
        }
        let ghost old_entries = self.entries();
        let ghost kv = key.deep_view();
        let ghost uv = uri@;
        let (i, found) = self.position(&key);
        let b = Binding { prefix: key, uri };
        let ghost bv = b@;
        let mut v: Vec<Binding> = Vec::new();
        std::mem::swap(&mut v, &mut self.bindings);
        assert(Seq::new(v@.len(), |j: int| v@[j]@) =~= old_entries);
        if found {
            v.set(i, b);
            proof {
                assert(Seq::new(v@.len(), |j: int| v@[j]@) =~= old_entries.update(i as int, bv));
                lemma_update_sorted(old_entries, i as int, bv);
            }
        } else {
            v.insert(i, b);
            proof {
                assert(Seq::new(v@.len(), |j: int| v@[j]@) =~= old_entries.insert(i as int, bv));
                lemma_insert_sorted(old_entries, i as int, bv);
            }
        }
        self.bindings = v;
    }

    /// Removes the binding of `key`, if any.
    pub fn remove(&mut self, key: &Option<String>)
        ensures
            final(self)@ == old(self)@.remove(key.deep_view()),
    {
        proof {
            use_type_invariant(&*self);
            lemma_map_of_sorted(self.entries());
        }
        let ghost old_entries = self.entries();
        let (i, found) = self.position(key);
        if found {
            let mut v: Vec<Binding> = Vec::new();
            std::mem::swap(&mut v, &mut self.bindings);
            assert(Seq::new(v@.len(), |j: int| v@[j]@) =~= old_entries);
            v.remove(i);
            proof {
                assert(Seq::new(v@.len(), |j: int| v@[j]@) =~= old_entries.remove(i as int));
                lemma_remove_sorted(old_entries, i as int);
            }
            self.bindings = v;
        } else {
            proof {
                if old(self)@.dom().contains(key.deep_view()) {
                    let j = choose|j: int|
                        0 <= j < old_entries.len() && old_entries[j].0 == key.deep_view();
                    lemma_key_lt_irreflexive(key.deep_view());
                }
                assert(old(self)@.remove(key.deep_view()) =~= old(self)@);
            }
        }
    }

    /// A copy of this scope.
    pub fn clone_scope(&self) -> (r: NamespaceScope)
        ensures
            r@ == self@,
    {
        proof {
            use_type_invariant(self);
        }
        let mut bindings: Vec<Binding> = Vec::new();
        let n = self.bindings.len();
        let mut i: usize = 0;
        while i < n
            invariant
                i <= n,
                n == self.bindings@.len(),
                bindings@.len() == i,
                forall|j: int| 0 <= j < i ==> #[trigger] bindings@[j]@ == self.bindings@[j]@,
            decreases n - i,
        {
            let b = &self.bindings[i];
            bindings.push(Binding { prefix: copy_opt_string(&b.prefix), uri: copy_string(&b.uri) });
            i = i + 1;
        }
        assert(Seq::new(bindings@.len(), |j: int| bindings@[j]@) =~= self.entries());
        let r = NamespaceScope { bindings };
        assert(r.entries() =~= self.entries());
        r
    }
}

impl View for NamespaceScope {
    type V = Map<KeyView, Seq<char>>;

    closed spec fn view(&self) -> Map<KeyView, Seq<char>> {
        map_of(self.entries())
    }
}

proof fn lemma_update_sorted(s: Seq<EntryView>, i: int, b: EntryView)
    requires
        sorted(s),
        0 <= i < s.len(),
        s[i].0 == b.0,
    ensures
        sorted(s.update(i, b)),
        map_of(s.update(i, b)) == map_of(s).insert(b.0, b.1),
{
    let t = s.update(i, b);
    assert forall|p: int, q: int| 0 <= p < q < t.len() implies key_lt(
        #[trigger] t[p].0,
        #[trigger] t[q].0,
    ) by {
        assert(s[p].0 == t[p].0);
        assert(s[q].0 == t[q].0);
    }
    lemma_map_of_sorted(s);
    lemma_map_of_sorted(t);
    assert forall|k: KeyView| #[trigger] map_of(t).dom().contains(k) == map_of(s).insert(
        b.0,
        b.1,
    ).dom().contains(k) by {
        if map_of(t).dom().contains(k) {
            let j = choose|j: int| 0 <= j < t.len() && t[j].0 == k;
            assert(s[j].0 == k);
        }
        if map_of(s).dom().contains(k) {
            let j = choose|j: int| 0 <= j < s.len() && s[j].0 == k;
            assert(t[j].0 == k);
        }
    }
    assert forall|k: KeyView| #[trigger] map_of(t).dom().contains(k) implies map_of(t)[k]
        == map_of(s).insert(b.0, b.1)[k] by {
        let j = choose|j: int| 0 <= j < t.len() && t[j].0 == k;
        assert(t[j] == t[j]);
        if j != i {
            assert(s[j] == t[j]);
            assert(s[j].0 != b.0) by {
                if j < i {
                    assert(key_lt(s[j].0, s[i].0));
                } else {
                    assert(key_lt(s[i].0, s[j].0));
                }
                lemma_key_lt_irreflexive(s[j].0);
            }
        }
    }
    assert(map_of(t) =~= map_of(s).insert(b.0, b.1));
}

proof fn lemma_insert_sorted(s: Seq<EntryView>, i: int, b: EntryView)
    requires
        sorted(s),
        0 <= i <= s.len(),
        forall|j: int| 0 <= j < i ==> key_lt(#[trigger] s[j].0, b.0),
        forall|j: int| i <= j < s.len() ==> key_lt(b.0, #[trigger] s[j].0),
    ensures
        sorted(s.insert(i, b)),
        map_of(s.insert(i, b)) == map_of(s).insert(b.0, b.1),
{
    let t = s.insert(i, b);
    assert forall|p: int, q: int| 0 <= p < q < t.len() implies key_lt(
        #[trigger] t[p].0,
        #[trigger] t[q].0,
    ) by {
        if q < i {
            assert(t[p] == s[p] && t[q] == s[q]);
        } else if q == i {
            assert(t[p] == s[p]);
        } else if p < i {
            assert(t[p] == s[p] && t[q] == s[q - 1]);
            lemma_key_lt_transitive(s[p].0, b.0, s[q - 1].0);
        } else if p == i {
            assert(t[q] == s[q - 1]);
        } else {
            assert(t[p] == s[p - 1] && t[q] == s[q - 1]);
        }
    }
    lemma_map_of_sorted(s);
    lemma_map_of_sorted(t);
    assert(t[i] == b);
    assert forall|k: KeyView| #[trigger] map_of(t).dom().contains(k) == map_of(s).insert(
        b.0,
        b.1,
    ).dom().contains(k) by {
        if map_of(t).dom().contains(k) {
            let j = choose|j: int| 0 <= j < t.len() && t[j].0 == k;
            if j < i {
                assert(s[j] == t[j]);
            } else if j > i {
                assert(s[j - 1] == t[j]);
            }
        }
        if map_of(s).dom().contains(k) {
            let j = choose|j: int| 0 <= j < s.len() && s[j].0 == k;
            if j < i {
                assert(t[j] == s[j]);
            } else {
                assert(t[j + 1] == s[j]);
            }
        }
    }
    assert forall|k: KeyView| #[trigger] map_of(t).dom().contains(k) implies map_of(t)[k]
        == map_of(s).insert(b.0, b.1)[k] by {
        let j = choose|j: int| 0 <= j < t.len() && t[j].0 == k;
        assert(t[j] == t[j]);
        if j < i {
            assert(s[j] == t[j]);
            lemma_key_lt_irreflexive(b.0);
        } else if j > i {
            assert(s[j - 1] == t[j]);
            lemma_key_lt_irreflexive(b.0);
        }
    }
    assert(map_of(t) =~= map_of(s).insert(b.0, b.1));
}

proof fn lemma_remove_sorted(s: Seq<EntryView>, i: int)
    requires
        sorted(s),
        0 <= i < s.len(),
    ensures
        sorted(s.remove(i)),
        map_of(s.remove(i)) == map_of(s).remove(s[i].0),
{
    let t = s.remove(i);
    assert forall|p: int, q: int| 0 <= p < q < t.len() implies key_lt(
        #[trigger] t[p].0,
        #[trigger] t[q].0,
    ) by {
        if q < i {
            assert(t[p] == s[p] && t[q] == s[q]);
        } else if p < i {
            assert(t[p] == s[p] && t[q] == s[q + 1]);
        } else {
            assert(t[p] == s[p + 1] && t[q] == s[q + 1]);
        }
    }
    lemma_map_of_sorted(s);
    lemma_map_of_sorted(t);
    let key = s[i].0;
    assert forall|k: KeyView| #[trigger] map_of(t).dom().contains(k) == map_of(s).remove(
        key,
    ).dom().contains(k) by {
        if map_of(t).dom().contains(k) {
            let j = choose|j: int| 0 <= j < t.len() && t[j].0 == k;
            if j < i {
                assert(s[j] == t[j]);
                assert(key_lt(s[j].0, key));
            } else {
                assert(s[j + 1] == t[j]);
                assert(key_lt(key, s[j + 1].0));
            }
            lemma_key_lt_irreflexive(key);
        }
        if map_of(s).remove(key).dom().contains(k) {
            let j = choose|j: int| 0 <= j < s.len() && s[j].0 == k;
            if j < i {
                assert(t[j] == s[j]);
            } else if j > i {
                assert(t[j - 1] == s[j]);
            }
        }
    }
    assert forall|k: KeyView| #[trigger] map_of(t).dom().contains(k) implies map_of(t)[k]
        == map_of(s).remove(key)[k] by {
        let j = choose|j: int| 0 <= j < t.len() && t[j].0 == k;
        assert(t[j] == t[j]);
        if j < i {
            assert(s[j] == t[j]);
        } else {
            assert(s[j + 1] == t[j]);
        }
    }
    assert(map_of(t) =~= map_of(s).remove(key));
}

} // verus!
