//! Namespace-aware Atom extensions.
//!
//! An extension name is identified by its expanded name: its namespace URI (if
//! any) and local name. The `preferred_prefix` field is serialization metadata,
//! excluded from semantic identity.
//!
//! When writing, declarations needed by an extension tree are synthesized, and
//! a valid prefix is selected when a preferred one cannot be used. A
//! write/parse round trip preserves expanded names, attributes, and
//! mixed-content order, but need not preserve source prefixes or declaration
//! placement.

use vstd::prelude::*;
use vstd::std_specs::cmp::PartialEqSpecImpl;

use crate::chars::{opt_str_eq, str_eq};

pub use crate::builders::{ExpandedNameBuilder, ExtensionAttributeBuilder, ExtensionBuilder};

verus! {

// ---------------------------------------------------------------------------
// Types
// ---------------------------------------------------------------------------

/// An XML expanded name: a namespace URI plus a local name.
///
/// The semantic identity is `(namespace_uri, local_name)`; equality ignores
/// `preferred_prefix`. Use `None` for an unqualified expanded name.
#[derive(Debug, Clone)]
pub struct ExpandedName {
    /// The namespace URI, if any.
    pub namespace_uri: Option<String>,
    /// The local part of the name.
    pub local_name: String,
    /// A serialization hint; it is not part of the expanded name.
    pub preferred_prefix: Option<String>,
}

/// An attribute of an [`Extension`]. Attribute identity is its [`ExpandedName`].
#[derive(Debug, Clone)]
pub struct ExtensionAttribute {
    /// The namespace-aware attribute name.
    pub name: ExpandedName,
    /// The attribute value.
    pub value: String,
}

/// Ordered mixed content within an [`Extension`].
///
/// Consecutive text items represent the same character data as their concatenation.
#[derive(Debug)]
pub enum ExtensionContent {
    /// Character data.
    Text(String),
    /// A child extension element.
    Element(Extension),
}

/// A namespace-aware extension element: an unordered, expanded-name-unique
/// collection of attributes, and ordered mixed content.
#[derive(Debug)]
pub struct Extension {
    /// The namespace-aware element name.
    pub name: ExpandedName,
    /// Attributes. Attribute order is not semantically meaningful.
    pub attributes: Vec<ExtensionAttribute>,
    /// Text and child elements in document order.
    pub content: Vec<ExtensionContent>,
}

impl Default for ExpandedName {
    fn default() -> (r: ExpandedName)
        ensures
            r@ == (NameView { namespace_uri: None, local_name: Seq::empty(), preferred_prefix: None }),
    {
        ExpandedName { namespace_uri: None, local_name: String::new(), preferred_prefix: None }
    }
}

impl Default for ExtensionAttribute {
    fn default() -> (r: ExtensionAttribute)
        ensures
            r@ == (AttributeView {
                name: NameView { namespace_uri: None, local_name: Seq::empty(), preferred_prefix: None },
                value: Seq::empty(),
            }),
    {
        ExtensionAttribute { name: ExpandedName::default(), value: String::new() }
    }
}

impl Default for Extension {
    fn default() -> (r: Extension)
        ensures
            r@ == (ExtensionView {
                name: NameView { namespace_uri: None, local_name: Seq::empty(), preferred_prefix: None },
                attributes: Seq::empty(),
                content: Seq::empty(),
            }),
    {
        let r = Extension { name: ExpandedName::default(), attributes: Vec::new(), content: Vec::new() };
        assert(attribute_views(r.attributes@) =~= Seq::<AttributeView>::empty());
        assert(r@.content =~= Seq::<ContentView>::empty());
        r
    }
}

// ---------------------------------------------------------------------------
// Views
// ---------------------------------------------------------------------------

/// The view of an [`ExpandedName`].
pub struct NameView {
    pub namespace_uri: Option<Seq<char>>,
    pub local_name: Seq<char>,
    pub preferred_prefix: Option<Seq<char>>,
}

/// The view of an [`ExtensionAttribute`].
pub struct AttributeView {
    pub name: NameView,
    pub value: Seq<char>,
}

/// The view of an [`ExtensionContent`].
pub enum ContentView {
    Text(Seq<char>),
    Element(ExtensionView),
}

/// The view of an [`Extension`].
pub struct ExtensionView {
    pub name: NameView,
    pub attributes: Seq<AttributeView>,
    pub content: Seq<ContentView>,
}

impl View for ExpandedName {
    type V = NameView;

    open spec fn view(&self) -> NameView {
        NameView {
            namespace_uri: self.namespace_uri.deep_view(),
            local_name: self.local_name@,
            preferred_prefix: self.preferred_prefix.deep_view(),
        }
    }
}

impl View for ExtensionAttribute {
    type V = AttributeView;

    open spec fn view(&self) -> AttributeView {
        AttributeView { name: self.name@, value: self.value@ }
    }
}

/// The views of a list of attributes.
pub open spec fn attribute_views(a: Seq<ExtensionAttribute>) -> Seq<AttributeView> {
    a.map_values(|x: ExtensionAttribute| x@)
}

/// The view of an extension.
pub open spec fn extension_view(e: Extension) -> ExtensionView
    decreases e, 1int,
{
    ExtensionView {
        name: e.name@,
        attributes: attribute_views(e.attributes@),
        content: Seq::new(e.content@.len(), |i: int| content_view_at(e, i)),
    }
}

/// The view of the `i`-th content item of an extension.
pub open spec fn content_view_at(e: Extension, i: int) -> ContentView
    decreases e, 0int,
{
    if 0 <= i < e.content@.len() {
        match e.content@[i] {
            ExtensionContent::Text(t) => ContentView::Text(t@),
            ExtensionContent::Element(c) => {
                proof {
                    assert(decreases_to!(e => e.content));
                    assert(decreases_to!(e.content => e.content@));
                }
                ContentView::Element(extension_view(c))
            },
        }
    } else {
        ContentView::Text(Seq::empty())
    }
}

impl View for Extension {
    type V = ExtensionView;

    open spec fn view(&self) -> ExtensionView {
        extension_view(*self)
    }
}

impl View for ExtensionContent {
    type V = ContentView;

    open spec fn view(&self) -> ContentView {
        match self {
            ExtensionContent::Text(t) => ContentView::Text(t@),
            ExtensionContent::Element(e) => ContentView::Element(e@),
        }
    }
}

/// The views of a list of content items.
pub open spec fn content_views(c: Seq<ExtensionContent>) -> Seq<ContentView> {
    c.map_values(|x: ExtensionContent| x@)
}

/// An extension's content view is the views of its items.
pub proof fn lemma_content_view(e: Extension)
    ensures
        e@.content == content_views(e.content@),
{
    assert(e@.content =~= content_views(e.content@));
}

// ---------------------------------------------------------------------------
// Semantic equality
// ---------------------------------------------------------------------------

/// Two names denote the same expanded name (the prefix is ignored).
pub open spec fn same_expanded_name(a: NameView, b: NameView) -> bool {
    a.namespace_uri == b.namespace_uri && a.local_name == b.local_name
}

/// The identity of an attribute: its expanded name and its value.
pub open spec fn attribute_key(a: AttributeView) -> (Option<Seq<char>>, Seq<char>, Seq<char>) {
    (a.name.namespace_uri, a.name.local_name, a.value)
}

/// The attribute identities of a list of attributes.
pub open spec fn attribute_keys(a: Seq<AttributeView>) -> Seq<
    (Option<Seq<char>>, Seq<char>, Seq<char>),
> {
    a.map_values(|x: AttributeView| attribute_key(x))
}

/// Two attribute lists hold the same (expanded name, value) pairs with the
/// same multiplicities, in any order.
pub open spec fn same_attributes(l: Seq<AttributeView>, r: Seq<AttributeView>) -> bool {
    attribute_keys(l).to_multiset() == attribute_keys(r).to_multiset()
}

/// The character data of the leading run of text items, and how many items it spans.
pub open spec fn text_run(s: Seq<ContentView>) -> (Seq<char>, nat)
    decreases s.len(),
{
    if s.len() > 0 && s[0] is Text {
        let rest = text_run(s.drop_first());
        (s[0]->Text_0 + rest.0, rest.1 + 1)
    } else {
        (Seq::empty(), 0)
    }
}

pub proof fn lemma_text_run_bounds(s: Seq<ContentView>)
    ensures
        text_run(s).1 <= s.len(),
        s.len() > 0 && s[0] is Text ==> text_run(s).1 >= 1,
        forall|i: int| 0 <= i < text_run(s).1 ==> #[trigger] s[i] is Text,
        text_run(s).1 < s.len() ==> !(s[text_run(s).1 as int] is Text),
    decreases s.len(),
{
    if s.len() > 0 && s[0] is Text {
        lemma_text_run_bounds(s.drop_first());
        assert forall|i: int| 0 <= i < text_run(s).1 implies #[trigger] s[i] is Text by {
            if i > 0 {
                assert(s[i] == s.drop_first()[i - 1]);
            }
        }
        if text_run(s).1 < s.len() {
            assert(s[text_run(s).1 as int] == s.drop_first()[text_run(s.drop_first()).1 as int]);
        }
    }
}

/// Two content lists are the same mixed content: element for element
/// equivalent, and with the same character data between elements, however it
/// is split into text items.
pub open spec fn same_content(l: Seq<ContentView>, r: Seq<ContentView>) -> bool
    decreases l,
{
    if l.len() == 0 || r.len() == 0 {
        l.len() == 0 && r.len() == 0
    } else {
        match (l[0], r[0]) {
            (ContentView::Element(a), ContentView::Element(b)) => {
                proof {
                    assert(l.drop_first() == l.subrange(1, l.len() as int));
                }
                equivalent(a, b) && same_content(l.drop_first(), r.drop_first())
            },
            (ContentView::Text(_), ContentView::Text(_)) => {
                let (lt, ln) = text_run(l);
                let (rt, rn) = text_run(r);
                proof {
                    lemma_text_run_bounds(l);
                    assert(l.skip(ln as int) == l.subrange(ln as int, l.len() as int));
                }
                lt == rt && same_content(l.skip(ln as int), r.skip(rn as int))
            },
            _ => false,
        }
    }
}

/// Semantic equality of extensions: the same expanded name, the same
/// attributes in any order, and the same mixed content.
pub open spec fn equivalent(a: ExtensionView, b: ExtensionView) -> bool
    decreases a,
{
    &&& same_expanded_name(a.name, b.name)
    &&& same_attributes(a.attributes, b.attributes)
    &&& same_content(a.content, b.content)
}


// ---------------------------------------------------------------------------
// Executable equality
// ---------------------------------------------------------------------------

/// Whether two names denote the same expanded name.
pub fn names_equal(a: &ExpandedName, b: &ExpandedName) -> (r: bool)
    ensures
        r == same_expanded_name(a@, b@),
{
    opt_str_eq(&a.namespace_uri, &b.namespace_uri) && str_eq(
        a.local_name.as_str(),
        b.local_name.as_str(),
    )
}

/// Whether two attributes have the same expanded name and value.
fn attribute_matches(a: &ExtensionAttribute, b: &ExtensionAttribute) -> (r: bool)
    ensures
        r == (attribute_key(a@) == attribute_key(b@)),
{
    names_equal(&a.name, &b.name) && str_eq(a.value.as_str(), b.value.as_str())
}

/// Compares attributes as an unordered multiset of expanded names and values.
pub fn attributes_equal(left: &Vec<ExtensionAttribute>, right: &Vec<ExtensionAttribute>) -> (r:
    bool)
    ensures
        r == same_attributes(attribute_views(left@), attribute_views(right@)),
{
    broadcast use vstd::seq_lib::group_to_multiset_ensures, vstd::multiset::group_multiset_axioms;

    let ghost lk = attribute_keys(attribute_views(left@));
    let ghost rk = attribute_keys(attribute_views(right@));
    let n = left.len();
    if n != right.len() {
        proof {
            assert(lk.to_multiset().len() == lk.len());
            assert(rk.to_multiset().len() == rk.len());
        }
        return false;
    }
    // Indices of the left attributes not yet matched by a right attribute.
    let mut remaining: Vec<usize> = Vec::new();
    let mut k: usize = 0;
    while k < n
        invariant
            k <= n,
            n == left@.len(),
            remaining@ == Seq::new(k as nat, |x: int| x as usize),
        decreases n - k,
    {
        remaining.push(k);
        assert(remaining@ =~= Seq::new((k + 1) as nat, |x: int| x as usize));
        k = k + 1;
    }
    assert(remaining@.map_values(|x: usize| lk[x as int]) =~= lk);
    let mut j: usize = 0;
    while j < n
        invariant
            j <= n,
            n == left@.len(),
            n == right@.len(),
            lk.len() == n,
            rk.len() == n,
            lk == attribute_keys(attribute_views(left@)),
            rk == attribute_keys(attribute_views(right@)),
            remaining@.len() == n - j,
            forall|x: int| 0 <= x < remaining@.len() ==> #[trigger] remaining@[x] < n,
            remaining@.map_values(|x: usize| lk[x as int]).to_multiset().add(
                rk.take(j as int).to_multiset(),
            ) == lk.to_multiset(),
        decreases n - j,
    {
        let ghost rem = remaining@.map_values(|x: usize| lk[x as int]);
        let mut found: Option<usize> = None;
        let mut p: usize = 0;
        while p < remaining.len() && found.is_none()
            invariant
                p <= remaining@.len(),
                j < n,
                n == left@.len(),
                n == right@.len(),
                lk == attribute_keys(attribute_views(left@)),
                rk == attribute_keys(attribute_views(right@)),
                forall|x: int| 0 <= x < remaining@.len() ==> #[trigger] remaining@[x] < n,
                rem == remaining@.map_values(|x: usize| lk[x as int]),
                found matches Some(q) ==> q < remaining@.len() && rem[q as int] == rk[j as int],
                found is None ==> forall|x: int| 0 <= x < p ==> #[trigger] rem[x] != rk[j as int],
            decreases remaining@.len() - p,
        {
            if attribute_matches(&left[remaining[p]], &right[j]) {
                found = Some(p);
            }
            p = p + 1;
        }
        match found {
            Some(p) => {
                proof {
                    assert(rem[p as int] == rk[j as int]);
                    assert(remaining@.remove(p as int).map_values(|x: usize| lk[x as int])
                        =~= rem.remove(p as int));
                    assert(rk.take(j + 1) =~= rk.take(j as int).push(rk[j as int]));
                    assert(rem.contains(rk[j as int]));
                    vstd::seq_lib::to_multiset_contains(rem, rk[j as int]);
                    vstd::seq_lib::to_multiset_remove(rem, p as int);
                    vstd::seq_lib::to_multiset_build(rk.take(j as int), rk[j as int]);
                    assert(rem.remove(p as int).to_multiset() == rem.to_multiset().remove(
                        rk[j as int],
                    ));
                    assert(rk.take(j + 1).to_multiset() == rk.take(j as int).to_multiset().insert(
                        rk[j as int],
                    ));
                    assert(rem.remove(p as int).to_multiset().add(rk.take(j + 1).to_multiset())
                        =~= rem.to_multiset().add(rk.take(j as int).to_multiset()));
                }
                remaining.remove(p);
                j = j + 1;
            },
            None => {
                proof {
                    let key = rk[j as int];
                    assert(!rem.contains(key)) by {
                        if rem.contains(key) {
                            let x = choose|x: int| 0 <= x < rem.len() && rem[x] == key;
                        }
                    }
                    vstd::seq_lib::to_multiset_contains(rem, key);
                    assert(rem.to_multiset().count(key) == 0);
                    assert(rk.take(j + 1) =~= rk.take(j as int).push(key));
                    assert(rk =~= rk.take(j + 1) + rk.skip(j + 1));
                    vstd::seq_lib::lemma_multiset_commutative(rk.take(j + 1), rk.skip(j + 1));
                    vstd::seq_lib::to_multiset_build(rk.take(j as int), key);
                    assert(lk.to_multiset().count(key) < rk.to_multiset().count(key));
                }
                return false;
            },
        }
    }
    proof {
        assert(remaining@.map_values(|x: usize| lk[x as int]) =~= Seq::<
            (Option<Seq<char>>, Seq<char>, Seq<char>),
        >::empty());
        assert(rk.take(n as int) =~= rk);
        assert(Seq::<(Option<Seq<char>>, Seq<char>, Seq<char>)>::empty().to_multiset().add(
            rk.to_multiset(),
        ) =~= rk.to_multiset());
    }
    true
}

/// Concatenates the run of text items starting at `start`; returns the text and
/// the index just past the run.
fn collect_text_run(content: &Vec<ExtensionContent>, start: usize) -> (r: (String, usize))
    requires
        start <= content@.len(),
    ensures
        r.0@ == text_run(content_views(content@).skip(start as int)).0,
        r.1 == start + text_run(content_views(content@).skip(start as int)).1,
{
    let ghost cv = content_views(content@);
    let mut text = String::new();
    let mut k = start;
    let mut in_run = true;
    while k < content.len() && in_run
        invariant
            start <= k <= content@.len(),
            cv == content_views(content@),
            text_run(cv.skip(start as int)).0 == text@ + text_run(cv.skip(k as int)).0,
            text_run(cv.skip(start as int)).1 == (k - start) + text_run(cv.skip(k as int)).1,
            !in_run ==> k < content@.len() && cv[k as int] is Element,
        decreases content@.len() - k + (if in_run { 1int } else { 0int }),
    {
        match &content[k] {
            ExtensionContent::Text(t) => {
                assert(cv.skip(k as int).drop_first() =~= cv.skip(k + 1));
                assert(cv.skip(k as int)[0] == cv[k as int]);
                text.append(t.as_str());
                assert(text_run(cv.skip(start as int)).0 =~= text@ + text_run(
                    cv.skip(k + 1),
                ).0);
                k = k + 1;
            },
            ExtensionContent::Element(_) => {
                in_run = false;
            },
        }
    }
    if k < content.len() {
        assert(cv.skip(k as int)[0] == cv[k as int]);
    }
    assert(text_run(cv.skip(k as int)).0 =~= Seq::<char>::empty());
    (text, k)
}

/// Compares ordered mixed content by expanded element identity and character
/// data; adjacent text items compare as their concatenation.
pub fn content_equal(left: &Vec<ExtensionContent>, right: &Vec<ExtensionContent>) -> (r: bool)
    ensures
        r == same_content(content_views(left@), content_views(right@)),
    decreases left,
{
    let ghost lv = content_views(left@);
    let ghost rv = content_views(right@);
    let mut i: usize = 0;
    let mut j: usize = 0;
    assert(lv.skip(0) =~= lv);
    assert(rv.skip(0) =~= rv);
    while i < left.len() && j < right.len()
        invariant
            i <= left@.len(),
            j <= right@.len(),
            lv == content_views(left@),
            rv == content_views(right@),
            same_content(lv, rv) == same_content(lv.skip(i as int), rv.skip(j as int)),
        decreases left@.len() - i,
    {
        let ghost ls = lv.skip(i as int);
        let ghost rs = rv.skip(j as int);
        assert(ls[0] == lv[i as int]);
        assert(rs[0] == rv[j as int]);
        match (&left[i], &right[j]) {
            (ExtensionContent::Element(a), ExtensionContent::Element(b)) => {
                assert(decreases_to!(left => left@));
                if !extension_equal(a, b) {
                    return false;
                }
                assert(ls.drop_first() =~= lv.skip(i + 1));
                assert(rs.drop_first() =~= rv.skip(j + 1));
                i = i + 1;
                j = j + 1;
            },
            (ExtensionContent::Text(_), ExtensionContent::Text(_)) => {
                let (lt, ni) = collect_text_run(left, i);
                let (rt, nj) = collect_text_run(right, j);
                proof {
                    lemma_text_run_bounds(ls);
                    lemma_text_run_bounds(rs);
                }
                if !str_eq(lt.as_str(), rt.as_str()) {
                    return false;
                }
                assert(ls.skip(text_run(ls).1 as int) =~= lv.skip(ni as int));
                assert(rs.skip(text_run(rs).1 as int) =~= rv.skip(nj as int));
                i = ni;
                j = nj;
            },
            _ => {
                return false;
            },
        }
    }
    i == left.len() && j == right.len()
}

/// Semantic equality of extensions.
pub fn extension_equal(a: &Extension, b: &Extension) -> (r: bool)
    ensures
        r == equivalent(a@, b@),
    decreases a,
{
    proof {
        lemma_content_view(*a);
        lemma_content_view(*b);
    }
    names_equal(&a.name, &b.name) && attributes_equal(&a.attributes, &b.attributes)
        && content_equal(&a.content, &b.content)
}

impl PartialEq for ExpandedName {
    fn eq(&self, other: &Self) -> (r: bool) {
        names_equal(self, other)
    }
}

impl PartialEqSpecImpl for ExpandedName {
    open spec fn obeys_eq_spec() -> bool {
        true
    }

    open spec fn eq_spec(&self, other: &Self) -> bool {
        same_expanded_name(self@, other@)
    }
}

impl Eq for ExpandedName {

}

impl PartialEq for ExtensionAttribute {
    fn eq(&self, other: &Self) -> (r: bool) {
        attribute_matches(self, other)
    }
}

impl PartialEqSpecImpl for ExtensionAttribute {
    open spec fn obeys_eq_spec() -> bool {
        true
    }

    open spec fn eq_spec(&self, other: &Self) -> bool {
        attribute_key(self@) == attribute_key(other@)
    }
}

impl Eq for ExtensionAttribute {

}

impl PartialEq for Extension {
    fn eq(&self, other: &Self) -> (r: bool) {
        extension_equal(self, other)
    }
}

impl PartialEqSpecImpl for Extension {
    open spec fn obeys_eq_spec() -> bool {
        true
    }

    open spec fn eq_spec(&self, other: &Self) -> bool {
        equivalent(self@, other@)
    }
}

impl Eq for Extension {

}

/// Content items compare text by characters and elements semantically.
pub open spec fn same_item(a: ContentView, b: ContentView) -> bool {
    match (a, b) {
        (ContentView::Text(x), ContentView::Text(y)) => x == y,
        (ContentView::Element(x), ContentView::Element(y)) => equivalent(x, y),
        _ => false,
    }
}

impl PartialEq for ExtensionContent {
    fn eq(&self, other: &Self) -> (r: bool) {
        match (self, other) {
            (ExtensionContent::Text(x), ExtensionContent::Text(y)) => str_eq(x.as_str(), y.as_str()),
            (ExtensionContent::Element(x), ExtensionContent::Element(y)) => extension_equal(x, y),
            _ => false,
        }
    }
}

impl PartialEqSpecImpl for ExtensionContent {
    open spec fn obeys_eq_spec() -> bool {
        true
    }

    open spec fn eq_spec(&self, other: &Self) -> bool {
        same_item(self@, other@)
    }
}

impl Eq for ExtensionContent {

}

/// Two content items are equal (`==`, which is [`same_item`] of their views)
/// only when they are of one kind; two text items exactly when their strings
/// are equal; two elements only when they have the same expanded name.
pub proof fn law_content_item_equality(a: ExtensionContent, b: ExtensionContent)
    ensures
        same_item(a@, b@) ==> (a is Text <==> b is Text),
        (a matches ExtensionContent::Text(x)) && (b matches ExtensionContent::Text(y)) ==> (same_item(a@, b@)
            <==> a->Text_0@ == b->Text_0@),
        (a matches ExtensionContent::Element(x)) && (b matches ExtensionContent::Element(y)) && same_item(a@, b@)
            ==> same_expanded_name(a->Element_0@.name, b->Element_0@.name),
{
}

/// Text items with different strings are never equal: equality of content
/// items tells their character data apart.
pub proof fn law_different_text_items_differ(x: Seq<char>, y: Seq<char>)
    requires
        x != y,
    ensures
        !same_item(ContentView::Text(x), ContentView::Text(y)),
{
}

// ---------------------------------------------------------------------------
// Copies
// ---------------------------------------------------------------------------

/// A copy of a name.
pub fn copy_name(n: &ExpandedName) -> (r: ExpandedName)
    ensures
        r@ == n@,
{
    ExpandedName {
        namespace_uri: crate::chars::copy_opt_string(&n.namespace_uri),
        local_name: crate::chars::copy_string(&n.local_name),
        preferred_prefix: crate::chars::copy_opt_string(&n.preferred_prefix),
    }
}

/// A deep copy of an extension.
pub fn copy_extension(e: &Extension) -> (r: Extension)
    ensures
        r@ == e@,
    decreases e,
{
    let mut attributes: Vec<ExtensionAttribute> = Vec::new();
    let n = e.attributes.len();
    let mut i: usize = 0;
    while i < n
        invariant
            i <= n,
            n == e.attributes@.len(),
            attributes@.len() == i,
            forall|k: int| 0 <= k < i ==> #[trigger] attributes@[k]@ == e.attributes@[k]@,
        decreases n - i,
    {
        let a = &e.attributes[i];
        attributes.push(
            ExtensionAttribute { name: copy_name(&a.name), value: crate::chars::copy_string(&a.value) },
        );
        i = i + 1;
    }
    let mut content: Vec<ExtensionContent> = Vec::new();
    let m = e.content.len();
    let mut k: usize = 0;
    while k < m
        invariant
            k <= m,
            m == e.content@.len(),
            content@.len() == k,
            forall|x: int| 0 <= x < k ==> #[trigger] content@[x]@ == e.content@[x]@,
        decreases m - k,
    {
        let item = match &e.content[k] {
            ExtensionContent::Text(t) => ExtensionContent::Text(crate::chars::copy_string(t)),
            ExtensionContent::Element(c) => {
                assert(decreases_to!(e => e.content));
                assert(decreases_to!(e.content => e.content@));
                ExtensionContent::Element(copy_extension(c))
            },
        };
        content.push(item);
        k = k + 1;
    }
    let r = Extension { name: copy_name(&e.name), attributes, content };
    proof {
        lemma_content_view(r);
        lemma_content_view(*e);
        assert(attribute_views(r.attributes@) =~= attribute_views(e.attributes@));
        assert(content_views(r.content@) =~= content_views(e.content@));
    }
    r
}

impl Clone for Extension {
    fn clone(&self) -> (r: Self)
        ensures
            r@ == self@,
    {
        copy_extension(self)
    }
}

impl Clone for ExtensionContent {
    fn clone(&self) -> (r: Self)
        ensures
            r@ == self@,
    {
        match self {
            ExtensionContent::Text(t) => ExtensionContent::Text(crate::chars::copy_string(t)),
            ExtensionContent::Element(e) => ExtensionContent::Element(copy_extension(e)),
        }
    }
}

/// A copy of a list of extensions.
pub fn copy_extensions(v: &Vec<Extension>) -> (r: Vec<Extension>)
    ensures
        r@.len() == v@.len(),
        forall|i: int| 0 <= i < v@.len() ==> #[trigger] r@[i]@ == v@[i]@,
{
    let mut out: Vec<Extension> = Vec::new();
    let n = v.len();
    let mut i: usize = 0;
    while i < n
        invariant
            i <= n,
            n == v@.len(),
            out@.len() == i,
            forall|k: int| 0 <= k < i ==> #[trigger] out@[k]@ == v@[k]@,
        decreases n - i,
    {
        out.push(copy_extension(&v[i]));
        i = i + 1;
    }
    out
}

} // verus!
