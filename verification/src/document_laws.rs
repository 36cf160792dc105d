//! Reading back the persons, entries and feeds that this library writes.
//!
//! Read back, a written person, entry or feed has every field it was written
//! with; its extensions come back equivalent (see [`equivalent`]).

use vstd::prelude::*;

use crate::chars::is_ncname;
use crate::equivalence::lemma_equivalent_normal;
use crate::error::ErrorView;
use crate::extension::{equivalent, ExtensionView};
use crate::extension_writer::write_extension;
use crate::namespace::{
    classify_extension, declaration_violation, declared_prefix,
    declared_scope, element_scope,
    lemma_namespace_literals, parse_element, xml_word, xmlns_colon, xmlns_word, ATOM_NAMESPACE,
    XML_NAMESPACE,
};
use crate::person::{empty_person, parse_person, parse_person_body, person_events, PersonView};
use crate::entry::{
    empty_entry, entry_child, entry_events, parse_entry, parse_entry_body, parse_entry_document,
    persons_events, standalone_attributes, EntryView,
};
use crate::roundtrip::{
    lemma_element_roundtrip, lemma_skip_own, lemma_split_plain, lemma_written_is_extension,
    reader_scope, writer_scope_ok,
};
use crate::scope::KeyView;
use crate::toxml::{
    atom_scope, extensions_events, optional_text_element_events, text_element_events,
};
use crate::util::{element_text, skip_to_end};
use crate::elements::{
    attribute_value, category_attributes, generator_attributes, optional_attributes,
    parse_category, parse_link, parse_text, CategoryView, GeneratorView, LinkView,
};
use crate::feed::{
    categories_events, empty_feed, entries_events, feed_attributes, feed_child, feed_events,
    feed_head, feed_middle, generator_events, link_attributes, links_events, parse_feed,
    parse_feed_body, parse_feed_document, FeedView,
};
use crate::xml::{AttributeEventView, EventView};

verus! {

// ---------------------------------------------------------------------------
// Where events stand
// ---------------------------------------------------------------------------

/// The scope in which the children of a feed or an entry written by this
/// library are read.
pub open spec fn child_scope() -> Map<KeyView, Seq<char>> {
    reader_scope(atom_scope())
}

/// The events `seg` stand in `ev` at `j`.
pub open spec fn at(ev: Seq<EventView>, j: int, seg: Seq<EventView>) -> bool {
    0 <= j && j + seg.len() <= ev.len() && ev.subrange(j, j + seg.len()) == seg
}

proof fn lemma_at_split(ev: Seq<EventView>, j: int, a: Seq<EventView>, b: Seq<EventView>)
    requires
        at(ev, j, a + b),
    ensures
        at(ev, j, a),
        at(ev, j + a.len(), b),
{
    let ab = a + b;
    assert forall|k: int| 0 <= k < a.len() implies #[trigger] ev.subrange(j, j + a.len())[k] == a[k] by {
        assert(ev.subrange(j, j + ab.len())[k] == ab[k]);
    }
    assert(ev.subrange(j, j + a.len()) =~= a);
    assert forall|k: int| 0 <= k < b.len() implies #[trigger] ev.subrange(j + a.len(), j + a.len() + b.len())[k]
        == b[k] by {
        assert(ev.subrange(j, j + ab.len())[a.len() + k] == ab[a.len() + k]);
    }
    assert(ev.subrange(j + a.len(), j + a.len() + b.len()) =~= b);
}

proof fn lemma_at_index(ev: Seq<EventView>, j: int, seg: Seq<EventView>, k: int)
    requires
        at(ev, j, seg),
        0 <= k < seg.len(),
    ensures
        ev[j + k] == seg[k],
{
    assert(ev.subrange(j, j + seg.len())[k] == seg[k]);
}

// ---------------------------------------------------------------------------
// Atom children
// ---------------------------------------------------------------------------

/// A name made of lower-case ASCII letters.
pub open spec fn lower_name(s: Seq<char>) -> bool {
    s.len() > 0 && forall|i: int| 0 <= i < s.len() ==> 'a' <= #[trigger] s[i] <= 'z'
}

/// An attribute name that cannot be a declaration: it does not begin with `x`.
pub open spec fn plain_key(k: Seq<char>) -> bool {
    k.len() > 0 && k[0] != 'x'
}

proof fn lemma_child_scope()
    ensures
        child_scope().dom().contains(None),
        child_scope()[None] == ATOM_NAMESPACE@,
        child_scope().insert(Some(xml_word()), XML_NAMESPACE@) == child_scope(),
        writer_scope_ok(atom_scope()),
{
    assert(child_scope().insert(Some(xml_word()), XML_NAMESPACE@) =~= child_scope());
    assert(atom_scope().dom() =~= set![None::<Seq<char>>]);
}

/// An unprefixed lower-case child, with no declaration among its attributes,
/// is an Atom child where the Atom namespace is the default.
proof fn lemma_core_child(name: Seq<char>, attrs: Seq<AttributeEventView>)
    requires
        lower_name(name),
        forall|i: int| 0 <= i < attrs.len() ==> plain_key(#[trigger] attrs[i].0),
    ensures
        element_scope(attrs, child_scope()) == Ok::<Map<KeyView, Seq<char>>, ErrorView>(child_scope()),
        classify_extension(name, attrs, child_scope()) == Ok::<bool, ErrorView>(false),
{
    lemma_child_scope();
    let s = child_scope();
    assert forall|j: int| 0 <= j < attrs.len() implies declared_prefix((#[trigger] attrs[j]).0) is None by {
        let k = attrs[j].0;
        assert(xmlns_word()[0] == 'x');
        assert(xmlns_colon()[0] == 'x');
        if k.len() >= 6 && k.take(6) == xmlns_colon() {
            assert(k.take(6)[0] == k[0]);
        }
    }
    lemma_skip_own(attrs, 0, attrs.len() as int, s);
    assert(is_ncname(name));
    lemma_split_plain(name);
}

/// Reading the text element `<name>text</name>` where it stands.
proof fn lemma_text_element(ev: Seq<EventView>, j: int, name: Seq<char>, t: Seq<char>)
    requires
        at(ev, j, text_element_events(name, t)),
    ensures
        ev[j] == (EventView::Start { name, attributes: seq![] }),
        element_text(ev, j + 1, 0, None) == Ok::<(Option<Seq<char>>, int), ErrorView>((Some(t), j + 3)),
        parse_text(ev, j + 1) == Ok::<(Seq<char>, int), ErrorView>((t, j + 3)),
{
    let seg = text_element_events(name, t);
    lemma_at_index(ev, j, seg, 0);
    lemma_at_index(ev, j, seg, 1);
    lemma_at_index(ev, j, seg, 2);
    reveal_with_fuel(element_text, 3);
}

/// Skipping the empty element `<name .../>` where it stands.
proof fn lemma_empty_element(ev: Seq<EventView>, j: int)
    requires
        0 <= j,
        j + 2 <= ev.len(),
        ev[j + 1] is End,
    ensures
        skip_to_end(ev, j + 1, 0) == Ok::<int, ErrorView>(j + 2),
{
}

// ---------------------------------------------------------------------------
// Extensions among the children
// ---------------------------------------------------------------------------

/// Each extension of `a` is equivalent to the one of `b` at the same place.
pub open spec fn same_extensions(a: Seq<ExtensionView>, b: Seq<ExtensionView>) -> bool {
    a.len() == b.len() && forall|i: int| 0 <= i < a.len() ==> equivalent(#[trigger] a[i], b[i])
}

/// A written extension read where it stands among children.
proof fn lemma_child_extension(ev: Seq<EventView>, j: int, x: ExtensionView) -> (x2: ExtensionView)
    requires
        write_extension(x, atom_scope()) is Ok,
        at(ev, j, write_extension(x, atom_scope())->Ok_0),
    ensures
        ev[j] matches EventView::Start { name, attributes } && classify_extension(name, attributes, child_scope())
            == Ok::<bool, ErrorView>(true),
        parse_element(ev, j, child_scope()) == Ok::<(ExtensionView, int), ErrorView>(
            (x2, j + write_extension(x, atom_scope())->Ok_0.len()),
        ),
        equivalent(x2, x),
        write_extension(x, atom_scope())->Ok_0.len() >= 2,
{
    lemma_child_scope();
    let wx = write_extension(x, atom_scope())->Ok_0;
    lemma_element_roundtrip(x, atom_scope(), ev, j);
    lemma_written_is_extension(x, atom_scope());
    lemma_at_index(ev, j, wx, 0);
    let x2 = parse_element(ev, j, child_scope())->Ok_0.0;
    lemma_equivalent_normal(x2, x);
    x2
}

// ---------------------------------------------------------------------------
// Persons
// ---------------------------------------------------------------------------

/// A person read back: the same fields, with equivalent extensions.
pub open spec fn same_person(a: PersonView, b: PersonView) -> bool {
    a.name == b.name && a.email == b.email && a.uri == b.uri && same_extensions(a.extensions, b.extensions)
}

proof fn lemma_person_extensions(ev: Seq<EventView>, j: int, xs: Seq<ExtensionView>, acc: PersonView) -> (xs2:
    Seq<ExtensionView>)
    requires
        extensions_events(xs, atom_scope()) is Ok,
        at(ev, j, extensions_events(xs, atom_scope())->Ok_0),
    ensures
        same_extensions(xs2, xs),
        parse_person_body(ev, j, child_scope(), acc) == parse_person_body(
            ev,
            j + extensions_events(xs, atom_scope())->Ok_0.len(),
            child_scope(),
            PersonView { extensions: acc.extensions + xs2, ..acc },
        ),
    decreases xs.len(),
{
    if xs.len() == 0 {
        assert(acc.extensions + Seq::<ExtensionView>::empty() =~= acc.extensions);
        assert(PersonView { extensions: acc.extensions + Seq::<ExtensionView>::empty(), ..acc } == acc);
        seq![]
    } else {
        let wx = write_extension(xs[0], atom_scope())->Ok_0;
        let rest = extensions_events(xs.drop_first(), atom_scope())->Ok_0;
        lemma_at_split(ev, j, wx, rest);
        let x2 = lemma_child_extension(ev, j, xs[0]);
        let acc2 = PersonView { extensions: acc.extensions.push(x2), ..acc };
        let tail = lemma_person_extensions(ev, j + wx.len(), xs.drop_first(), acc2);
        let xs2 = seq![x2] + tail;
        assert(acc2.extensions + tail =~= acc.extensions + xs2);
        assert forall|i: int| 0 <= i < xs2.len() implies equivalent(#[trigger] xs2[i], xs[i]) by {
            if i > 0 {
                assert(xs2[i] == tail[i - 1]);
                assert(xs[i] == xs.drop_first()[i - 1]);
            }
        }
        xs2
    }
}

/// The names that persons are written with.
proof fn lemma_names()
    ensures
        lower_name("name"@),
        lower_name("email"@),
        lower_name("uri"@),
        "name"@ != "email"@,
        "name"@ != "uri"@,
        "email"@ != "uri"@,
{
    reveal_strlit("name");
    reveal_strlit("email");
    reveal_strlit("uri");
}

/// The names of the children of feeds and entries: lower-case, and distinct.
proof fn lemma_child_names()
    ensures
        lower_name("title"@),
        lower_name("rights"@),
        lower_name("subtitle"@),
        lower_name("id"@),
        lower_name("updated"@),
        lower_name("icon"@),
        lower_name("logo"@),
        lower_name("author"@),
        lower_name("contributor"@),
        lower_name("generator"@),
        lower_name("entry"@),
        lower_name("category"@),
        lower_name("link"@),
        "title"@ != "rights"@,
        "title"@ != "subtitle"@,
        "title"@ != "id"@,
        "title"@ != "updated"@,
        "title"@ != "icon"@,
        "title"@ != "logo"@,
        "title"@ != "author"@,
        "title"@ != "contributor"@,
        "title"@ != "generator"@,
        "title"@ != "entry"@,
        "title"@ != "category"@,
        "title"@ != "link"@,
        "rights"@ != "subtitle"@,
        "rights"@ != "id"@,
        "rights"@ != "updated"@,
        "rights"@ != "icon"@,
        "rights"@ != "logo"@,
        "rights"@ != "author"@,
        "rights"@ != "contributor"@,
        "rights"@ != "generator"@,
        "rights"@ != "entry"@,
        "rights"@ != "category"@,
        "rights"@ != "link"@,
        "subtitle"@ != "id"@,
        "subtitle"@ != "updated"@,
        "subtitle"@ != "icon"@,
        "subtitle"@ != "logo"@,
        "subtitle"@ != "author"@,
        "subtitle"@ != "contributor"@,
        "subtitle"@ != "generator"@,
        "subtitle"@ != "entry"@,
        "subtitle"@ != "category"@,
        "subtitle"@ != "link"@,
        "id"@ != "updated"@,
        "id"@ != "icon"@,
        "id"@ != "logo"@,
        "id"@ != "author"@,
        "id"@ != "contributor"@,
        "id"@ != "generator"@,
        "id"@ != "entry"@,
        "id"@ != "category"@,
        "id"@ != "link"@,
        "updated"@ != "icon"@,
        "updated"@ != "logo"@,
        "updated"@ != "author"@,
        "updated"@ != "contributor"@,
        "updated"@ != "generator"@,
        "updated"@ != "entry"@,
        "updated"@ != "category"@,
        "updated"@ != "link"@,
        "icon"@ != "logo"@,
        "icon"@ != "author"@,
        "icon"@ != "contributor"@,
        "icon"@ != "generator"@,
        "icon"@ != "entry"@,
        "icon"@ != "category"@,
        "icon"@ != "link"@,
        "logo"@ != "author"@,
        "logo"@ != "contributor"@,
        "logo"@ != "generator"@,
        "logo"@ != "entry"@,
        "logo"@ != "category"@,
        "logo"@ != "link"@,
        "author"@ != "contributor"@,
        "author"@ != "generator"@,
        "author"@ != "entry"@,
        "author"@ != "category"@,
        "author"@ != "link"@,
        "contributor"@ != "generator"@,
        "contributor"@ != "entry"@,
        "contributor"@ != "category"@,
        "contributor"@ != "link"@,
        "generator"@ != "entry"@,
        "generator"@ != "category"@,
        "generator"@ != "link"@,
        "entry"@ != "category"@,
        "entry"@ != "link"@,
        "category"@ != "link"@,
{
    reveal_strlit("title");
    reveal_strlit("rights");
    reveal_strlit("subtitle");
    reveal_strlit("id");
    reveal_strlit("updated");
    reveal_strlit("icon");
    reveal_strlit("logo");
    reveal_strlit("author");
    reveal_strlit("contributor");
    reveal_strlit("generator");
    reveal_strlit("entry");
    reveal_strlit("category");
    reveal_strlit("link");
    assert("title"@.len() == 5);
    assert("rights"@.len() == 6);
    assert("subtitle"@.len() == 8);
    assert("id"@.len() == 2);
    assert("updated"@.len() == 7);
    assert("icon"@.len() == 4);
    assert("logo"@.len() == 4);
    assert("author"@.len() == 6);
    assert("contributor"@.len() == 11);
    assert("generator"@.len() == 9);
    assert("entry"@.len() == 5);
    assert("category"@.len() == 8);
    assert("link"@.len() == 4);
    assert("title"@[0] != "entry"@[0]);
    assert("rights"@[0] != "author"@[0]);
    assert("subtitle"@[0] != "category"@[0]);
    assert("icon"@[0] != "logo"@[0]);
    assert("icon"@[0] != "link"@[0]);
    assert("logo"@[1] != "link"@[1]);
}

/// A person written as `<element>…</element>` where it stands, read after
/// its start tag, gives the person back.
pub(crate) proof fn lemma_person_roundtrip(ev: Seq<EventView>, j: int, p: PersonView, element: Seq<char>) -> (p2:
    PersonView)
    requires
        person_events(p, element) is Ok,
        at(ev, j, person_events(p, element)->Ok_0),
    ensures
        ev[j] == (EventView::Start { name: element, attributes: seq![] }),
        parse_person(ev, j + 1, seq![], child_scope()) == Ok::<(PersonView, int), ErrorView>(
            (p2, j + person_events(p, element)->Ok_0.len()),
        ),
        same_person(p2, p),
        person_events(p, element)->Ok_0.len() >= 2,
{
    let s = child_scope();
    lemma_names();
    let xe = extensions_events(p.extensions, atom_scope())->Ok_0;
    let start = seq![EventView::Start { name: element, attributes: seq![] }];
    let ne = text_element_events("name"@, p.name);
    let ee = optional_text_element_events("email"@, p.email);
    let ue = optional_text_element_events("uri"@, p.uri);
    let end = seq![EventView::End { name: element }];
    let pe = person_events(p, element)->Ok_0;
    assert(pe == start + ne + ee + ue + xe + end);
    lemma_at_split(ev, j, start + ne + ee + ue + xe, end);
    lemma_at_split(ev, j, start + ne + ee + ue, xe);
    lemma_at_split(ev, j, start + ne + ee, ue);
    lemma_at_split(ev, j, start + ne, ee);
    lemma_at_split(ev, j, start, ne);
    lemma_at_index(ev, j, start, 0);
    lemma_core_child("name"@, seq![]);
    lemma_core_child("email"@, seq![]);
    lemma_core_child("uri"@, seq![]);
    assert(element_scope(seq![], s) == Ok::<Map<KeyView, Seq<char>>, ErrorView>(s)) by {
        lemma_core_child("name"@, seq![]);
    }
    // The name element.
    let j1 = j + 1;
    lemma_text_element(ev, j1, "name"@, p.name);
    let acc1 = PersonView { name: p.name, ..empty_person() };
    assert(parse_person_body(ev, j1, s, empty_person()) == parse_person_body(ev, j1 + 3, s, acc1));
    // The email element, if any.
    let j2 = j1 + 3;
    let acc2 = PersonView { email: p.email, ..acc1 };
    if let Some(e) = p.email {
        lemma_text_element(ev, j2, "email"@, e);
        assert(parse_person_body(ev, j2, s, acc1) == parse_person_body(ev, j2 + 3, s, acc2));
    } else {
        assert(acc2 == acc1);
    }
    // The uri element, if any.
    let j3 = j2 + ee.len();
    let acc3 = PersonView { uri: p.uri, ..acc2 };
    if let Some(u) = p.uri {
        lemma_text_element(ev, j3, "uri"@, u);
        assert(parse_person_body(ev, j3, s, acc2) == parse_person_body(ev, j3 + 3, s, acc3));
    } else {
        assert(acc3 == acc2);
    }
    // The extensions.
    let j4 = j3 + ue.len();
    let xs2 = lemma_person_extensions(ev, j4, p.extensions, acc3);
    let acc4 = PersonView { extensions: acc3.extensions + xs2, ..acc3 };
    assert(acc3.extensions == Seq::<ExtensionView>::empty());
    assert(acc4.extensions =~= xs2);
    // The end tag.
    let j5 = j4 + xe.len();
    lemma_at_index(ev, j5, end, 0);
    assert(parse_person_body(ev, j5, s, acc4) == Ok::<(PersonView, int), ErrorView>((acc4, j5 + 1)));
    acc4
}

// ---------------------------------------------------------------------------
// Entries
// ---------------------------------------------------------------------------

/// Each person of `a` is the one of `b` at the same place, read back.
pub open spec fn same_persons(a: Seq<PersonView>, b: Seq<PersonView>) -> bool {
    a.len() == b.len() && forall|i: int| 0 <= i < a.len() ==> same_person(#[trigger] a[i], b[i])
}

/// An entry read back: the same fields, with persons and extensions read back.
pub open spec fn same_entry(a: EntryView, b: EntryView) -> bool {
    &&& a.title == b.title
    &&& a.id == b.id
    &&& a.updated == b.updated
    &&& same_persons(a.authors, b.authors)
    &&& same_extensions(a.extensions, b.extensions)
}

proof fn lemma_entry_authors(ev: Seq<EventView>, j: int, ps: Seq<PersonView>, acc: EntryView) -> (ps2: Seq<
    PersonView,
>)
    requires
        persons_events(ps, "author"@) is Ok,
        at(ev, j, persons_events(ps, "author"@)->Ok_0),
    ensures
        same_persons(ps2, ps),
        parse_entry_body(ev, j, child_scope(), acc) == parse_entry_body(
            ev,
            j + persons_events(ps, "author"@)->Ok_0.len(),
            child_scope(),
            EntryView { authors: acc.authors + ps2, ..acc },
        ),
    decreases ps.len(),
{
    if ps.len() == 0 {
        assert(acc.authors + Seq::<PersonView>::empty() =~= acc.authors);
        assert(EntryView { authors: acc.authors + Seq::<PersonView>::empty(), ..acc } == acc);
        seq![]
    } else {
        let s = child_scope();
        let pe = person_events(ps[0], "author"@)->Ok_0;
        let rest = persons_events(ps.drop_first(), "author"@)->Ok_0;
        lemma_at_split(ev, j, pe, rest);
        let p2 = lemma_person_roundtrip(ev, j, ps[0], "author"@);
        lemma_child_names();
        lemma_core_child("author"@, seq![]);
        let acc2 = EntryView { authors: acc.authors.push(p2), ..acc };
        assert(entry_child(ev, j, "author"@, seq![], s, acc) == Ok::<(EntryView, int), ErrorView>(
            (acc2, j + pe.len()),
        ));
        assert(parse_entry_body(ev, j, s, acc) == parse_entry_body(ev, j + pe.len(), s, acc2));
        let tail = lemma_entry_authors(ev, j + pe.len(), ps.drop_first(), acc2);
        let ps2 = seq![p2] + tail;
        assert(acc2.authors + tail =~= acc.authors + ps2);
        assert forall|i: int| 0 <= i < ps2.len() implies same_person(#[trigger] ps2[i], ps[i]) by {
            if i > 0 {
                assert(ps2[i] == tail[i - 1]);
                assert(ps[i] == ps.drop_first()[i - 1]);
            }
        }
        ps2
    }
}

proof fn lemma_entry_extensions(ev: Seq<EventView>, j: int, xs: Seq<ExtensionView>, acc: EntryView) -> (xs2:
    Seq<ExtensionView>)
    requires
        extensions_events(xs, atom_scope()) is Ok,
        at(ev, j, extensions_events(xs, atom_scope())->Ok_0),
    ensures
        same_extensions(xs2, xs),
        parse_entry_body(ev, j, child_scope(), acc) == parse_entry_body(
            ev,
            j + extensions_events(xs, atom_scope())->Ok_0.len(),
            child_scope(),
            EntryView { extensions: acc.extensions + xs2, ..acc },
        ),
    decreases xs.len(),
{
    if xs.len() == 0 {
        assert(acc.extensions + Seq::<ExtensionView>::empty() =~= acc.extensions);
        assert(EntryView { extensions: acc.extensions + Seq::<ExtensionView>::empty(), ..acc } == acc);
        seq![]
    } else {
        let wx = write_extension(xs[0], atom_scope())->Ok_0;
        let rest = extensions_events(xs.drop_first(), atom_scope())->Ok_0;
        lemma_at_split(ev, j, wx, rest);
        let x2 = lemma_child_extension(ev, j, xs[0]);
        let acc2 = EntryView { extensions: acc.extensions.push(x2), ..acc };
        let tail = lemma_entry_extensions(ev, j + wx.len(), xs.drop_first(), acc2);
        let xs2 = seq![x2] + tail;
        assert(acc2.extensions + tail =~= acc.extensions + xs2);
        assert forall|i: int| 0 <= i < xs2.len() implies equivalent(#[trigger] xs2[i], xs[i]) by {
            if i > 0 {
                assert(xs2[i] == tail[i - 1]);
                assert(xs[i] == xs.drop_first()[i - 1]);
            }
        }
        xs2
    }
}

/// An entry written with start tag attributes `attrs` where it stands, read
/// from just after its start tag in the children's scope, gives the entry back.
pub(crate) proof fn lemma_entry_body(ev: Seq<EventView>, j: int, e: EntryView, attrs: Seq<AttributeEventView>) -> (e2:
    EntryView)
    requires
        entry_events(e, attrs) is Ok,
        at(ev, j, entry_events(e, attrs)->Ok_0),
    ensures
        ev[j] == (EventView::Start { name: "entry"@, attributes: attrs }),
        parse_entry_body(ev, j + 1, child_scope(), empty_entry()) == Ok::<(EntryView, int), ErrorView>(
            (e2, j + entry_events(e, attrs)->Ok_0.len()),
        ),
        same_entry(e2, e),
        entry_events(e, attrs)->Ok_0.len() >= 2,
{
    let s = child_scope();
    lemma_child_names();
    let ae = persons_events(e.authors, "author"@)->Ok_0;
    let xe = extensions_events(e.extensions, atom_scope())->Ok_0;
    let start = seq![EventView::Start { name: "entry"@, attributes: attrs }];
    let te = text_element_events("title"@, e.title);
    let ie = text_element_events("id"@, e.id);
    let ue = text_element_events("updated"@, e.updated);
    let end = seq![EventView::End { name: "entry"@ }];
    assert(entry_events(e, attrs)->Ok_0 == start + te + ie + ue + ae + xe + end);
    lemma_at_split(ev, j, start + te + ie + ue + ae + xe, end);
    lemma_at_split(ev, j, start + te + ie + ue + ae, xe);
    lemma_at_split(ev, j, start + te + ie + ue, ae);
    lemma_at_split(ev, j, start + te + ie, ue);
    lemma_at_split(ev, j, start + te, ie);
    lemma_at_split(ev, j, start, te);
    lemma_at_index(ev, j, start, 0);
    lemma_core_child("title"@, seq![]);
    lemma_core_child("id"@, seq![]);
    lemma_core_child("updated"@, seq![]);
    let j1 = j + 1;
    lemma_text_element(ev, j1, "title"@, e.title);
    let acc1 = EntryView { title: e.title, ..empty_entry() };
    assert(parse_entry_body(ev, j1, s, empty_entry()) == parse_entry_body(ev, j1 + 3, s, acc1));
    let j2 = j1 + 3;
    lemma_text_element(ev, j2, "id"@, e.id);
    let acc2 = EntryView { id: e.id, ..acc1 };
    assert(parse_entry_body(ev, j2, s, acc1) == parse_entry_body(ev, j2 + 3, s, acc2));
    let j3 = j2 + 3;
    lemma_text_element(ev, j3, "updated"@, e.updated);
    let acc3 = EntryView { updated: e.updated, ..acc2 };
    assert(parse_entry_body(ev, j3, s, acc2) == parse_entry_body(ev, j3 + 3, s, acc3));
    let j4 = j3 + 3;
    let ps2 = lemma_entry_authors(ev, j4, e.authors, acc3);
    let acc4 = EntryView { authors: acc3.authors + ps2, ..acc3 };
    assert(acc4.authors =~= ps2);
    let j5 = j4 + ae.len();
    let xs2 = lemma_entry_extensions(ev, j5, e.extensions, acc4);
    let acc5 = EntryView { extensions: acc4.extensions + xs2, ..acc4 };
    assert(acc5.extensions =~= xs2);
    let j6 = j5 + xe.len();
    lemma_at_index(ev, j6, end, 0);
    assert(parse_entry_body(ev, j6, s, acc5) == Ok::<(EntryView, int), ErrorView>((acc5, j6 + 1)));
    acc5
}

/// A standalone entry read back gives the entry back.
///
/// The events that [`entry_events`] makes for an entry, with the Atom
/// namespace declared on its start tag, read as a document by
/// [`parse_entry_document`], give an entry with the same title, id and
/// timestamp, authors with the same fields, and equivalent extensions.
pub proof fn law_entry_read_after_write(e: EntryView)
    requires
        entry_events(e, standalone_attributes()) is Ok,
    ensures
        parse_entry_document(entry_events(e, standalone_attributes())->Ok_0, 0) matches Ok(e2) && same_entry(e2, e),
{
    let ev = entry_events(e, standalone_attributes())->Ok_0;
    assert(ev.subrange(0, ev.len() as int) =~= ev);
    let e2 = lemma_entry_body(ev, 0, e, standalone_attributes());
    lemma_child_scope();
    lemma_namespace_literals();
    let attrs = standalone_attributes();
    reveal_strlit("xmlns");
    assert("xmlns"@ =~= xmlns_word());
    let start = Map::<KeyView, Seq<char>>::empty().insert(Some(xml_word()), XML_NAMESPACE@);
    assert(declared_prefix(attrs[0].0) == Some(None::<Seq<char>>));
    assert(declaration_violation(None, ATOM_NAMESPACE@) is None);
    assert(start.insert(None, ATOM_NAMESPACE@) =~= child_scope());
    assert(declared_scope(attrs, 1, start.insert(None, ATOM_NAMESPACE@)) == Ok::<
        Map<KeyView, Seq<char>>,
        ErrorView,
    >(start.insert(None, ATOM_NAMESPACE@)));
    assert(element_scope(attrs, Map::empty()) == Ok::<Map<KeyView, Seq<char>>, ErrorView>(child_scope()));
    reveal_strlit("entry");
}

// ---------------------------------------------------------------------------
// Attributes of categories, links and generators
// ---------------------------------------------------------------------------

proof fn lemma_attribute_value_append(a: Seq<AttributeEventView>, b: Seq<AttributeEventView>, key: Seq<char>)
    ensures
        attribute_value(a + b, key) == match attribute_value(b, key) {
            Some(v) => Some(v),
            None => attribute_value(a, key),
        },
    decreases b.len(),
{
    if b.len() == 0 {
        assert(a + b =~= a);
    } else {
        assert((a + b).last() == b.last());
        assert((a + b).drop_last() =~= a + b.drop_last());
        lemma_attribute_value_append(a, b.drop_last(), key);
    }
}

proof fn lemma_attribute_value_one(k: Seq<char>, v: Seq<char>, key: Seq<char>)
    ensures
        attribute_value(seq![(k, v)], key) == if k == key {
            Some(v)
        } else {
            None::<Seq<char>>
        },
{
    assert(seq![(k, v)].drop_last() =~= Seq::<AttributeEventView>::empty());
    reveal_with_fuel(attribute_value, 2);
}

/// Two optional attributes.
pub open spec fn pair_attributes(k1: Seq<char>, v1: Option<Seq<char>>, k2: Seq<char>, v2: Option<Seq<char>>) -> Seq<
    AttributeEventView,
> {
    optional_attributes(seq![(k1, v1), (k2, v2)])
}

/// The value of `key` among two optional attributes with other names.
proof fn lemma_optional_pair(k1: Seq<char>, v1: Option<Seq<char>>, k2: Seq<char>, v2: Option<Seq<char>>, key: Seq<char>)
    requires
        k1 != k2,
    ensures
        attribute_value(optional_attributes(seq![(k1, v1), (k2, v2)]), key) == if key == k2 && v2 is Some {
            v2
        } else if key == k1 && v1 is Some {
            v1
        } else {
            None::<Seq<char>>
        },
        forall|i: int|
            0 <= i < pair_attributes(k1, v1, k2, v2).len() ==> #[trigger] pair_attributes(k1, v1, k2, v2)[i].0
                == k1 || pair_attributes(k1, v1, k2, v2)[i].0 == k2,
{
    let items = seq![(k1, v1), (k2, v2)];
    let second = seq![(k2, v2)];
    assert(items.drop_first() =~= second);
    assert(second.drop_first() =~= Seq::<(Seq<char>, Option<Seq<char>>)>::empty());
    let tail = optional_attributes(second);
    assert(optional_attributes(Seq::<(Seq<char>, Option<Seq<char>>)>::empty()) == Seq::<AttributeEventView>::empty());
    lemma_attribute_value_one(k1, v1.unwrap_or(Seq::empty()), key);
    lemma_attribute_value_one(k2, v2.unwrap_or(Seq::empty()), key);
    match v2 {
        Some(x) => {
            assert(tail =~= seq![(k2, x)]);
        },
        None => {
            assert(tail =~= Seq::<AttributeEventView>::empty());
        },
    }
    match v1 {
        Some(x) => {
            lemma_attribute_value_append(seq![(k1, x)], tail, key);
        },
        None => {},
    }
    if v2 is None {
        assert(attribute_value(tail, key) is None);
    }
}

proof fn lemma_attribute_names()
    ensures
        "term"@ != "scheme"@,
        "term"@ != "label"@,
        "scheme"@ != "label"@,
        "href"@ != "rel"@,
        "uri"@ != "version"@,
        "xml:base"@ != "xml:lang"@,
        "xmlns"@ != "xml:base"@,
        "xmlns"@ != "xml:lang"@,
        plain_key("term"@),
        plain_key("scheme"@),
        plain_key("label"@),
        plain_key("href"@),
        plain_key("rel"@),
        plain_key("uri"@),
        plain_key("version"@),
{
    reveal_strlit("term");
    reveal_strlit("scheme");
    reveal_strlit("label");
    reveal_strlit("href");
    reveal_strlit("rel");
    reveal_strlit("uri");
    reveal_strlit("version");
    reveal_strlit("xml:base");
    reveal_strlit("xml:lang");
    reveal_strlit("xmlns");
    assert("term"@.len() == 4 && "scheme"@.len() == 6 && "label"@.len() == 5);
    assert("href"@.len() == 4 && "rel"@.len() == 3 && "uri"@.len() == 3 && "version"@.len() == 7);
    assert("xml:base"@.len() == 8 && "xml:lang"@.len() == 8 && "xmlns"@.len() == 5);
    assert("xml:base"@[4] != "xml:lang"@[4]);
}

/// A written category is read back from its attributes.
proof fn lemma_category_attributes(c: CategoryView)
    ensures
        parse_category(category_attributes(c)) == c,
        forall|i: int| 0 <= i < category_attributes(c).len() ==> plain_key(#[trigger] category_attributes(c)[i].0),
{
    lemma_attribute_names();
    let rest = pair_attributes("scheme"@, c.1, "label"@, c.2);
    lemma_optional_pair("scheme"@, c.1, "label"@, c.2, "term"@);
    lemma_optional_pair("scheme"@, c.1, "label"@, c.2, "scheme"@);
    lemma_optional_pair("scheme"@, c.1, "label"@, c.2, "label"@);
    lemma_attribute_value_append(seq![("term"@, c.0)], rest, "term"@);
    lemma_attribute_value_append(seq![("term"@, c.0)], rest, "scheme"@);
    lemma_attribute_value_append(seq![("term"@, c.0)], rest, "label"@);
    lemma_attribute_value_one("term"@, c.0, "term"@);
    lemma_attribute_value_one("term"@, c.0, "scheme"@);
    lemma_attribute_value_one("term"@, c.0, "label"@);
    let attrs = category_attributes(c);
    assert forall|i: int| 0 <= i < attrs.len() implies plain_key(#[trigger] attrs[i].0) by {
        if i > 0 {
            assert(attrs[i] == rest[i - 1]);
            assert(rest[i - 1].0 == "scheme"@ || rest[i - 1].0 == "label"@);
        }
    }
}

/// A written link is read back from its attributes.
proof fn lemma_link_attributes(l: LinkView)
    ensures
        parse_link(link_attributes(l)) == l,
        forall|i: int| 0 <= i < link_attributes(l).len() ==> plain_key(#[trigger] link_attributes(l)[i].0),
{
    lemma_attribute_names();
    lemma_attribute_value_append(seq![("href"@, l.0)], seq![("rel"@, l.1)], "href"@);
    lemma_attribute_value_append(seq![("href"@, l.0)], seq![("rel"@, l.1)], "rel"@);
    lemma_attribute_value_one("href"@, l.0, "href"@);
    lemma_attribute_value_one("href"@, l.0, "rel"@);
    lemma_attribute_value_one("rel"@, l.1, "href"@);
    lemma_attribute_value_one("rel"@, l.1, "rel"@);
    assert(link_attributes(l) =~= seq![("href"@, l.0)] + seq![("rel"@, l.1)]);
}

/// A written generator's attributes are read back.
proof fn lemma_generator_attributes(g: GeneratorView)
    ensures
        attribute_value(generator_attributes(g), "uri"@) == g.1,
        attribute_value(generator_attributes(g), "version"@) == g.2,
        forall|i: int| 0 <= i < generator_attributes(g).len() ==> plain_key(#[trigger] generator_attributes(g)[i].0),
{
    lemma_attribute_names();
    lemma_optional_pair("uri"@, g.1, "version"@, g.2, "uri"@);
    lemma_optional_pair("uri"@, g.1, "version"@, g.2, "version"@);
    let attrs = pair_attributes("uri"@, g.1, "version"@, g.2);
    assert(generator_attributes(g) == attrs);
    assert forall|i: int| 0 <= i < attrs.len() implies plain_key(#[trigger] attrs[i].0) by {
        assert(attrs[i].0 == "uri"@ || attrs[i].0 == "version"@);
    }
}

// ---------------------------------------------------------------------------
// Feeds
// ---------------------------------------------------------------------------

/// Each entry of `a` is the one of `b` at the same place, read back.
pub open spec fn same_entries(a: Seq<EntryView>, b: Seq<EntryView>) -> bool {
    a.len() == b.len() && forall|i: int| 0 <= i < a.len() ==> same_entry(#[trigger] a[i], b[i])
}

/// A feed read back: the same fields, with persons, entries and extensions
/// read back.
pub open spec fn same_feed(a: FeedView, b: FeedView) -> bool {
    &&& a.title == b.title
    &&& a.id == b.id
    &&& a.updated == b.updated
    &&& same_persons(a.authors, b.authors)
    &&& a.categories == b.categories
    &&& same_persons(a.contributors, b.contributors)
    &&& a.generator == b.generator
    &&& a.icon == b.icon
    &&& a.links == b.links
    &&& a.logo == b.logo
    &&& a.rights == b.rights
    &&& a.subtitle == b.subtitle
    &&& same_entries(a.entries, b.entries)
    &&& same_extensions(a.extensions, b.extensions)
    &&& a.base == b.base
    &&& a.lang == b.lang
}

/// The feed after reading persons written as `author` (or `contributor`).
pub open spec fn with_persons(acc: FeedView, ps: Seq<PersonView>, contributors: bool) -> FeedView {
    if contributors {
        FeedView { contributors: acc.contributors + ps, ..acc }
    } else {
        FeedView { authors: acc.authors + ps, ..acc }
    }
}

/// The element name of authors (or contributors).
pub open spec fn person_element(contributors: bool) -> Seq<char> {
    if contributors {
        "contributor"@
    } else {
        "author"@
    }
}

proof fn lemma_feed_persons(ev: Seq<EventView>, j: int, ps: Seq<PersonView>, contributors: bool, acc: FeedView) -> (ps2:
    Seq<PersonView>)
    requires
        persons_events(ps, person_element(contributors)) is Ok,
        at(ev, j, persons_events(ps, person_element(contributors))->Ok_0),
    ensures
        same_persons(ps2, ps),
        parse_feed_body(ev, j, child_scope(), acc) == parse_feed_body(
            ev,
            j + persons_events(ps, person_element(contributors))->Ok_0.len(),
            child_scope(),
            with_persons(acc, ps2, contributors),
        ),
    decreases ps.len(),
{
    let element = person_element(contributors);
    if ps.len() == 0 {
        assert(acc.authors + Seq::<PersonView>::empty() =~= acc.authors);
        assert(acc.contributors + Seq::<PersonView>::empty() =~= acc.contributors);
        assert(with_persons(acc, seq![], contributors) == acc);
        seq![]
    } else {
        let s = child_scope();
        let pe = person_events(ps[0], element)->Ok_0;
        let rest = persons_events(ps.drop_first(), element)->Ok_0;
        lemma_at_split(ev, j, pe, rest);
        let p2 = lemma_person_roundtrip(ev, j, ps[0], element);
        lemma_child_names();
        lemma_core_child(element, seq![]);
        let acc2 = with_persons(acc, seq![p2], contributors);
        assert(acc.authors.push(p2) =~= acc.authors + seq![p2]);
        assert(acc.contributors.push(p2) =~= acc.contributors + seq![p2]);
        assert(feed_child(ev, j, element, seq![], s, acc) == Ok::<(FeedView, int), ErrorView>(
            (acc2, j + pe.len()),
        ));
        assert(parse_feed_body(ev, j, s, acc) == parse_feed_body(ev, j + pe.len(), s, acc2));
        let tail = lemma_feed_persons(ev, j + pe.len(), ps.drop_first(), contributors, acc2);
        let ps2 = seq![p2] + tail;
        assert(acc.authors + seq![p2] + tail =~= acc.authors + ps2);
        assert(acc.contributors + seq![p2] + tail =~= acc.contributors + ps2);
        assert(with_persons(acc2, tail, contributors) == with_persons(acc, ps2, contributors));
        assert forall|i: int| 0 <= i < ps2.len() implies same_person(#[trigger] ps2[i], ps[i]) by {
            if i > 0 {
                assert(ps2[i] == tail[i - 1]);
                assert(ps[i] == ps.drop_first()[i - 1]);
            }
        }
        ps2
    }
}

proof fn lemma_feed_categories(ev: Seq<EventView>, j: int, cs: Seq<CategoryView>, acc: FeedView)
    requires
        at(ev, j, categories_events(cs)),
    ensures
        parse_feed_body(ev, j, child_scope(), acc) == parse_feed_body(
            ev,
            j + categories_events(cs).len(),
            child_scope(),
            FeedView { categories: acc.categories + cs, ..acc },
        ),
    decreases cs.len(),
{
    if cs.len() == 0 {
        assert(acc.categories + cs =~= acc.categories);
    } else {
        let s = child_scope();
        let attrs = category_attributes(cs[0]);
        let first = seq![EventView::Start { name: "category"@, attributes: attrs }, EventView::End { name: "category"@ }];
        lemma_at_split(ev, j, first, categories_events(cs.drop_first()));
        lemma_at_index(ev, j, first, 0);
        lemma_at_index(ev, j, first, 1);
        lemma_child_names();
        lemma_category_attributes(cs[0]);
        lemma_core_child("category"@, attrs);
        lemma_empty_element(ev, j);
        let acc2 = FeedView { categories: acc.categories.push(cs[0]), ..acc };
        assert(feed_child(ev, j, "category"@, attrs, s, acc) == Ok::<(FeedView, int), ErrorView>((acc2, j + 2)));
        assert(parse_feed_body(ev, j, s, acc) == parse_feed_body(ev, j + 2, s, acc2));
        lemma_feed_categories(ev, j + 2, cs.drop_first(), acc2);
        assert(acc.categories.push(cs[0]) + cs.drop_first() =~= acc.categories + cs);
    }
}

proof fn lemma_feed_links(ev: Seq<EventView>, j: int, ls: Seq<LinkView>, acc: FeedView)
    requires
        at(ev, j, links_events(ls)),
    ensures
        parse_feed_body(ev, j, child_scope(), acc) == parse_feed_body(
            ev,
            j + links_events(ls).len(),
            child_scope(),
            FeedView { links: acc.links + ls, ..acc },
        ),
    decreases ls.len(),
{
    if ls.len() == 0 {
        assert(acc.links + ls =~= acc.links);
    } else {
        let s = child_scope();
        let attrs = link_attributes(ls[0]);
        let first = seq![EventView::Start { name: "link"@, attributes: attrs }, EventView::End { name: "link"@ }];
        lemma_at_split(ev, j, first, links_events(ls.drop_first()));
        lemma_at_index(ev, j, first, 0);
        lemma_at_index(ev, j, first, 1);
        lemma_child_names();
        lemma_link_attributes(ls[0]);
        lemma_core_child("link"@, attrs);
        lemma_empty_element(ev, j);
        let acc2 = FeedView { links: acc.links.push(ls[0]), ..acc };
        assert(feed_child(ev, j, "link"@, attrs, s, acc) == Ok::<(FeedView, int), ErrorView>((acc2, j + 2)));
        assert(parse_feed_body(ev, j, s, acc) == parse_feed_body(ev, j + 2, s, acc2));
        lemma_feed_links(ev, j + 2, ls.drop_first(), acc2);
        assert(acc.links.push(ls[0]) + ls.drop_first() =~= acc.links + ls);
    }
}

proof fn lemma_feed_entries(ev: Seq<EventView>, j: int, es: Seq<EntryView>, acc: FeedView) -> (es2: Seq<EntryView>)
    requires
        entries_events(es) is Ok,
        at(ev, j, entries_events(es)->Ok_0),
    ensures
        same_entries(es2, es),
        parse_feed_body(ev, j, child_scope(), acc) == parse_feed_body(
            ev,
            j + entries_events(es)->Ok_0.len(),
            child_scope(),
            FeedView { entries: acc.entries + es2, ..acc },
        ),
    decreases es.len(),
{
    if es.len() == 0 {
        assert(acc.entries + Seq::<EntryView>::empty() =~= acc.entries);
        assert(FeedView { entries: acc.entries + Seq::<EntryView>::empty(), ..acc } == acc);
        seq![]
    } else {
        let s = child_scope();
        let ee = entry_events(es[0], seq![])->Ok_0;
        let rest = entries_events(es.drop_first())->Ok_0;
        lemma_at_split(ev, j, ee, rest);
        let e2 = lemma_entry_body(ev, j, es[0], seq![]);
        lemma_child_names();
        lemma_core_child("entry"@, seq![]);
        assert(parse_entry(ev, j + 1, seq![], s) == Ok::<(EntryView, int), ErrorView>((e2, j + ee.len())));
        let acc2 = FeedView { entries: acc.entries.push(e2), ..acc };
        assert(feed_child(ev, j, "entry"@, seq![], s, acc) == Ok::<(FeedView, int), ErrorView>(
            (acc2, j + ee.len()),
        ));
        assert(parse_feed_body(ev, j, s, acc) == parse_feed_body(ev, j + ee.len(), s, acc2));
        let tail = lemma_feed_entries(ev, j + ee.len(), es.drop_first(), acc2);
        let es2 = seq![e2] + tail;
        assert(acc2.entries + tail =~= acc.entries + es2);
        assert forall|i: int| 0 <= i < es2.len() implies same_entry(#[trigger] es2[i], es[i]) by {
            if i > 0 {
                assert(es2[i] == tail[i - 1]);
                assert(es[i] == es.drop_first()[i - 1]);
            }
        }
        es2
    }
}

proof fn lemma_feed_extensions(ev: Seq<EventView>, j: int, xs: Seq<ExtensionView>, acc: FeedView) -> (xs2: Seq<
    ExtensionView,
>)
    requires
        extensions_events(xs, atom_scope()) is Ok,
        at(ev, j, extensions_events(xs, atom_scope())->Ok_0),
    ensures
        same_extensions(xs2, xs),
        parse_feed_body(ev, j, child_scope(), acc) == parse_feed_body(
            ev,
            j + extensions_events(xs, atom_scope())->Ok_0.len(),
            child_scope(),
            FeedView { extensions: acc.extensions + xs2, ..acc },
        ),
    decreases xs.len(),
{
    if xs.len() == 0 {
        assert(acc.extensions + Seq::<ExtensionView>::empty() =~= acc.extensions);
        assert(FeedView { extensions: acc.extensions + Seq::<ExtensionView>::empty(), ..acc } == acc);
        seq![]
    } else {
        let wx = write_extension(xs[0], atom_scope())->Ok_0;
        let rest = extensions_events(xs.drop_first(), atom_scope())->Ok_0;
        lemma_at_split(ev, j, wx, rest);
        let x2 = lemma_child_extension(ev, j, xs[0]);
        let acc2 = FeedView { extensions: acc.extensions.push(x2), ..acc };
        let tail = lemma_feed_extensions(ev, j + wx.len(), xs.drop_first(), acc2);
        let xs2 = seq![x2] + tail;
        assert(acc2.extensions + tail =~= acc.extensions + xs2);
        assert forall|i: int| 0 <= i < xs2.len() implies equivalent(#[trigger] xs2[i], xs[i]) by {
            if i > 0 {
                assert(xs2[i] == tail[i - 1]);
                assert(xs[i] == xs.drop_first()[i - 1]);
            }
        }
        xs2
    }
}

/// Reading the character data of an element whose start tag is `ev[j]`.
proof fn lemma_text_content(ev: Seq<EventView>, j: int, t: Seq<char>)
    requires
        0 <= j,
        j + 3 <= ev.len(),
        ev[j + 1] == EventView::Text(t),
        ev[j + 2] is End,
    ensures
        element_text(ev, j + 1, 0, None) == Ok::<(Option<Seq<char>>, int), ErrorView>((Some(t), j + 3)),
        parse_text(ev, j + 1) == Ok::<(Seq<char>, int), ErrorView>((t, j + 3)),
{
    reveal_with_fuel(element_text, 3);
}

/// An optional text child of a feed, where it stands.
proof fn lemma_feed_optional_text(ev: Seq<EventView>, j: int, name: Seq<char>, t: Option<Seq<char>>, acc: FeedView) -> (acc2:
    FeedView)
    requires
        at(ev, j, optional_text_element_events(name, t)),
        name == "icon"@ || name == "logo"@ || name == "rights"@ || name == "subtitle"@,
    ensures
        parse_feed_body(ev, j, child_scope(), acc) == parse_feed_body(
            ev,
            j + optional_text_element_events(name, t).len(),
            child_scope(),
            acc2,
        ),
        t is Some ==> acc2 == (if name == "icon"@ {
            FeedView { icon: t, ..acc }
        } else if name == "logo"@ {
            FeedView { logo: t, ..acc }
        } else if name == "rights"@ {
            FeedView { rights: t, ..acc }
        } else {
            FeedView { subtitle: t, ..acc }
        }),
        t is None ==> acc2 == acc,
{
    match t {
        Some(x) => {
            let s = child_scope();
            lemma_child_names();
            lemma_text_element(ev, j, name, x);
            lemma_core_child(name, seq![]);
            let acc2 = if name == "icon"@ {
                FeedView { icon: t, ..acc }
            } else if name == "logo"@ {
                FeedView { logo: t, ..acc }
            } else if name == "rights"@ {
                FeedView { rights: t, ..acc }
            } else {
                FeedView { subtitle: t, ..acc }
            };
            assert(feed_child(ev, j, name, seq![], s, acc) == Ok::<(FeedView, int), ErrorView>((acc2, j + 3)));
            assert(parse_feed_body(ev, j, s, acc) == parse_feed_body(ev, j + 3, s, acc2));
            acc2
        },
        None => acc,
    }
}

/// The generator, icon, links, logo, rights and subtitle of a written feed,
/// read where they stand.
proof fn lemma_feed_middle(ev: Seq<EventView>, j: int, f: FeedView, acc: FeedView)
    requires
        at(ev, j, feed_middle(f)),
        acc.generator is None,
        acc.icon is None,
        acc.logo is None,
        acc.rights is None,
        acc.subtitle is None,
    ensures
        parse_feed_body(ev, j, child_scope(), acc) == parse_feed_body(
            ev,
            j + feed_middle(f).len(),
            child_scope(),
            FeedView {
                generator: f.generator,
                icon: f.icon,
                links: acc.links + f.links,
                logo: f.logo,
                rights: f.rights,
                subtitle: f.subtitle,
                ..acc
            },
        ),
{
    reveal(feed_middle);
    let s = child_scope();
    lemma_child_names();
    let ge = generator_events(f.generator);
    let ic = optional_text_element_events("icon"@, f.icon);
    let le = links_events(f.links);
    let lo = optional_text_element_events("logo"@, f.logo);
    let ri = optional_text_element_events("rights"@, f.rights);
    let su = optional_text_element_events("subtitle"@, f.subtitle);
    assert(feed_middle(f) == ge + ic + le + lo + ri + su);
    lemma_at_split(ev, j, ge + ic + le + lo + ri, su);
    lemma_at_split(ev, j, ge + ic + le + lo, ri);
    lemma_at_split(ev, j, ge + ic + le, lo);
    lemma_at_split(ev, j, ge + ic, le);
    lemma_at_split(ev, j, ge, ic);
    // The generator.
    let acc1 = FeedView { generator: f.generator, ..acc };
    if let Some(g) = f.generator {
        let attrs = generator_attributes(g);
        lemma_at_index(ev, j, ge, 0);
        lemma_at_index(ev, j, ge, 1);
        lemma_at_index(ev, j, ge, 2);
        lemma_generator_attributes(g);
        lemma_core_child("generator"@, attrs);
        lemma_text_content(ev, j, g.0);
        assert(feed_child(ev, j, "generator"@, attrs, s, acc) == Ok::<(FeedView, int), ErrorView>((acc1, j + 3)));
        assert(parse_feed_body(ev, j, s, acc) == parse_feed_body(ev, j + 3, s, acc1));
    } else {
        assert(acc1 == acc);
    }
    // The icon.
    let j1 = j + ge.len();
    let acc2 = lemma_feed_optional_text(ev, j1, "icon"@, f.icon, acc1);
    assert(acc2 == FeedView { icon: f.icon, ..acc1 });
    // The links.
    let j2 = j1 + ic.len();
    lemma_feed_links(ev, j2, f.links, acc2);
    let acc3 = FeedView { links: acc2.links + f.links, ..acc2 };
    // The logo, rights and subtitle.
    let j3 = j2 + le.len();
    let acc4 = lemma_feed_optional_text(ev, j3, "logo"@, f.logo, acc3);
    assert(acc4 == FeedView { logo: f.logo, ..acc3 });
    let j4 = j3 + lo.len();
    let acc5 = lemma_feed_optional_text(ev, j4, "rights"@, f.rights, acc4);
    assert(acc5 == FeedView { rights: f.rights, ..acc4 });
    let j5 = j4 + ri.len();
    let acc6 = lemma_feed_optional_text(ev, j5, "subtitle"@, f.subtitle, acc5);
    assert(acc6 == FeedView { subtitle: f.subtitle, ..acc5 });
}

/// The scope of a written feed's children, and its `xml:base` and `xml:lang`.
proof fn lemma_feed_start_tag(f: FeedView)
    ensures
        element_scope(feed_attributes(f), Map::empty()) == Ok::<Map<KeyView, Seq<char>>, ErrorView>(child_scope()),
        attribute_value(feed_attributes(f), "xml:base"@) == f.base,
        attribute_value(feed_attributes(f), "xml:lang"@) == f.lang,
{
    lemma_child_scope();
    lemma_namespace_literals();
    lemma_attribute_names();
    reveal_strlit("xmlns");
    reveal_strlit("xml:base");
    reveal_strlit("xml:lang");
    assert("xmlns"@ =~= xmlns_word());
    let attrs = feed_attributes(f);
    let rest = pair_attributes("xml:base"@, f.base, "xml:lang"@, f.lang);
    assert(attrs == seq![("xmlns"@, ATOM_NAMESPACE@)] + rest);
    // The declaration, then two attributes that declare nothing.
    lemma_optional_pair("xml:base"@, f.base, "xml:lang"@, f.lang, "xml:base"@);
    lemma_optional_pair("xml:base"@, f.base, "xml:lang"@, f.lang, "xml:lang"@);
    assert forall|i: int| 1 <= i < attrs.len() implies declared_prefix((#[trigger] attrs[i]).0) is None by {
        assert(attrs[i] == rest[i - 1]);
        let k = rest[i - 1].0;
        assert(k == "xml:base"@ || k == "xml:lang"@);
        assert(k.len() == 8);
        assert(k.take(6)[3] == ':');
        assert(xmlns_colon()[3] == 'n');
    }
    let start = Map::<KeyView, Seq<char>>::empty().insert(Some(xml_word()), XML_NAMESPACE@);
    assert(declared_prefix(attrs[0].0) == Some(None::<Seq<char>>));
    assert(declaration_violation(None, ATOM_NAMESPACE@) is None);
    assert(start.insert(None, ATOM_NAMESPACE@) =~= child_scope());
    lemma_skip_own(attrs, 1, attrs.len() as int, child_scope());
    assert(element_scope(attrs, Map::empty()) == Ok::<Map<KeyView, Seq<char>>, ErrorView>(child_scope()));
    // The values of `xml:base` and `xml:lang`.
    lemma_attribute_value_append(seq![("xmlns"@, ATOM_NAMESPACE@)], rest, "xml:base"@);
    lemma_attribute_value_append(seq![("xmlns"@, ATOM_NAMESPACE@)], rest, "xml:lang"@);
    lemma_attribute_value_one("xmlns"@, ATOM_NAMESPACE@, "xml:base"@);
    lemma_attribute_value_one("xmlns"@, ATOM_NAMESPACE@, "xml:lang"@);
}

/// A feed read back gives the feed back.
///
/// The events that [`feed_events`] makes for a feed, read as a document by
/// [`parse_feed_document`], give a feed with the same title, id, timestamp,
/// categories, generator, icon, links, logo, rights, subtitle, base and
/// language; its authors, contributors and entries come back with the same
/// fields, and its extensions come back equivalent.
#[verifier::spinoff_prover]
#[verifier::rlimit(80)]
pub proof fn law_feed_read_after_write(f: FeedView)
    requires
        feed_events(f) is Ok,
    ensures
        parse_feed_document(feed_events(f)->Ok_0, 0) matches Ok(g) && same_feed(g, f),
{
    reveal(feed_head);
    let s = child_scope();
    lemma_child_names();
    let ev = feed_events(f)->Ok_0;
    let a = persons_events(f.authors, "author"@)->Ok_0;
    let c = persons_events(f.contributors, "contributor"@)->Ok_0;
    let en = entries_events(f.entries)->Ok_0;
    let x = extensions_events(f.extensions, atom_scope())->Ok_0;
    let start = seq![EventView::Start { name: "feed"@, attributes: feed_attributes(f) }];
    let te = text_element_events("title"@, f.title);
    let ie = text_element_events("id"@, f.id);
    let ue = text_element_events("updated"@, f.updated);
    let ce = categories_events(f.categories);
    let mid = feed_middle(f);
    let end = seq![EventView::End { name: "feed"@ }];
    assert(feed_head(f) == start + te + ie + ue);
    assert(ev == start + te + ie + ue + a + ce + c + mid + en + x + end);
    assert(ev.subrange(0, ev.len() as int) =~= ev);
    lemma_at_split(ev, 0, start + te + ie + ue + a + ce + c + mid + en + x, end);
    lemma_at_split(ev, 0, start + te + ie + ue + a + ce + c + mid + en, x);
    lemma_at_split(ev, 0, start + te + ie + ue + a + ce + c + mid, en);
    lemma_at_split(ev, 0, start + te + ie + ue + a + ce + c, mid);
    lemma_at_split(ev, 0, start + te + ie + ue + a + ce, c);
    lemma_at_split(ev, 0, start + te + ie + ue + a, ce);
    lemma_at_split(ev, 0, start + te + ie + ue, a);
    lemma_at_split(ev, 0, start + te + ie, ue);
    lemma_at_split(ev, 0, start + te, ie);
    lemma_at_split(ev, 0, start, te);
    lemma_at_index(ev, 0, start, 0);
    lemma_feed_start_tag(f);
    let acc0 = FeedView { base: f.base, lang: f.lang, ..empty_feed() };
    // The title, id and timestamp.
    lemma_core_child("title"@, seq![]);
    lemma_core_child("id"@, seq![]);
    lemma_core_child("updated"@, seq![]);
    lemma_text_element(ev, 1, "title"@, f.title);
    let acc1 = FeedView { title: f.title, ..acc0 };
    assert(feed_child(ev, 1, "title"@, seq![], s, acc0) == Ok::<(FeedView, int), ErrorView>((acc1, 4)));
    assert(parse_feed_body(ev, 1, s, acc0) == parse_feed_body(ev, 4, s, acc1));
    lemma_text_element(ev, 4, "id"@, f.id);
    let acc2 = FeedView { id: f.id, ..acc1 };
    assert(feed_child(ev, 4, "id"@, seq![], s, acc1) == Ok::<(FeedView, int), ErrorView>((acc2, 7)));
    assert(parse_feed_body(ev, 4, s, acc1) == parse_feed_body(ev, 7, s, acc2));
    lemma_text_element(ev, 7, "updated"@, f.updated);
    let acc3 = FeedView { updated: f.updated, ..acc2 };
    assert(feed_child(ev, 7, "updated"@, seq![], s, acc2) == Ok::<(FeedView, int), ErrorView>((acc3, 10)));
    assert(parse_feed_body(ev, 7, s, acc2) == parse_feed_body(ev, 10, s, acc3));
    // The authors, categories and contributors.
    let j4 = 10int;
    assert(person_element(false) == "author"@);
    let ps = lemma_feed_persons(ev, j4, f.authors, false, acc3);
    let acc4 = with_persons(acc3, ps, false);
    let j5 = j4 + a.len();
    lemma_feed_categories(ev, j5, f.categories, acc4);
    let acc5 = FeedView { categories: acc4.categories + f.categories, ..acc4 };
    let j6 = j5 + ce.len();
    assert(person_element(true) == "contributor"@);
    let cs = lemma_feed_persons(ev, j6, f.contributors, true, acc5);
    let acc6 = with_persons(acc5, cs, true);
    // The generator, icon, links, logo, rights and subtitle.
    let j7 = j6 + c.len();
    lemma_feed_middle(ev, j7, f, acc6);
    let acc7 = FeedView {
        generator: f.generator,
        icon: f.icon,
        links: acc6.links + f.links,
        logo: f.logo,
        rights: f.rights,
        subtitle: f.subtitle,
        ..acc6
    };
    // The entries and extensions.
    let j8 = j7 + mid.len();
    let es = lemma_feed_entries(ev, j8, f.entries, acc7);
    let acc8 = FeedView { entries: acc7.entries + es, ..acc7 };
    let j9 = j8 + en.len();
    let xs = lemma_feed_extensions(ev, j9, f.extensions, acc8);
    let acc9 = FeedView { extensions: acc8.extensions + xs, ..acc8 };
    // The end tag.
    let j10 = j9 + x.len();
    lemma_at_index(ev, j10, end, 0);
    assert(parse_feed_body(ev, j10, s, acc9) == Ok::<(FeedView, int), ErrorView>((acc9, j10 + 1)));
    assert(parse_feed(ev, 1, feed_attributes(f)) == Ok::<(FeedView, int), ErrorView>((acc9, j10 + 1)));
    reveal_strlit("feed");
    assert(acc9.authors =~= ps);
    assert(acc9.categories =~= f.categories);
    assert(acc9.contributors =~= cs);
    assert(acc9.links =~= f.links);
    assert(acc9.entries =~= es);
    assert(acc9.extensions =~= xs);
}

} // verus!
