//! Writing simple elements and lists of extensions as XML events.

use vstd::prelude::*;


use crate::error::{ErrorView, NamespaceErrorView, XmlError};
use crate::extension::{Extension, ExtensionView};
use crate::extension_writer::write_extension;
use crate::namespace::ATOM_NAMESPACE;
use crate::scope::{KeyView, NamespaceScope};
use crate::xml::{events_view, EventView, XmlEvent};

verus! {

/// A start tag without attributes, character data, and the end tag.
pub open spec fn text_element_events(name: Seq<char>, text: Seq<char>) -> Seq<EventView> {
    seq![
        EventView::Start { name, attributes: seq![] },
        EventView::Text(text),
        EventView::End { name },
    ]
}

/// The text element for an optional value: nothing when absent.
pub open spec fn optional_text_element_events(name: Seq<char>, text: Option<Seq<char>>) -> Seq<
    EventView,
> {
    match text {
        Some(t) => text_element_events(name, t),
        None => seq![],
    }
}

/// The scope of an Atom element's children: the Atom namespace is the default.
pub open spec fn atom_scope() -> Map<KeyView, Seq<char>> {
    Map::empty().insert(None, ATOM_NAMESPACE@)
}

/// The events of a list of extensions written in one scope, in order; the
/// first failure is the result.
pub open spec fn extensions_events(
    exts: Seq<ExtensionView>,
    scope: Map<KeyView, Seq<char>>,
) -> Result<Seq<EventView>, NamespaceErrorView>
    decreases exts.len(),
{
    if exts.len() == 0 {
        Ok(seq![])
    } else {
        match write_extension(exts[0], scope) {
            Err(e) => Err(e),
            Ok(first) => match extensions_events(exts.drop_first(), scope) {
                Err(e) => Err(e),
                Ok(rest) => Ok(first + rest),
            },
        }
    }
}

/// The views of a list of extensions.
pub open spec fn extension_views(e: Seq<Extension>) -> Seq<ExtensionView> {
    e.map_values(|x: Extension| x@)
}

/// Writes a start tag without attributes, `text`, and the end tag.
pub fn write_text_element(writer: &mut Vec<XmlEvent>, name: &str, text: &str)
    ensures
        events_view(final(writer)@) == events_view(old(writer)@) + text_element_events(
            name@,
            text@,
        ),
{
    let ghost w0 = events_view(writer@);
    let attributes: Vec<crate::xml::XmlAttribute> = Vec::new();
    assert(crate::xml::attributes_view(attributes@) =~= seq![]);
    writer.push(XmlEvent::Start { name: String::from_str(name), attributes });
    writer.push(XmlEvent::Text(String::from_str(text)));
    writer.push(XmlEvent::End { name: String::from_str(name) });
    assert(events_view(writer@) =~= w0 + text_element_events(name@, text@));
}

/// A scope whose default namespace is Atom.
pub fn new_atom_scope() -> (r: NamespaceScope)
    ensures
        r@ == atom_scope(),
{
    let mut scope = NamespaceScope::new();
    scope.insert(None, String::from_str(ATOM_NAMESPACE));
    scope
}

/// Writes each extension in `scope`, in order.
pub fn write_extensions(writer: &mut Vec<XmlEvent>, extensions: &Vec<Extension>, scope: &NamespaceScope) -> (r:
    Result<(), XmlError>)
    ensures
        match extensions_events(extension_views(extensions@), scope@) {
            Ok(evs) => r is Ok && events_view(final(writer)@) == events_view(old(writer)@) + evs,
            Err(v) => r matches Err(e) && e@ == ErrorView::Namespace(v),
        },
{
    let ghost w0 = events_view(writer@);
    let ghost xs = extension_views(extensions@);
    let ghost mut produced: Seq<EventView> = seq![];
    let n = extensions.len();
    let mut i: usize = 0;
    assert(xs.skip(0) =~= xs);
    while i < n
        invariant
            i <= n,
            n == extensions@.len(),
            xs == extension_views(extensions@),
            events_view(writer@) == w0 + produced,
            extensions_events(xs, scope@) == crate::extension_writer::after(
                produced,
                extensions_events(xs.skip(i as int), scope@),
            ),
        decreases n - i,
    {
        let ghost s = xs.skip(i as int);
        assert(s[0] == extensions@[i as int]@);
        assert(s.drop_first() =~= xs.skip(i + 1));
        match extensions[i].to_xml_with_scope(writer, scope) {
            Ok(()) => {},
            Err(e) => {
                return Err(e);
            },
        }
        proof {
            let evs = write_extension(s[0], scope@)->Ok_0;
            match extensions_events(xs.skip(i + 1), scope@) {
                Ok(rest) => {
                    assert(produced + (evs + rest) =~= (produced + evs) + rest);
                },
                Err(_) => {},
            }
            produced = produced + evs;
        }
        i = i + 1;
    }
    assert(xs.skip(n as int) =~= Seq::<ExtensionView>::empty());
    assert(produced + Seq::<EventView>::empty() =~= produced);
    Ok(())
}

} // verus!
