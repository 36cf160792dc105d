//! Reading simple element content from XML events.

use vstd::prelude::*;

use crate::chars::copy_string;
use crate::error::{Error, ErrorView};
use crate::xml::{events_view, EventView, XmlEvent};

verus! {

/// The index just past the end tag that closes the element whose content
/// starts at `ev[j]`, `depth` elements deep inside it.
pub open spec fn skip_to_end(ev: Seq<EventView>, j: int, depth: nat) -> Result<int, ErrorView>
    decreases ev.len() - j,
{
    if j < 0 || j >= ev.len() {
        Err(ErrorView::Eof)
    } else {
        match ev[j] {
            EventView::Start { .. } => skip_to_end(ev, j + 1, depth + 1),
            EventView::End { .. } => if depth == 0 {
                Ok(j + 1)
            } else {
                skip_to_end(ev, j + 1, (depth - 1) as nat)
            },
            _ => skip_to_end(ev, j + 1, depth),
        }
    }
}

/// How one event changes the number of elements open: a start tag opens one,
/// an end tag closes one.
pub open spec fn nesting_step(e: EventView) -> int {
    match e {
        EventView::Start { .. } => 1,
        EventView::End { .. } => -1,
        _ => 0,
    }
}

/// The number of elements that the events `ev[j..j + t]` leave open (below
/// zero when they close more than they open).
pub open spec fn nesting(ev: Seq<EventView>, j: int, t: nat) -> int
    decreases t,
{
    if t == 0 {
        0
    } else {
        nesting(ev, j, (t - 1) as nat) + nesting_step(ev[j + t - 1])
    }
}

proof fn lemma_skip_from(ev: Seq<EventView>, j: int, k: int, i: int)
    requires
        0 <= j <= i <= k < ev.len(),
        ev[k] is End,
        forall|t: nat| t <= k - j ==> #[trigger] nesting(ev, j, t) >= 0,
        nesting(ev, j, (k - j) as nat) == 0,
    ensures
        skip_to_end(ev, i, nesting(ev, j, (i - j) as nat) as nat) == Ok::<int, ErrorView>(k + 1),
    decreases k - i,
{
    let d = nesting(ev, j, (i - j) as nat);
    assert(d >= 0);
    if i < k {
        assert(nesting(ev, j, (i + 1 - j) as nat) == d + nesting_step(ev[i]));
        assert(nesting(ev, j, (i + 1 - j) as nat) >= 0);
        lemma_skip_from(ev, j, k, i + 1);
    }
}

/// Skipping an element returns the index just past its own end tag: when
/// the events `ev[j..k]` between its start tag and `ev[k]`, an end tag, are
/// well nested (no prefix of them closes more elements than it opens, and
/// all of them close as many as they open), skipping from `ev[j]` ends just
/// past `ev[k]`, whatever end tags of nested elements come before it.
pub proof fn law_skip_ends_at_own_end_tag(ev: Seq<EventView>, j: int, k: int)
    requires
        0 <= j <= k < ev.len(),
        ev[k] is End,
        forall|t: nat| t <= k - j ==> #[trigger] nesting(ev, j, t) >= 0,
        nesting(ev, j, (k - j) as nat) == 0,
    ensures
        skip_to_end(ev, j, 0) == Ok::<int, ErrorView>(k + 1),
{
    lemma_skip_from(ev, j, k, j);
}

/// The character data of one event, if it holds any.
pub open spec fn event_text(e: EventView) -> Option<Seq<char>> {
    match e {
        EventView::Text(t) => Some(t),
        EventView::CData(t) => Some(t),
        EventView::Reference { name, resolved } => Some(
            match resolved {
                Some(t) => t,
                None => seq!['&'] + name + seq![';'],
            },
        ),
        _ => None,
    }
}

/// The character data directly inside the element whose content starts at
/// `ev[j]` (`None` when there is none; nested elements are skipped), and the
/// index just past its end tag.
pub open spec fn element_text(
    ev: Seq<EventView>,
    j: int,
    depth: nat,
    acc: Option<Seq<char>>,
) -> Result<(Option<Seq<char>>, int), ErrorView>
    decreases ev.len() - j,
{
    if j < 0 || j >= ev.len() {
        Err(ErrorView::Eof)
    } else {
        match ev[j] {
            EventView::Start { .. } => element_text(ev, j + 1, depth + 1, acc),
            EventView::End { .. } => if depth == 0 {
                Ok((acc, j + 1))
            } else {
                element_text(ev, j + 1, (depth - 1) as nat, acc)
            },
            _ => {
                let acc2 = if depth == 0 && event_text(ev[j]) is Some {
                    Some(
                        match acc {
                            Some(a) => a + event_text(ev[j])->0,
                            None => event_text(ev[j])->0,
                        },
                    )
                } else {
                    acc
                };
                element_text(ev, j + 1, depth, acc2)
            },
        }
    }
}

/// Skips the rest of the element whose content starts at `events[pos]`;
/// returns the index just past its end tag.
pub fn skip(events: &Vec<XmlEvent>, pos: usize) -> (r: Result<usize, Error>)
    ensures
        match skip_to_end(events_view(events@), pos as int, 0) {
            Ok(k) => r matches Ok(x) && x == k,
            Err(e) => r matches Err(x) && x@ == e,
        },
        r matches Ok(k) ==> pos < k <= events@.len(),
{
    let ghost ev = events_view(events@);
    let n = events.len();
    if pos > n {
        return Err(Error::Eof);
    }
    let mut j = pos;
    let mut depth: usize = 0;
    while j < n
        invariant
            pos <= j <= n,
            n == events@.len(),
            ev == events_view(events@),
            depth <= j - pos,
            skip_to_end(ev, pos as int, 0) == skip_to_end(ev, j as int, depth as nat),
        decreases n - j,
    {
        assert(ev[j as int] == events@[j as int]@);
        match &events[j] {
            XmlEvent::Start { .. } => {
                depth = depth + 1;
            },
            XmlEvent::End { .. } => {
                if depth == 0 {
                    return Ok(j + 1);
                }
                depth = depth - 1;
            },
            _ => {},
        }
        j = j + 1;
    }
    Err(Error::Eof)
}

/// The character data directly inside the element whose content starts at
/// `events[pos]`, and the index just past its end tag.
pub fn atom_text(events: &Vec<XmlEvent>, pos: usize) -> (r: Result<(Option<String>, usize), Error>)
    ensures
        match element_text(events_view(events@), pos as int, 0, None) {
            Ok((t, k)) => r matches Ok((x, y)) && x.deep_view() == t && y == k,
            Err(e) => r matches Err(x) && x@ == e,
        },
        r matches Ok((_, k)) ==> pos < k <= events@.len(),
{
    let ghost ev = events_view(events@);
    let n = events.len();
    if pos > n {
        return Err(Error::Eof);
    }
    let mut j = pos;
    let mut depth: usize = 0;
    let mut text: Option<String> = None;
    while j < n
        invariant
            pos <= j <= n,
            n == events@.len(),
            ev == events_view(events@),
            depth <= j - pos,
            element_text(ev, pos as int, 0, None) == element_text(
                ev,
                j as int,
                depth as nat,
                text.deep_view(),
            ),
        decreases n - j,
    {
        assert(ev[j as int] == events@[j as int]@);
        let piece: Option<String> = match &events[j] {
            XmlEvent::Start { .. } => {
                depth = depth + 1;
                None
            },
            XmlEvent::End { .. } => {
                if depth == 0 {
                    return Ok((text, j + 1));
                }
                depth = depth - 1;
                None
            },
            XmlEvent::Text(t) => Some(copy_string(t)),
            XmlEvent::CData(t) => Some(copy_string(t)),
            XmlEvent::Reference { name, resolved } => match resolved {
                Some(x) => Some(copy_string(x)),
                None => {
                    proof {
                        reveal_strlit("&");
                        reveal_strlit(";");
                    }
                    let mut t = String::from_str("&");
                    t.append(name.as_str());
                    t.append(";");
                    assert(t@ =~= seq!['&'] + name@ + seq![';']);
                    Some(t)
                },
            },
            XmlEvent::Other => None,
        };
        if depth == 0 {
            match piece {
                Some(p) => {
                    let joined = match text {
                        Some(mut a) => {
                            a.append(p.as_str());
                            a
                        },
                        None => p,
                    };
                    text = Some(joined);
                },
                None => {},
            }
        }
        j = j + 1;
    }
    Err(Error::Eof)
}

} // verus!
