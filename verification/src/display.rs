//! What a page about one shipment shows, worked out from its result: the
//! events with the newest first, how far the shipment has come, and the
//! label of its latest step.

use vstd::prelude::*;
use crate::models::{Event, EventView, Timeline, TimelineView};

verus! {

/// An instant as one number: later instants have greater numbers.
pub open spec fn instant_of(e: EventView) -> int {
    e.occurrence_datetime.seconds * 0x1_0000_0000 + e.occurrence_datetime.nanos
}

/// No event stands before a later one.
pub open spec fn is_newest_first(s: Seq<EventView>) -> bool {
    forall|i: int, j: int| 0 <= i < j < s.len() ==> instant_of(s[i]) >= instant_of(s[j])
}

/// The events of one instant, in the order in which they stand.
pub open spec fn at_instant(s: Seq<EventView>, at: int) -> Seq<EventView>
    decreases s.len(),
{
    if s.len() == 0 {
        Seq::empty()
    } else if instant_of(s.last()) == at {
        at_instant(s.drop_last(), at).push(s.last())
    } else {
        at_instant(s.drop_last(), at)
    }
}

/// `history` holds the events of `given`, the newest first, those of one
/// instant in the order they had.
pub open spec fn is_history_of(history: Seq<EventView>, given: Seq<EventView>) -> bool {
    &&& is_newest_first(history)
    &&& forall|at: int| #[trigger] at_instant(history, at) == at_instant(given, at)
}

/// How many steps are flagged.
pub open spec fn flagged(s: Seq<TimelineView>) -> nat
    decreases s.len(),
{
    if s.len() == 0 {
        0
    } else if s.last().status {
        flagged(s.drop_last()) + 1
    } else {
        flagged(s.drop_last())
    }
}

/// The label of the last step that has one.
pub open spec fn last_label(s: Seq<TimelineView>) -> Option<Seq<char>>
    decreases s.len(),
{
    if s.len() == 0 {
        None
    } else if s.last().short_label.len() > 0 {
        Some(s.last().short_label)
    } else {
        last_label(s.drop_last())
    }
}

proof fn lemma_at_instant_concat(a: Seq<EventView>, b: Seq<EventView>, at: int)
    ensures
        at_instant(a + b, at) == at_instant(a, at) + at_instant(b, at),
    decreases b.len(),
{
    if b.len() == 0 {
        assert(a + b =~= a);
        assert(at_instant(a, at) + at_instant(b, at) =~= at_instant(a, at));
    } else {
        assert((a + b).drop_last() =~= a + b.drop_last());
        lemma_at_instant_concat(a, b.drop_last(), at);
        if instant_of(b.last()) == at {
            assert(at_instant(a, at) + at_instant(b.drop_last(), at).push(b.last()) =~= (
            at_instant(a, at) + at_instant(b.drop_last(), at)).push(b.last()));
        }
    }
}

proof fn lemma_at_instant_none(s: Seq<EventView>, at: int)
    requires
        forall|i: int| 0 <= i < s.len() ==> instant_of(#[trigger] s[i]) != at,
    ensures
        at_instant(s, at) == Seq::<EventView>::empty(),
    decreases s.len(),
{
    if s.len() > 0 {
        lemma_at_instant_none(s.drop_last(), at);
    }
}

/// Moving the event at `i` up to `p`, past earlier events only, leaves
/// the events of every instant in their order and extends the sorted part.
proof fn lemma_insert_newest_first(before: Seq<EventView>, p: int, i: int)
    requires
        0 <= p <= i < before.len(),
        is_newest_first(before.take(i)),
        forall|k: int| p <= k < i ==> instant_of(#[trigger] before[k]) < instant_of(before[i]),
        p == 0 || instant_of(before[p - 1]) >= instant_of(before[i]),
    ensures
        is_newest_first(before.remove(i).insert(p, before[i]).take(i + 1)),
        forall|at: int| #[trigger]
            at_instant(before.remove(i).insert(p, before[i]), at) == at_instant(before, at),
{
    let x = before[i];
    let after = before.remove(i).insert(p, x);
    let head = before.take(p);
    let mid = before.subrange(p, i);
    let tail = before.skip(i + 1);
    assert(before =~= head + mid + seq![x] + tail);
    assert(after =~= head + seq![x] + mid + tail);
    let sorted = after.take(i + 1);
    assert forall|a: int, b: int| 0 <= a < b < sorted.len() implies instant_of(sorted[a])
        >= instant_of(sorted[b]) by {
        let low = if a < p { a } else { a - 1 };
        let high = if b < p { b } else { b - 1 };
        if a < p {
            assert(before.take(i)[a] == before[a]);
            assert(before.take(i)[p - 1] == before[p - 1]);
            if b > p {
                assert(before.take(i)[high] == before[high]);
            }
        } else if a > p {
            assert(before.take(i)[low] == before[low]);
            assert(before.take(i)[high] == before[high]);
        }
    }
    assert forall|at: int| #[trigger] at_instant(after, at) == at_instant(before, at) by {
        lemma_at_instant_concat(head + mid + seq![x], tail, at);
        lemma_at_instant_concat(head + mid, seq![x], at);
        lemma_at_instant_concat(head, mid, at);
        lemma_at_instant_concat(head + seq![x] + mid, tail, at);
        lemma_at_instant_concat(head + seq![x], mid, at);
        lemma_at_instant_concat(head, seq![x], at);
        if at == instant_of(x) {
            lemma_at_instant_none(mid, at);
        } else {
            lemma_at_instant_none(seq![x], at);
        }
        assert(at_instant(after, at) =~= at_instant(before, at));
    }
}

/// Whether the first event occurred after the second.
pub fn is_later(first: &Event, second: &Event) -> (later: bool)
    ensures
        later == (instant_of(first@) > instant_of(second@)),
{
    let a = first.occurrence_datetime;
    let b = second.occurrence_datetime;
    a.seconds > b.seconds || (a.seconds == b.seconds && a.nanos > b.nanos)
}

fn copy_of(event: &Event) -> (copy: Event)
    ensures
        copy@ == event@,
{
    Event {
        status: match &event.status {
            Some(text) => Some(text.clone()),
            None => None,
        },
        occurrence_datetime: event.occurrence_datetime,
        status_milestone: event.status_milestone.clone(),
    }
}

/// The events with the newest first. Events of one instant keep the
/// order in which they were reported.
pub fn history_order(events: &Vec<Event>) -> (history: Vec<Event>)
    ensures
        is_history_of(history.deep_view(), events.deep_view()),
{
    let mut history: Vec<Event> = Vec::new();
    let mut n: usize = 0;
    while n < events.len()
        invariant
            n <= events.len(),
            history.len() == n,
            forall|k: int| 0 <= k < n ==> (#[trigger] history@[k])@ == events@[k]@,
        decreases events.len() - n,
    {
        history.push(copy_of(&events[n]));
        n += 1;
    }
    assert(history.deep_view() =~= events.deep_view());
    let ghost given = history.deep_view();
    let mut i: usize = 0;
    while i < history.len()
        invariant
            i <= history.len(),
            is_newest_first(history.deep_view().take(i as int)),
            forall|at: int| #[trigger] at_instant(history.deep_view(), at) == at_instant(given, at),
        decreases history.len() - i,
    {
        let mut p: usize = i;
        while p > 0 && is_later(&history[i], &history[p - 1])
            invariant
                p <= i < history.len(),
                forall|k: int|
                    p <= k < i ==> instant_of(#[trigger] history.deep_view()[k]) < instant_of(
                        history.deep_view()[i as int],
                    ),
            decreases p,
        {
            p -= 1;
        }
        let ghost before = history.deep_view();
        proof {
            lemma_insert_newest_first(before, p as int, i as int);
        }
        if p < i {
            let event = history.remove(i);
            history.insert(p, event);
            assert(history.deep_view() =~= before.remove(i as int).insert(
                p as int,
                before[i as int],
            ));
        } else {
            assert(before.remove(i as int).insert(p as int, before[i as int]) =~= before);
        }
        i += 1;
    }
    assert(history.deep_view().take(history.len() as int) =~= history.deep_view());
    history
}

/// How many steps of a timeline the shipment is past.
pub fn completed_steps(timeline: &Vec<Timeline>) -> (count: usize)
    ensures
        count == flagged(timeline.deep_view()),
        count <= timeline.len(),
{
    let mut count: usize = 0;
    let mut i: usize = 0;
    assert(timeline.deep_view().take(0) =~= Seq::<TimelineView>::empty());
    while i < timeline.len()
        invariant
            i <= timeline.len(),
            count <= i,
            count == flagged(timeline.deep_view().take(i as int)),
        decreases timeline.len() - i,
    {
        proof {
            let next = timeline.deep_view().take(i + 1);
            assert(next.drop_last() =~= timeline.deep_view().take(i as int));
            assert(next.last() == timeline@[i as int]@);
        }
        if timeline[i].status {
            count += 1;
        }
        i += 1;
    }
    assert(timeline.deep_view().take(timeline.len() as int) =~= timeline.deep_view());
    count
}

/// The label of the last step of a timeline that has one.
pub fn latest_label(timeline: &Vec<Timeline>) -> (label: Option<String>)
    ensures
        label.deep_view() == last_label(timeline.deep_view()),
{
    let mut i: usize = timeline.len();
    assert(timeline.deep_view().take(i as int) =~= timeline.deep_view());
    while i > 0
        invariant
            i <= timeline.len(),
            last_label(timeline.deep_view().take(i as int)) == last_label(timeline.deep_view()),
        decreases i,
    {
        proof {
            let upto = timeline.deep_view().take(i as int);
            assert(upto.drop_last() =~= timeline.deep_view().take(i - 1));
            assert(upto.last() == timeline@[i - 1]@);
        }
        if !timeline[i - 1].short_label.as_str().is_empty() {
            return Some(timeline[i - 1].short_label.clone());
        }
        i -= 1;
    }
    None
}

} // verus!
