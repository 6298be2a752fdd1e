//! From raw events to the displayed timeline.
//!
//! Every event gives one step: a label, the milestone it stands for, and
//! whether the shipment is past it. The steps are put in the order of the
//! milestones, without disturbing the order of steps of one milestone; then
//! only the first step of each milestone is kept. What comes out holds one
//! step for every milestone that occurs among the events, in rising rank.

use vstd::prelude::*;
use crate::milestone::StatusMilestone;
use crate::models::{Event, EventView, Timeline, TimelineView};

verus! {

/// The milestone that an event's tag stands for.
pub open spec fn event_milestone(e: EventView) -> StatusMilestone {
    StatusMilestone::spec_from_str(e.status_milestone)
}

/// The label under which an event is shown: the carrier's own text, or the
/// phrase of the event's milestone where the carrier gave none.
pub open spec fn event_label(e: EventView) -> Seq<char> {
    match e.status {
        Some(text) => text,
        None => event_milestone(e).spec_phrase(),
    }
}

/// The step that an event gives in a shipment that stands at `current`.
pub open spec fn step_of(e: EventView, current: StatusMilestone) -> TimelineView {
    TimelineView {
        short_label: event_label(e),
        status: event_milestone(e).spec_is_completed_at(current),
        milestone: event_milestone(e),
    }
}

/// The steps of all events, in the order of the events.
pub open spec fn steps_of(events: Seq<EventView>, current: StatusMilestone) -> Seq<TimelineView> {
    Seq::new(events.len(), |i: int| step_of(events[i], current))
}

/// The rank of a step's milestone.
pub open spec fn rank(t: TimelineView) -> int {
    t.milestone.spec_order() as int
}

/// The steps of one rank, in the order in which they stand.
pub open spec fn of_rank(s: Seq<TimelineView>, r: int) -> Seq<TimelineView>
    decreases s.len(),
{
    if s.len() == 0 {
        Seq::empty()
    } else if rank(s.last()) == r {
        of_rank(s.drop_last(), r).push(s.last())
    } else {
        of_rank(s.drop_last(), r)
    }
}

/// No step stands before one of lower rank.
pub open spec fn is_ascending(s: Seq<TimelineView>) -> bool {
    forall|i: int, j: int| 0 <= i < j < s.len() ==> rank(s[i]) <= rank(s[j])
}

/// Every step is of higher rank than the one before it.
pub open spec fn is_strictly_ascending(s: Seq<TimelineView>) -> bool {
    forall|i: int, j: int| 0 <= i < j < s.len() ==> rank(s[i]) < rank(s[j])
}

/// `sorted` holds the steps of `given` in rising rank, those of one rank in
/// the order they had.
pub open spec fn is_stable_sort(sorted: Seq<TimelineView>, given: Seq<TimelineView>) -> bool {
    &&& is_ascending(sorted)
    &&& forall|r: int| #[trigger] of_rank(sorted, r) == of_rank(given, r)
}

/// The steps that are the first of their rank, in the order in which they
/// stand.
pub open spec fn first_occurrences(s: Seq<TimelineView>) -> Seq<TimelineView>
    decreases s.len(),
{
    if s.len() == 0 {
        Seq::empty()
    } else if of_rank(s.drop_last(), rank(s.last())).len() > 0 {
        first_occurrences(s.drop_last())
    } else {
        first_occurrences(s.drop_last()).push(s.last())
    }
}

/// For each rank below `r`, in rising order, the first step of that rank
/// if there is one.
pub open spec fn firsts_below(s: Seq<TimelineView>, r: int) -> Seq<TimelineView>
    decreases r,
{
    if r <= 0 {
        Seq::empty()
    } else if of_rank(s, r - 1).len() > 0 {
        firsts_below(s, r - 1).push(of_rank(s, r - 1)[0])
    } else {
        firsts_below(s, r - 1)
    }
}

/// The steps with their flags set for a shipment that stands at `current`.
pub open spec fn marked(s: Seq<TimelineView>, current: StatusMilestone) -> Seq<TimelineView> {
    Seq::new(
        s.len(),
        |i: int|
            TimelineView {
                short_label: s[i].short_label,
                status: s[i].milestone.spec_is_completed_at(current),
                milestone: s[i].milestone,
            },
    )
}

/// The timeline of a shipment that stands at `current`: for each milestone
/// in rising rank, the step of the first event that has it, if any has.
pub open spec fn timeline_of(events: Seq<EventView>, current: StatusMilestone) -> Seq<
    TimelineView,
> {
    firsts_below(steps_of(events, current), 8)
}

/// For each rank below `r`, in rising order, all steps of that rank.
pub open spec fn ranks_below(s: Seq<TimelineView>, r: int) -> Seq<TimelineView>
    decreases r,
{
    if r <= 0 {
        Seq::empty()
    } else {
        ranks_below(s, r - 1) + of_rank(s, r - 1)
    }
}

proof fn lemma_of_rank_concat(a: Seq<TimelineView>, b: Seq<TimelineView>, r: int)
    ensures
        of_rank(a + b, r) == of_rank(a, r) + of_rank(b, r),
    decreases b.len(),
{
    if b.len() == 0 {
        assert(a + b =~= a);
        assert(of_rank(a, r) + of_rank(b, r) =~= of_rank(a, r));
    } else {
        assert((a + b).drop_last() =~= a + b.drop_last());
        lemma_of_rank_concat(a, b.drop_last(), r);
        if rank(b.last()) == r {
            assert(of_rank(a, r) + of_rank(b.drop_last(), r).push(b.last()) =~= (of_rank(a, r)
                + of_rank(b.drop_last(), r)).push(b.last()));
        }
    }
}

proof fn lemma_of_rank_members(s: Seq<TimelineView>, r: int)
    ensures
        of_rank(s, r).len() <= s.len(),
        forall|i: int| 0 <= i < of_rank(s, r).len() ==> rank(#[trigger] of_rank(s, r)[i]) == r,
        forall|i: int|
            0 <= i < of_rank(s, r).len() ==> s.contains(#[trigger] of_rank(s, r)[i]),
    decreases s.len(),
{
    if s.len() > 0 {
        lemma_of_rank_members(s.drop_last(), r);
        let rest = of_rank(s.drop_last(), r);
        assert forall|i: int| 0 <= i < of_rank(s, r).len() implies s.contains(
            #[trigger] of_rank(s, r)[i],
        ) by {
            if i < rest.len() {
                let k = choose|k: int| 0 <= k < s.drop_last().len() && s.drop_last()[k] == rest[i];
                assert(s[k] == rest[i]);
            } else {
                assert(s[s.len() - 1] == s.last());
            }
        }
    }
}

proof fn lemma_of_rank_all(s: Seq<TimelineView>, r: int)
    requires
        forall|i: int| 0 <= i < s.len() ==> rank(#[trigger] s[i]) == r,
    ensures
        of_rank(s, r) == s,
    decreases s.len(),
{
    if s.len() > 0 {
        lemma_of_rank_all(s.drop_last(), r);
        assert(s.drop_last().push(s.last()) =~= s);
    } else {
        assert(s =~= Seq::empty());
    }
}

proof fn lemma_of_rank_none(s: Seq<TimelineView>, r: int)
    requires
        forall|i: int| 0 <= i < s.len() ==> rank(#[trigger] s[i]) != r,
    ensures
        of_rank(s, r) == Seq::<TimelineView>::empty(),
    decreases s.len(),
{
    if s.len() > 0 {
        lemma_of_rank_none(s.drop_last(), r);
    }
}

/// A rank occurs among the steps exactly if `of_rank` is not empty.
proof fn lemma_of_rank_occurs(s: Seq<TimelineView>, r: int)
    ensures
        of_rank(s, r).len() > 0 <==> exists|i: int| 0 <= i < s.len() && rank(s[i]) == r,
    decreases s.len(),
{
    if s.len() > 0 {
        lemma_of_rank_occurs(s.drop_last(), r);
        if of_rank(s, r).len() > 0 {
            if rank(s.last()) == r {
                assert(rank(s[s.len() - 1]) == r);
            } else {
                let i = choose|i: int| 0 <= i < s.drop_last().len() && rank(s.drop_last()[i]) == r;
                assert(rank(s[i]) == r);
            }
        }
        if exists|i: int| 0 <= i < s.len() && rank(s[i]) == r {
            let i = choose|i: int| 0 <= i < s.len() && rank(s[i]) == r;
            if i < s.len() - 1 {
                assert(rank(s.drop_last()[i]) == r);
            }
        }
    }
}

/// Moving the step at `i` down to `p`, past steps of higher rank only,
/// leaves every rank's steps in their order and extends the sorted part.
proof fn lemma_insert_sorted(before: Seq<TimelineView>, p: int, i: int)
    requires
        0 <= p <= i < before.len(),
        is_ascending(before.take(i)),
        forall|k: int| p <= k < i ==> rank(#[trigger] before[k]) > rank(before[i]),
        p == 0 || rank(before[p - 1]) <= rank(before[i]),
    ensures
        is_ascending(before.remove(i).insert(p, before[i]).take(i + 1)),
        forall|r: int| #[trigger]
            of_rank(before.remove(i).insert(p, before[i]), r) == of_rank(before, r),
{
    let x = before[i];
    let after = before.remove(i).insert(p, x);
    let head = before.take(p);
    let mid = before.subrange(p, i);
    let tail = before.skip(i + 1);
    assert(before =~= head + mid + seq![x] + tail);
    assert(after =~= head + seq![x] + mid + tail);
    let sorted = after.take(i + 1);
    assert forall|a: int, b: int| 0 <= a < b < sorted.len() implies rank(sorted[a]) <= rank(
        sorted[b],
    ) by {
        let low = if a < p { a } else { a - 1 };
        let high = if b < p { b } else { b - 1 };
        if a < p {
            assert(before.take(i)[a] == before[a]);
            assert(before.take(i)[p - 1] == before[p - 1]);
            if b > p {
                assert(before.take(i)[high] == before[high]);
            }
        } else if a > p {
            assert(before.take(i)[low] == before[low]);
            assert(before.take(i)[high] == before[high]);
        }
    }
    assert forall|r: int| #[trigger] of_rank(after, r) == of_rank(before, r) by {
        lemma_of_rank_concat(head + mid + seq![x], tail, r);
        lemma_of_rank_concat(head + mid, seq![x], r);
        lemma_of_rank_concat(head, mid, r);
        lemma_of_rank_concat(head + seq![x] + mid, tail, r);
        lemma_of_rank_concat(head + seq![x], mid, r);
        lemma_of_rank_concat(head, seq![x], r);
        if r == rank(x) {
            lemma_of_rank_none(mid, r);
        } else {
            lemma_of_rank_none(seq![x], r);
        }
        assert(of_rank(after, r) =~= of_rank(before, r));
    }
}

/// The label under which an event is shown.
pub fn label_of(event: &Event) -> (label: String)
    ensures
        label@ == event_label(event@),
{
    match &event.status {
        Some(text) => text.clone(),
        None => String::from_str(StatusMilestone::from_str(event.status_milestone.as_str()).phrase()),
    }
}

/// Derives one step from every event, in the order of the events.
pub fn derive_steps(events: &Vec<Event>, current: StatusMilestone) -> (steps: Vec<Timeline>)
    ensures
        steps.deep_view() == steps_of(events.deep_view(), current),
{
    let mut steps: Vec<Timeline> = Vec::new();
    let mut i: usize = 0;
    while i < events.len()
        invariant
            i <= events.len(),
            steps.len() == i,
            forall|k: int| 0 <= k < i ==> (#[trigger] steps@[k])@ == step_of(events@[k]@, current),
        decreases events.len() - i,
    {
        let event = &events[i];
        let milestone = StatusMilestone::from_str(event.status_milestone.as_str());
        let step = Timeline {
            short_label: label_of(event),
            status: milestone.is_completed_at(current),
            milestone,
        };
        steps.push(step);
        i += 1;
    }
    assert(steps.deep_view() =~= steps_of(events.deep_view(), current));
    steps
}

/// Puts the steps in rising rank. Steps of one rank keep the order they
/// had, so the first step of a milestone stays its first.
pub fn sort_steps(steps: &mut Vec<Timeline>)
    ensures
        is_stable_sort(final(steps).deep_view(), old(steps).deep_view()),
{
    let ghost given = steps.deep_view();
    let mut i: usize = 0;
    while i < steps.len()
        invariant
            i <= steps.len(),
            is_ascending(steps.deep_view().take(i as int)),
            forall|r: int| #[trigger] of_rank(steps.deep_view(), r) == of_rank(given, r),
        decreases steps.len() - i,
    {
        let key: u8 = steps[i].milestone.order();
        let mut p: usize = i;
        while p > 0 && steps[p - 1].milestone.order() > key
            invariant
                p <= i < steps.len(),
                key == rank(steps.deep_view()[i as int]),
                forall|k: int| p <= k < i ==> rank(#[trigger] steps.deep_view()[k]) > key,
            decreases p,
        {
            p -= 1;
        }
        let ghost before = steps.deep_view();
        proof {
            lemma_insert_sorted(before, p as int, i as int);
        }
        if p < i {
            let step = steps.remove(i);
            steps.insert(p, step);
            assert(steps.deep_view() =~= before.remove(i as int).insert(p as int, before[i as int]));
        } else {
            assert(before.remove(i as int).insert(p as int, before[i as int]) =~= before);
        }
        i += 1;
    }
    assert(steps.deep_view().take(steps.len() as int) =~= steps.deep_view());
}

/// The views of a run of steps.
spec fn views(s: Seq<Timeline>) -> Seq<TimelineView> {
    Seq::new(s.len(), |i: int| s[i]@)
}

/// Keeping the first of each rank loses no rank and brings in none.
proof fn lemma_first_occurrences_ranks(s: Seq<TimelineView>, r: int)
    ensures
        of_rank(first_occurrences(s), r).len() > 0 <==> of_rank(s, r).len() > 0,
    decreases s.len(),
{
    if s.len() > 0 {
        let rest = s.drop_last();
        lemma_first_occurrences_ranks(rest, r);
        lemma_first_occurrences_ranks(rest, rank(s.last()));
        if of_rank(rest, rank(s.last())).len() == 0 {
            assert(first_occurrences(rest).push(s.last()).drop_last() =~= first_occurrences(rest));
        }
    }
}

/// Whether a step of the milestone stands among the steps.
fn holds_milestone(steps: &Vec<Timeline>, milestone: StatusMilestone) -> (found: bool)
    ensures
        found == (of_rank(steps.deep_view(), milestone.spec_order() as int).len() > 0),
{
    let mut i: usize = 0;
    while i < steps.len()
        invariant
            i <= steps.len(),
            forall|k: int| 0 <= k < i ==> rank(#[trigger] steps.deep_view()[k]) != milestone.spec_order(),
        decreases steps.len() - i,
    {
        if steps[i].milestone.order() == milestone.order() {
            proof {
                assert(rank(steps.deep_view()[i as int]) == milestone.spec_order());
                lemma_of_rank_occurs(steps.deep_view(), milestone.spec_order() as int);
            }
            return true;
        }
        i += 1;
    }
    proof {
        lemma_of_rank_occurs(steps.deep_view(), milestone.spec_order() as int);
    }
    false
}

/// Keeps, of the steps of each milestone, the one that stands first, and
/// leaves the kept steps in the order they had.
pub fn dedup_steps(steps: Vec<Timeline>) -> (kept: Vec<Timeline>)
    ensures
        kept.deep_view() == first_occurrences(steps.deep_view()),
{
    let ghost given = steps@;
    let mut kept: Vec<Timeline> = Vec::new();
    assert(views(given.take(0)) =~= Seq::<TimelineView>::empty());
    assert(kept.deep_view() =~= Seq::<TimelineView>::empty());
    for step in it: steps
        invariant
            it.seq() == given,
            kept.deep_view() == first_occurrences(views(given.take(it.index() as int))),
    {
        let ghost seen = views(given.take(it.index() as int));
        let ghost next = views(given.take(it.index() + 1));
        proof {
            assert(next.drop_last() =~= seen);
            assert(next.last() == step@);
            lemma_first_occurrences_ranks(seen, rank(step@));
        }
        if !holds_milestone(&kept, step.milestone) {
            let ghost before = kept.deep_view();
            kept.push(step);
            assert(kept.deep_view() =~= before.push(next.last()));
        }
    }
    assert(given.take(given.len() as int) =~= given);
    assert(views(given) =~= steps.deep_view());
    kept
}

/// Sets the flag of every step for a shipment that stands at `current`.
pub fn mark_completed(steps: &mut Vec<Timeline>, current: StatusMilestone)
    ensures
        final(steps).deep_view() == marked(old(steps).deep_view(), current),
{
    let ghost given = steps.deep_view();
    let mut i: usize = 0;
    while i < steps.len()
        invariant
            i <= steps.len(),
            steps.len() == given.len(),
            forall|k: int| 0 <= k < i ==> (#[trigger] steps@[k])@ == marked(given, current)[k],
            forall|k: int| i <= k < steps.len() ==> (#[trigger] steps@[k])@ == given[k],
        decreases steps.len() - i,
    {
        let done = steps[i].milestone.is_completed_at(current);
        let ghost before = steps@;
        steps[i].status = done;
        assert(forall|k: int| 0 <= k < steps.len() && k != i ==> #[trigger] steps@[k] == before[k]);
        i += 1;
    }
    assert(steps.deep_view() =~= marked(given, current));
}

proof fn lemma_ranks_below_push(t: Seq<TimelineView>, x: TimelineView, r: int)
    requires
        forall|i: int| 0 <= i < t.len() ==> rank(#[trigger] t[i]) <= rank(x),
    ensures
        r > rank(x) ==> ranks_below(t.push(x), r) == ranks_below(t, r).push(x),
        r <= rank(x) ==> ranks_below(t.push(x), r) == ranks_below(t, r),
    decreases r,
{
    if r > 0 {
        lemma_ranks_below_push(t, x, r - 1);
        assert(t.push(x).drop_last() =~= t);
        if r - 1 == rank(x) {
            assert(ranks_below(t, r - 1) + of_rank(t, r - 1).push(x) =~= (ranks_below(t, r - 1)
                + of_rank(t, r - 1)).push(x));
        } else if r - 1 > rank(x) {
            lemma_of_rank_none(t, r - 1);
            assert(ranks_below(t, r - 1).push(x) + Seq::<TimelineView>::empty() =~= ranks_below(
                t,
                r - 1,
            ).push(x));
            assert(ranks_below(t, r - 1) + Seq::<TimelineView>::empty() =~= ranks_below(t, r - 1));
        }
    }
}

/// Steps in rising rank are the steps of rank zero, then those of rank
/// one, and so on.
proof fn lemma_ascending_is_ranks_below(t: Seq<TimelineView>)
    requires
        is_ascending(t),
    ensures
        t == ranks_below(t, 8),
    decreases t.len(),
{
    if t.len() == 0 {
        reveal_with_fuel(ranks_below, 9);
        assert(ranks_below(t, 8) =~= t);
    } else {
        let rest = t.drop_last();
        let x = t.last();
        assert forall|i: int, j: int| 0 <= i < j < rest.len() implies rank(rest[i]) <= rank(
            rest[j],
        ) by {
            assert(rest[i] == t[i] && rest[j] == t[j]);
        }
        lemma_ascending_is_ranks_below(rest);
        assert forall|i: int| 0 <= i < rest.len() implies rank(#[trigger] rest[i]) <= rank(x) by {
            assert(rest[i] == t[i] && x == t[t.len() - 1]);
        }
        lemma_ranks_below_push(rest, x, 8);
        assert(rest.push(x) =~= t);
    }
}

proof fn lemma_ranks_below_same(a: Seq<TimelineView>, b: Seq<TimelineView>, r: int)
    requires
        forall|m: int| #[trigger] of_rank(a, m) == of_rank(b, m),
    ensures
        ranks_below(a, r) == ranks_below(b, r),
    decreases r,
{
    if r > 0 {
        lemma_ranks_below_same(a, b, r - 1);
        assert(of_rank(a, r - 1) == of_rank(b, r - 1));
    }
}

proof fn lemma_ranks_below_members(s: Seq<TimelineView>, r: int)
    ensures
        forall|i: int| 0 <= i < ranks_below(s, r).len() ==> rank(#[trigger] ranks_below(s, r)[i]) < r,
    decreases r,
{
    if r > 0 {
        lemma_ranks_below_members(s, r - 1);
        lemma_of_rank_members(s, r - 1);
        let low = ranks_below(s, r - 1);
        let top = of_rank(s, r - 1);
        assert forall|i: int| 0 <= i < ranks_below(s, r).len() implies rank(
            #[trigger] ranks_below(s, r)[i],
        ) < r by {
            if i < low.len() {
                assert(ranks_below(s, r)[i] == low[i]);
            } else {
                assert(ranks_below(s, r)[i] == top[i - low.len()]);
            }
        }
    }
}

proof fn lemma_first_occurrences_block(a: Seq<TimelineView>, b: Seq<TimelineView>, m: int)
    requires
        forall|i: int| 0 <= i < a.len() ==> rank(#[trigger] a[i]) != m,
        forall|i: int| 0 <= i < b.len() ==> rank(#[trigger] b[i]) == m,
    ensures
        b.len() > 0 ==> first_occurrences(a + b) == first_occurrences(a).push(b[0]),
        b.len() == 0 ==> first_occurrences(a + b) == first_occurrences(a),
    decreases b.len(),
{
    if b.len() == 0 {
        assert(a + b =~= a);
    } else {
        let rest = b.drop_last();
        assert((a + b).drop_last() =~= a + rest);
        assert((a + b).last() == b.last());
        lemma_first_occurrences_block(a, rest, m);
        lemma_of_rank_concat(a, rest, m);
        lemma_of_rank_none(a, m);
        lemma_of_rank_all(rest, m);
        assert(of_rank(a + rest, m) =~= rest);
        if rest.len() > 0 {
            assert(rest[0] == b[0]);
        }
    }
}

/// Keeping the first of each rank, of steps that stand rank by rank,
/// gives for each rank its first step.
proof fn lemma_first_occurrences_ranks_below(s: Seq<TimelineView>, r: int)
    ensures
        first_occurrences(ranks_below(s, r)) == firsts_below(s, r),
    decreases r,
{
    if r > 0 {
        lemma_first_occurrences_ranks_below(s, r - 1);
        lemma_ranks_below_members(s, r - 1);
        lemma_of_rank_members(s, r - 1);
        lemma_first_occurrences_block(ranks_below(s, r - 1), of_rank(s, r - 1), r - 1);
    }
}

proof fn lemma_firsts_below_members(s: Seq<TimelineView>, r: int)
    ensures
        forall|i: int|
            0 <= i < firsts_below(s, r).len() ==> s.contains(#[trigger] firsts_below(s, r)[i]),
        forall|i: int|
            0 <= i < firsts_below(s, r).len() ==> 0 <= rank(#[trigger] firsts_below(s, r)[i]) < r,
        is_strictly_ascending(firsts_below(s, r)),
    decreases r,
{
    if r > 0 {
        lemma_firsts_below_members(s, r - 1);
        lemma_of_rank_members(s, r - 1);
    }
}

/// Sorting the steps of the events, keeping the first of each milestone
/// and setting the flags gives the timeline.
proof fn lemma_sorted_firsts_are_timeline(
    events: Seq<EventView>,
    current: StatusMilestone,
    sorted: Seq<TimelineView>,
)
    requires
        is_stable_sort(sorted, steps_of(events, current)),
    ensures
        marked(first_occurrences(sorted), current) == timeline_of(events, current),
{
    let steps = steps_of(events, current);
    lemma_ascending_is_ranks_below(sorted);
    lemma_ranks_below_same(sorted, steps, 8);
    lemma_first_occurrences_ranks_below(steps, 8);
    let timeline = timeline_of(events, current);
    lemma_firsts_below_members(steps, 8);
    assert forall|k: int| 0 <= k < timeline.len() implies marked(timeline, current)[k]
        == timeline[k] by {
        let i = choose|i: int| 0 <= i < steps.len() && steps[i] == timeline[k];
        assert(steps[i] == step_of(events[i], current));
    }
    assert(marked(timeline, current) =~= timeline);
}

/// The timeline of a shipment: one step for every milestone that occurs
/// among its events, in rising rank, each the step of the first event of
/// its milestone, flagged against the milestone at which the shipment
/// stands.
pub fn build_timeline(events: &Vec<Event>, current: StatusMilestone) -> (timeline: Vec<Timeline>)
    ensures
        timeline.deep_view() == timeline_of(events.deep_view(), current),
{
    let mut steps = derive_steps(events, current);
    sort_steps(&mut steps);
    let mut timeline = dedup_steps(steps);
    mark_completed(&mut timeline, current);
    proof {
        lemma_sorted_firsts_are_timeline(events.deep_view(), current, steps.deep_view());
    }
    timeline
}

/// The event at `i` is the first among the events that has its milestone.
pub open spec fn is_first_of_its_milestone(events: Seq<EventView>, i: int) -> bool {
    &&& 0 <= i < events.len()
    &&& forall|j: int| 0 <= j < i ==> event_milestone(#[trigger] events[j]) != event_milestone(events[i])
}

proof fn lemma_of_rank_first(s: Seq<TimelineView>, r: int)
    requires
        of_rank(s, r).len() > 0,
    ensures
        exists|i: int|
            0 <= i < s.len() && s[i] == of_rank(s, r)[0] && forall|j: int|
                0 <= j < i ==> rank(#[trigger] s[j]) != r,
    decreases s.len(),
{
    let rest = s.drop_last();
    if of_rank(rest, r).len() > 0 {
        lemma_of_rank_first(rest, r);
        let i = choose|i: int|
            0 <= i < rest.len() && rest[i] == of_rank(rest, r)[0] && forall|j: int|
                0 <= j < i ==> rank(#[trigger] rest[j]) != r;
        assert forall|j: int| 0 <= j < i implies rank(#[trigger] s[j]) != r by {
            assert(rest[j] == s[j]);
        }
        assert(s[i] == of_rank(s, r)[0]);
    } else {
        lemma_of_rank_occurs(rest, r);
        let i = s.len() - 1;
        assert forall|j: int| 0 <= j < i implies rank(#[trigger] s[j]) != r by {
            assert(rest[j] == s[j]);
        }
        assert(s[i] == of_rank(s, r)[0]);
    }
}

proof fn lemma_firsts_below_are_firsts(s: Seq<TimelineView>, r: int, k: int)
    requires
        0 <= k < firsts_below(s, r).len(),
    ensures
        of_rank(s, rank(firsts_below(s, r)[k])).len() > 0,
        firsts_below(s, r)[k] == of_rank(s, rank(firsts_below(s, r)[k]))[0],
    decreases r,
{
    if r > 0 {
        lemma_of_rank_members(s, r - 1);
        if k < firsts_below(s, r - 1).len() {
            lemma_firsts_below_are_firsts(s, r - 1, k);
        }
    }
}

proof fn lemma_firsts_below_covers(s: Seq<TimelineView>, r: int, m: int)
    requires
        0 <= m < r,
        of_rank(s, m).len() > 0,
    ensures
        exists|k: int| 0 <= k < firsts_below(s, r).len() && firsts_below(s, r)[k] == of_rank(s, m)[0],
    decreases r,
{
    if m == r - 1 {
        let k = firsts_below(s, r).len() - 1;
        assert(firsts_below(s, r)[k] == of_rank(s, m)[0]);
    } else {
        lemma_firsts_below_covers(s, r - 1, m);
        let lower = firsts_below(s, r - 1);
        let k = choose|k: int| 0 <= k < lower.len() && lower[k] == of_rank(s, m)[0];
        assert(firsts_below(s, r)[k] == of_rank(s, m)[0]);
    }
}

/// The steps of a timeline stand in rising rank.
pub proof fn lemma_timeline_is_ascending(events: Seq<EventView>, current: StatusMilestone)
    ensures
        is_ascending(timeline_of(events, current)),
        forall|i: int|
            0 <= i < timeline_of(events, current).len() - 1 ==> rank(
                #[trigger] timeline_of(events, current)[i],
            ) <= rank(timeline_of(events, current)[i + 1]),
{
    lemma_firsts_below_members(steps_of(events, current), 8);
}

/// No two steps of a timeline stand for the same milestone, so a timeline
/// has at most eight steps.
pub proof fn lemma_timeline_milestones_are_distinct(
    events: Seq<EventView>,
    current: StatusMilestone,
)
    ensures
        forall|i: int, j: int|
            0 <= i < timeline_of(events, current).len() && 0 <= j < timeline_of(
                events,
                current,
            ).len() && i != j ==> rank(#[trigger] timeline_of(events, current)[i]) != rank(
                #[trigger] timeline_of(events, current)[j],
            ),
        forall|i: int, j: int|
            0 <= i < timeline_of(events, current).len() && 0 <= j < timeline_of(
                events,
                current,
            ).len() && i != j ==> (#[trigger] timeline_of(events, current)[i]).milestone != (
            #[trigger] timeline_of(events, current)[j]).milestone,
        is_strictly_ascending(timeline_of(events, current)),
{
    let t = timeline_of(events, current);
    lemma_firsts_below_members(steps_of(events, current), 8);
    assert forall|i: int, j: int| 0 <= i < t.len() && 0 <= j < t.len() && i != j implies rank(
        #[trigger] t[i],
    ) != rank(#[trigger] t[j]) by {
        if i < j {
            assert(rank(t[i]) < rank(t[j]));
        } else {
            assert(rank(t[j]) < rank(t[i]));
        }
    }
}

/// A step is flagged exactly if the shipment is past its milestone: the
/// milestone at which the shipment stands is `Delivered`, or it is of
/// higher rank than the step's.
pub proof fn lemma_timeline_flags(events: Seq<EventView>, current: StatusMilestone)
    ensures
        forall|k: int|
            0 <= k < timeline_of(events, current).len() ==> (#[trigger] timeline_of(
                events,
                current,
            )[k]).status == (current == StatusMilestone::Delivered || rank(
                timeline_of(events, current)[k],
            ) < current.spec_order()),
{
    let steps = steps_of(events, current);
    let t = timeline_of(events, current);
    lemma_firsts_below_members(steps, 8);
    assert forall|k: int| 0 <= k < t.len() implies (#[trigger] t[k]).status == (current
        == StatusMilestone::Delivered || rank(t[k]) < current.spec_order()) by {
        let i = choose|i: int| 0 <= i < steps.len() && steps[i] == t[k];
        assert(steps[i] == step_of(events[i], current));
    }
}

/// Every step of the timeline of a delivered shipment is flagged.
pub proof fn lemma_delivered_timeline_is_complete(events: Seq<EventView>)
    ensures
        forall|k: int|
            0 <= k < timeline_of(events, StatusMilestone::Delivered).len() ==> (
            #[trigger] timeline_of(events, StatusMilestone::Delivered)[k]).status,
{
    lemma_timeline_flags(events, StatusMilestone::Delivered);
}

/// Every step of a timeline is the step of an event that is the first of
/// its milestone: a later event of the same milestone leaves no trace.
pub proof fn lemma_timeline_steps_are_first_events(
    events: Seq<EventView>,
    current: StatusMilestone,
    k: int,
)
    requires
        0 <= k < timeline_of(events, current).len(),
    ensures
        exists|i: int|
            is_first_of_its_milestone(events, i) && timeline_of(events, current)[k] == step_of(
                #[trigger] events[i],
                current,
            ),
{
    let steps = steps_of(events, current);
    let t = timeline_of(events, current);
    let r = rank(t[k]);
    lemma_firsts_below_are_firsts(steps, 8, k);
    lemma_of_rank_first(steps, r);
    let i = choose|i: int|
        0 <= i < steps.len() && steps[i] == of_rank(steps, r)[0] && forall|j: int|
            0 <= j < i ==> rank(#[trigger] steps[j]) != r;
    assert forall|j: int| 0 <= j < i implies event_milestone(#[trigger] events[j])
        != event_milestone(events[i]) by {
        assert(rank(steps[j]) != r);
    }
    assert(is_first_of_its_milestone(events, i));
    assert(t[k] == step_of(events[i], current));
}

/// Every milestone that occurs among the events has its step in the
/// timeline.
pub proof fn lemma_timeline_covers_events(
    events: Seq<EventView>,
    current: StatusMilestone,
    i: int,
)
    requires
        0 <= i < events.len(),
    ensures
        exists|k: int|
            0 <= k < timeline_of(events, current).len() && (#[trigger] timeline_of(
                events,
                current,
            )[k]).milestone == event_milestone(events[i]),
{
    let steps = steps_of(events, current);
    let m = event_milestone(events[i]);
    let r = m.spec_order() as int;
    assert(rank(steps[i]) == r);
    lemma_of_rank_occurs(steps, r);
    lemma_of_rank_members(steps, r);
    lemma_firsts_below_covers(steps, 8, r);
    let k = choose|k: int|
        0 <= k < firsts_below(steps, 8).len() && firsts_below(steps, 8)[k] == of_rank(steps, r)[0];
    StatusMilestone::lemma_order_is_total(timeline_of(events, current)[k].milestone, m);
}

} // verus!
