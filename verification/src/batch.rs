//! Bookkeeping for one batch of tracking numbers.
//!
//! A batch is the trimmed, non-empty lines of a text, each line a number
//! to fetch, duplicates and all. The numbers go out in chunks of ten
//! with a pause after each chunk; fetches run in between and report back
//! whenever they end. `Batch` holds who has been sent out and who has
//! reported, and says what to do next. It starts no fetch and does not
//! sleep: whoever drives it does, following the steps it hands out.
//! Every number keeps a slot for its result, so a batch that is done has
//! exactly one result for each of its numbers.

use vstd::prelude::*;
use crate::models::{ApiResponse, TrackingError, TrackingInfo, TrackingInfoView};
use crate::text::{split_lines, strings_view, trimmed_lines};
use crate::tracking::{fetched_view, spec_tracking_result, tracking_result};

verus! {

/// How many numbers go out at once.
pub const CHUNK_SIZE: usize = 10;

/// How long to wait after a chunk has gone out, in milliseconds.
pub const CHUNK_PAUSE_MILLIS: u64 = 200;

/// What the driver of a batch is to do next.
#[derive(Debug, PartialEq, Eq)]
pub enum BatchStep {
    /// Start one fetch for each of these numbers. They stand in the batch
    /// from position `first` on, and each fetch reports under its
    /// position.
    Launch { first: usize, numbers: Vec<String> },
    /// Let so many milliseconds pass.
    Pause { millis: u64 },
    /// Everything has gone out: report what the running fetches give.
    Collect,
    /// Every number has its result.
    Done,
}

pub enum BatchStepView {
    Launch { first: nat, numbers: Seq<Seq<char>> },
    Pause { millis: u64 },
    Collect,
    Done,
}

impl View for BatchStep {
    type V = BatchStepView;

    open spec fn view(&self) -> BatchStepView {
        match self {
            BatchStep::Launch { first, numbers } => BatchStepView::Launch {
                first: *first as nat,
                numbers: strings_view(numbers@),
            },
            BatchStep::Pause { millis } => BatchStepView::Pause { millis: *millis },
            BatchStep::Collect => BatchStepView::Collect,
            BatchStep::Done => BatchStepView::Done,
        }
    }
}

/// The state of a batch.
pub struct Batch {
    numbers: Vec<String>,
    launched: usize,
    pause_due: bool,
    slots: Vec<Option<TrackingInfo>>,
}

/// A batch as its contracts see it: the numbers, how many of them have
/// gone out, whether the pause after the last chunk is still to be taken,
/// and for each number its result once it is in.
pub struct BatchView {
    pub numbers: Seq<Seq<char>>,
    pub launched: nat,
    pub pause_due: bool,
    pub slots: Seq<Option<TrackingInfoView>>,
}

/// The results that are in, in the order of their numbers.
pub open spec fn present(slots: Seq<Option<TrackingInfoView>>) -> Seq<TrackingInfoView>
    decreases slots.len(),
{
    if slots.len() == 0 {
        Seq::empty()
    } else {
        match slots.last() {
            Some(info) => present(slots.drop_last()).push(info),
            None => present(slots.drop_last()),
        }
    }
}

/// How many numbers have no result yet.
pub open spec fn blanks(slots: Seq<Option<TrackingInfoView>>) -> nat
    decreases slots.len(),
{
    if slots.len() == 0 {
        0
    } else if slots.last() is None {
        blanks(slots.drop_last()) + 1
    } else {
        blanks(slots.drop_last())
    }
}

impl BatchView {
    /// What holds of every batch: no more has gone out than there is, every
    /// number has its slot, and only what has gone out has reported.
    pub open spec fn wf(self) -> bool {
        &&& self.launched <= self.numbers.len()
        &&& self.slots.len() == self.numbers.len()
        &&& forall|i: int| self.launched <= i < self.slots.len() ==> (#[trigger] self.slots[i]) is None
        &&& self.pause_due ==> self.launched > 0
    }

    /// Every number has its result.
    pub open spec fn all_reported(self) -> bool {
        forall|i: int| 0 <= i < self.slots.len() ==> (#[trigger] self.slots[i]) is Some
    }

    /// Where the chunk that goes out next ends.
    pub open spec fn chunk_end(self) -> nat {
        if self.launched + 10 <= self.numbers.len() {
            self.launched + 10
        } else {
            self.numbers.len()
        }
    }

    /// The step that comes next. After each chunk comes its pause, the
    /// last chunk too; when all is out, the driver collects until
    /// every number has reported.
    pub open spec fn step(self) -> BatchStepView {
        if self.pause_due {
            BatchStepView::Pause { millis: 200 }
        } else if self.launched < self.numbers.len() {
            BatchStepView::Launch {
                first: self.launched,
                numbers: self.numbers.subrange(self.launched as int, self.chunk_end() as int),
            }
        } else if self.all_reported() {
            BatchStepView::Done
        } else {
            BatchStepView::Collect
        }
    }

    /// The batch after its next step has been handed out.
    pub open spec fn after_step(self) -> BatchView {
        if self.pause_due {
            BatchView { pause_due: false, ..self }
        } else if self.launched < self.numbers.len() {
            BatchView { launched: self.chunk_end(), pause_due: true, ..self }
        } else {
            self
        }
    }

    /// What is left to do: two steps for every number that has not gone
    /// out, the pause if one is due, and a report for every number
    /// without a result.
    pub open spec fn work_left(self) -> nat {
        (2 * (self.numbers.len() - self.launched) + if self.pause_due {
            1int
        } else {
            0int
        } + blanks(self.slots)) as nat
    }

    /// Whether a report under `index` is taken: the number has gone out
    /// and has not reported before.
    pub open spec fn takes(self, index: nat) -> bool {
        index < self.launched && self.slots[index as int] is None
    }

    /// The batch after a report under `index` has been taken.
    pub open spec fn with_result(self, index: nat, info: TrackingInfoView) -> BatchView {
        BatchView { slots: self.slots.update(index as int, Some(info)), ..self }
    }
}

impl View for Batch {
    type V = BatchView;

    closed spec fn view(&self) -> BatchView {
        BatchView {
            numbers: strings_view(self.numbers@),
            launched: self.launched as nat,
            pause_due: self.pause_due,
            slots: self.slots.deep_view(),
        }
    }
}

impl Batch {
    /// A batch of the trimmed, non-empty lines of `input`, nothing sent
    /// out yet.
    pub fn new(input: &str) -> (batch: Batch)
        ensures
            batch@.wf(),
            batch@.numbers == trimmed_lines(input@),
            batch@.launched == 0,
            !batch@.pause_due,
            forall|i: int| 0 <= i < batch@.slots.len() ==> (#[trigger] batch@.slots[i]) is None,
    {
        let numbers = split_lines(input);
        let mut slots: Vec<Option<TrackingInfo>> = Vec::new();
        let mut i: usize = 0;
        while i < numbers.len()
            invariant
                i <= numbers.len(),
                slots.len() == i,
                forall|k: int| 0 <= k < i ==> (#[trigger] slots@[k]) is None,
            decreases numbers.len() - i,
        {
            slots.push(None);
            i += 1;
        }
        Batch { numbers, launched: 0, pause_due: false, slots }
    }

    /// How many numbers the batch holds.
    pub fn len(&self) -> (n: usize)
        ensures
            n == self@.numbers.len(),
    {
        self.numbers.len()
    }

    /// Whether every number has its result.
    pub fn is_complete(&self) -> (complete: bool)
        ensures
            complete == self@.all_reported(),
    {
        let mut i: usize = 0;
        while i < self.slots.len()
            invariant
                i <= self.slots.len(),
                forall|k: int| 0 <= k < i ==> (#[trigger] self.slots.deep_view()[k]) is Some,
            decreases self.slots.len() - i,
        {
            if self.slots[i].is_none() {
                assert(self.slots.deep_view()[i as int] is None);
                return false;
            }
            i += 1;
        }
        true
    }

    /// Says what the driver is to do next, and takes note that it was
    /// said.
    pub fn next_step(&mut self) -> (step: BatchStep)
        requires
            old(self)@.wf(),
        ensures
            final(self)@.wf(),
            step@ == old(self)@.step(),
            final(self)@ == old(self)@.after_step(),
    {
        if self.pause_due {
            self.pause_due = false;
            BatchStep::Pause { millis: CHUNK_PAUSE_MILLIS }
        } else if self.launched < self.numbers.len() {
            let first: usize = self.launched;
            let end: usize = if self.numbers.len() - first >= CHUNK_SIZE {
                first + CHUNK_SIZE
            } else {
                self.numbers.len()
            };
            let mut chunk: Vec<String> = Vec::new();
            let mut i: usize = first;
            while i < end
                invariant
                    first <= i <= end <= self.numbers.len(),
                    chunk.len() == i - first,
                    forall|k: int| 0 <= k < i - first ==> (#[trigger] chunk@[k])@ == self.numbers@[first + k]@,
                decreases end - i,
            {
                chunk.push(self.numbers[i].clone());
                i += 1;
            }
            assert(strings_view(chunk@) =~= strings_view(self.numbers@).subrange(
                first as int,
                end as int,
            ));
            self.launched = end;
            self.pause_due = true;
            BatchStep::Launch { first, numbers: chunk }
        } else if self.is_complete() {
            BatchStep::Done
        } else {
            BatchStep::Collect
        }
    }

    /// Takes the report of the fetch for the number at `index`, whatever
    /// the fetch gave, and settles the number's result. A report for a
    /// number that has not gone out, or that has reported before, is
    /// refused and changes nothing.
    pub fn report(
        &mut self,
        index: usize,
        fetched: Result<Result<ApiResponse, String>, TrackingError>,
    ) -> (taken: bool)
        requires
            old(self)@.wf(),
        ensures
            final(self)@.wf(),
            taken == old(self)@.takes(index as nat),
            taken ==> final(self)@ == old(self)@.with_result(
                index as nat,
                spec_tracking_result(old(self)@.numbers[index as int], fetched_view(fetched)),
            ),
            !taken ==> final(self)@ == old(self)@,
    {
        if index >= self.launched || self.slots[index].is_some() {
            return false;
        }
        let ghost before = self.slots.deep_view();
        let info = tracking_result(self.numbers[index].clone(), fetched);
        self.slots[index] = Some(info);
        assert(self.slots.deep_view() =~= before.update(index as int, Some(info@)));
        true
    }

    /// Hands out the results that are in, in the order of their numbers.
    /// Of a batch that is done these are all: one for every number.
    pub fn into_results(self) -> (results: Vec<TrackingInfo>)
        ensures
            results.deep_view() == present(self@.slots),
            self@.all_reported() ==> results.len() == self@.slots.len(),
    {
        let ghost all = self.slots@;
        let ghost slots = self.slots.deep_view();
        let mut results: Vec<TrackingInfo> = Vec::new();
        assert(slots.take(0) =~= Seq::<Option<TrackingInfoView>>::empty());
        assert(results.deep_view() =~= Seq::<TrackingInfoView>::empty());
        for slot in it: self.slots
            invariant
                it.seq() == all,
                slots.len() == all.len(),
                forall|k: int| 0 <= k < all.len() ==> #[trigger] slots[k] == all[k].deep_view(),
                results.deep_view() == present(slots.take(it.index() as int)),
        {
            proof {
                let next = slots.take(it.index() + 1);
                assert(next.drop_last() =~= slots.take(it.index() as int));
                assert(next.last() == slot.deep_view());
            }
            let ghost before = results.deep_view();
            match slot {
                Some(info) => {
                    results.push(info);
                    assert(results.deep_view() =~= before.push(info@));
                },
                None => {},
            }
        }
        proof {
            assert(slots.take(slots.len() as int) =~= slots);
            lemma_present_of_all(slots);
        }
        results
    }
}

/// Where every slot is filled, the results that are in are the slots'
/// results, one for one.
pub proof fn lemma_present_of_all(slots: Seq<Option<TrackingInfoView>>)
    ensures
        present(slots).len() <= slots.len(),
        (forall|i: int| 0 <= i < slots.len() ==> (#[trigger] slots[i]) is Some) ==> present(
            slots,
        ).len() == slots.len(),
        (forall|i: int| 0 <= i < slots.len() ==> (#[trigger] slots[i]) is Some) ==> (forall|i: int|
            0 <= i < slots.len() ==> Some(#[trigger] present(slots)[i]) == slots[i]),
    decreases slots.len(),
{
    if slots.len() > 0 {
        let rest = slots.drop_last();
        lemma_present_of_all(rest);
        if forall|i: int| 0 <= i < slots.len() ==> (#[trigger] slots[i]) is Some {
            assert forall|i: int| 0 <= i < rest.len() implies (#[trigger] rest[i]) is Some by {
                assert(rest[i] == slots[i]);
            }
            assert(slots[slots.len() - 1] is Some);
            assert forall|i: int| 0 <= i < slots.len() implies Some(#[trigger] present(slots)[i])
                == slots[i] by {
                if i < rest.len() {
                    assert(rest[i] == slots[i]);
                }
            }
        }
    }
}

/// A batch that is done holds exactly one result for each trimmed,
/// non-empty line it was made of, the result at each position being the
/// one reported for the number at that position.
pub proof fn lemma_done_batch_is_complete(batch: BatchView)
    requires
        batch.wf(),
        batch.step() == BatchStepView::Done,
    ensures
        batch.launched == batch.numbers.len(),
        present(batch.slots).len() == batch.numbers.len(),
        forall|i: int|
            0 <= i < batch.numbers.len() ==> Some(#[trigger] present(batch.slots)[i])
                == batch.slots[i],
{
    lemma_present_of_all(batch.slots);
}

proof fn lemma_blanks(slots: Seq<Option<TrackingInfoView>>)
    ensures
        blanks(slots) == 0 <==> forall|i: int| 0 <= i < slots.len() ==> (#[trigger] slots[i]) is Some,
    decreases slots.len(),
{
    if slots.len() > 0 {
        let rest = slots.drop_last();
        lemma_blanks(rest);
        if blanks(slots) == 0 {
            assert forall|i: int| 0 <= i < slots.len() implies (#[trigger] slots[i]) is Some by {
                if i < rest.len() {
                    assert(rest[i] == slots[i]);
                }
            }
        }
        if forall|i: int| 0 <= i < slots.len() ==> (#[trigger] slots[i]) is Some {
            assert(slots[slots.len() - 1] is Some);
            assert forall|i: int| 0 <= i < rest.len() implies (#[trigger] rest[i]) is Some by {
                assert(rest[i] == slots[i]);
            }
        }
    }
}

proof fn lemma_blanks_filled(slots: Seq<Option<TrackingInfoView>>, index: int, info: TrackingInfoView)
    requires
        0 <= index < slots.len(),
        slots[index] is None,
    ensures
        blanks(slots.update(index, Some(info))) + 1 == blanks(slots),
    decreases slots.len(),
{
    let filled = slots.update(index, Some(info));
    if index == slots.len() - 1 {
        assert(filled.drop_last() =~= slots.drop_last());
    } else {
        assert(filled.drop_last() =~= slots.drop_last().update(index, Some(info)));
        lemma_blanks_filled(slots.drop_last(), index, info);
    }
}

/// Handing out a chunk or a pause brings the batch nearer to its end, and
/// so does every report that is taken; the batch is done exactly when
/// nothing is left to do. So a driver that does what it is told, and
/// reports once for every number it was given, comes to the end after as
/// many steps and reports as were left at the start: three for each
/// number.
pub proof fn lemma_batch_makes_progress(batch: BatchView, index: nat, info: TrackingInfoView)
    requires
        batch.wf(),
    ensures
        batch.step() is Launch || batch.step() is Pause ==> batch.after_step().work_left()
            < batch.work_left(),
        batch.takes(index) ==> batch.with_result(index, info).work_left() + 1 == batch.work_left(),
        batch.step() is Done <==> batch.work_left() == 0,
        batch.launched == 0 && !batch.pause_due ==> batch.work_left() <= 3 * batch.numbers.len(),
{
    lemma_blanks(batch.slots);
    if batch.takes(index) {
        lemma_blanks_filled(batch.slots, index as int, info);
    }
    lemma_blanks_bound(batch.slots);
}

proof fn lemma_blanks_bound(slots: Seq<Option<TrackingInfoView>>)
    ensures
        blanks(slots) <= slots.len(),
    decreases slots.len(),
{
    if slots.len() > 0 {
        lemma_blanks_bound(slots.drop_last());
    }
}

/// When the driver is told to collect, a fetch is still to report: a
/// number that has gone out and has no result.
pub proof fn lemma_collect_awaits_a_report(batch: BatchView)
    requires
        batch.wf(),
        batch.step() is Collect,
    ensures
        exists|index: nat| #[trigger] batch.takes(index),
{
    let i = choose|i: int| 0 <= i < batch.slots.len() && !((#[trigger] batch.slots[i]) is Some);
    assert(batch.takes(i as nat));
}

} // verus!
