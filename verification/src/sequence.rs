//! The batch sequencer: walks a composite item's members strictly in order,
//! invokes the per-track pipeline for each, paces attempts, retries a failed
//! member with a bounded counter, and aborts the whole batch once the budget
//! is exhausted.

use vstd::prelude::*;
use crate::pipeline::TrackError;

verus! {

/// The fixed pause after every member's attempt, in milliseconds, so that no
/// two network-issuing attempts start closer together than this.
pub const INTER_ITEM_DELAY_MS: u64 = 100;

/// What one pipeline run ended in.
#[derive(Clone, Copy, PartialEq, Eq, Structural, Debug)]
pub enum DownloadOutcome {
    /// The pipeline reached `Done` or `Skipped`.
    Success,
    /// The pipeline failed.
    Failure(TrackError),
}

/// What the driver must do next with the batch.
#[derive(Clone, Copy, PartialEq, Eq, Structural, Debug)]
pub enum SeqAction {
    /// Attempt the member at `index` (0-based), naming it with the 1-based
    /// `number` regardless of any numbering in its metadata.
    Attempt { index: usize, number: u32 },
    /// Every member is done.
    Finished,
}

/// How the batch goes on after an attempt.
#[derive(Clone, Copy, PartialEq, Eq, Structural, Debug)]
pub enum SeqDirective {
    /// Pause for the inter-item delay, then ask for the next action.
    Proceed,
    /// Pause for the inter-item delay, then attempt the same member again:
    /// a retry issues network work too, so it is paced like any attempt.
    Retry,
    /// The member exhausted the retry budget: the whole batch stops with the
    /// member's last error.
    Abort(TrackError),
}

/// The sequencer's position in a batch: which member is next, and how many
/// attempts the current member has had.
pub struct SequencerState {
    /// 0-based index of the member being attempted.
    pub next_index: usize,
    /// 1-based count of attempts made on the current member.
    pub tries: u32,
    /// Number of members in the batch.
    pub total: usize,
    /// Retry budget: a member may be attempted at most this many times.
    pub max_tries: u32,
}

impl SequencerState {
    /// The state's internal consistency.
    pub open spec fn wf(&self) -> bool {
        &&& self.next_index <= self.total
        &&& 1 <= self.tries
        &&& self.total <= u32::MAX as usize
    }

    /// A fresh batch over `total` members with the given retry budget.
    pub fn new(total: usize, max_tries: u32) -> (s: Self)
        requires
            total <= u32::MAX as usize,
        ensures
            s.next_index == 0,
            s.tries == 1,
            s.total == total,
            s.max_tries == max_tries,
            s.wf(),
    {
        SequencerState { next_index: 0, tries: 1, total, max_tries }
    }

    /// What to do next.
    pub open spec fn spec_next_action(&self) -> SeqAction {
        if self.next_index == self.total {
            SeqAction::Finished
        } else {
            SeqAction::Attempt { index: self.next_index, number: (self.next_index + 1) as u32 }
        }
    }

    /// What to do next: attempt the next member — numbered by its 1-based
    /// position in the member list — or report the batch complete.
    pub fn next_action(&self) -> (r: SeqAction)
        requires
            self.wf(),
        ensures
            r == self.spec_next_action(),
    {
        if self.next_index == self.total {
            SeqAction::Finished
        } else {
            SeqAction::Attempt { index: self.next_index, number: (self.next_index + 1) as u32 }
        }
    }

    /// The transition an outcome causes: on success the sequencer advances
    /// (after the pause) with the attempt counter reset; on failure it
    /// retries the same member (also after the pause), or aborts the batch
    /// once `max_tries` attempts have been made.
    pub open spec fn spec_record(self, outcome: DownloadOutcome) -> (SequencerState, SeqDirective) {
        match outcome {
            DownloadOutcome::Success => (
                SequencerState {
                    next_index: (self.next_index + 1) as usize,
                    tries: 1,
                    ..self
                },
                SeqDirective::Proceed,
            ),
            DownloadOutcome::Failure(e) => {
                if self.tries >= self.max_tries {
                    (self, SeqDirective::Abort(e))
                } else {
                    (SequencerState { tries: (self.tries + 1) as u32, ..self }, SeqDirective::Retry)
                }
            },
        }
    }

    /// Folds one pipeline outcome into the state.
    pub fn record(&mut self, outcome: DownloadOutcome) -> (d: SeqDirective)
        requires
            old(self).wf(),
            old(self).next_index < old(self).total,
        ensures
            (*final(self), d) == old(self).spec_record(outcome),
            final(self).wf(),
            final(self).total == old(self).total,
            final(self).max_tries == old(self).max_tries,
    {
        match outcome {
            DownloadOutcome::Success => {
                self.next_index = self.next_index + 1;
                self.tries = 1;
                SeqDirective::Proceed
            },
            DownloadOutcome::Failure(e) => {
                if self.tries >= self.max_tries {
                    SeqDirective::Abort(e)
                } else {
                    self.tries = self.tries + 1;
                    SeqDirective::Retry
                }
            },
        }
    }
}

/// Retry bound: with every attempt failing, a member whose attempts are
/// counted from 1 is attempted exactly `max_tries` times — the first
/// `max_tries - 1` failures ask for a retry, each raising the counter by
/// one, and the failure of attempt `max_tries` aborts the batch. (With a
/// budget of 0, the one attempt already made aborts the batch.)
pub proof fn lemma_retry_bound(st: SequencerState, e: TrackError)
    requires
        st.wf(),
        1 <= st.max_tries,
    ensures
        st.tries < st.max_tries ==> st.spec_record(DownloadOutcome::Failure(e)) == (
            SequencerState { tries: (st.tries + 1) as u32, ..st },
            SeqDirective::Retry,
        ),
        st.tries >= st.max_tries ==> st.spec_record(DownloadOutcome::Failure(e)) == (
            st,
            SeqDirective::Abort(e),
        ),
{
}

/// The number of attempts a member consumes when every attempt fails,
/// counting from an attempt counter of `tries`: one per counter value up to
/// and including `max_tries`.
pub open spec fn spec_attempts_when_failing(tries: int, max_tries: int) -> nat
    decreases max_tries - tries,
{
    if tries >= max_tries {
        1
    } else {
        1 + spec_attempts_when_failing(tries + 1, max_tries)
    }
}

proof fn lemma_attempts_pos(tries: int, max_tries: int)
    ensures
        spec_attempts_when_failing(tries, max_tries) >= 1,
{
}

/// The count agrees with the machine: a failing attempt aborts exactly when
/// it is the last counted one, and a retry leaves one fewer counted attempt
/// ahead.
pub proof fn lemma_attempts_step(st: SequencerState, e: TrackError)
    requires
        st.wf(),
    ensures
        ({
            let (st2, d) = st.spec_record(DownloadOutcome::Failure(e));
            &&& (d == SeqDirective::Abort(e) <==> spec_attempts_when_failing(
                st.tries as int,
                st.max_tries as int,
            ) == 1)
            &&& (d == SeqDirective::Retry ==> spec_attempts_when_failing(
                st2.tries as int,
                st.max_tries as int,
            ) + 1 == spec_attempts_when_failing(st.tries as int, st.max_tries as int))
        }),
{
    if st.tries < st.max_tries {
        lemma_attempts_pos(st.tries as int + 1, st.max_tries as int);
    }
}

/// Retry bound, counted: a fresh member under an always-failing pipeline is
/// attempted exactly `max_tries` times before the batch aborts.
pub proof fn lemma_attempts_exact(tries: int, max_tries: int)
    requires
        1 <= tries <= max_tries,
    ensures
        spec_attempts_when_failing(tries, max_tries) == max_tries - tries + 1,
        tries == 1 ==> spec_attempts_when_failing(tries, max_tries) == max_tries,
    decreases max_tries - tries,
{
    if tries < max_tries {
        lemma_attempts_exact(tries + 1, max_tries);
    }
}

} // verus!
