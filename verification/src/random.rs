//! Where the board's random numbers come from.

use vstd::prelude::*;
use rand::Rng;

verus! {

/// What a [`RandomSource`] is: the thread's generator, or a list of values
/// that is replayed from position `next`.
pub enum SourceView {
    Thread,
    Script { values: Seq<usize>, next: nat },
}

impl SourceView {
    /// Whether this is the source `before` after some draws: the thread's
    /// generator still, or the same script, at whatever position.
    pub open spec fn continues(self, before: SourceView) -> bool {
        match before {
            SourceView::Thread => self is Thread,
            SourceView::Script { values, .. } => self is Script && self->values == values,
        }
    }
}

/// The number that a script hands out at position `next` for the range
/// from `low` up to, but not including, `high`: the value at that position,
/// wrapped into the range. The script starts over when it runs out, and an
/// empty script always gives `low`.
pub open spec fn replay(values: Seq<usize>, next: nat, low: int, high: int) -> int {
    if values.len() == 0 {
        low
    } else {
        low + (values[(next % values.len()) as int] as int) % (high - low)
    }
}

/// The position in a script after one more value has been handed out.
pub open spec fn advance(values: Seq<usize>, next: nat) -> nat {
    if values.len() == 0 {
        next
    } else {
        next % values.len() + 1
    }
}

/// A source of indices, chosen uniformly when they come from the thread's
/// generator and fixed in advance when they come from a script.
#[derive(Debug)]
pub struct RandomSource {
    script: Option<Vec<usize>>,
    next: usize,
}

impl View for RandomSource {
    type V = SourceView;

    closed spec fn view(&self) -> SourceView {
        match self.script {
            None => SourceView::Thread,
            Some(values) => SourceView::Script { values: values@, next: self.next as nat },
        }
    }
}

/// Calls `rand::thread_rng()` and, on the generator it returns,
/// `Rng::gen_range(low, high)`. The range must not be empty, since
/// `gen_range` panics on one. Taken on trust: the number returned is at
/// least `low` and less than `high`; which one is left open. The
/// generator seeds itself from the operating system on its first use in
/// a thread and panics if that fails.
#[verifier::external_body]
fn thread_pick(low: usize, high: usize) -> (r: usize)
    requires
        low < high,
    ensures
        low <= r < high,
{
    rand::thread_rng().gen_range(low, high)
}

impl RandomSource {
    /// The generator of the current thread.
    pub fn thread() -> (source: RandomSource)
        ensures
            source@ is Thread,
    {
        RandomSource { script: None, next: 0 }
    }

    /// A source that replays `values` in order, starting over at the end.
    pub fn scripted(values: Vec<usize>) -> (source: RandomSource)
        ensures
            source@ == (SourceView::Script { values: values@, next: 0 }),
    {
        RandomSource { script: Some(values), next: 0 }
    }

    /// An index from `low` up to, but not including, `high`.
    pub fn pick(&mut self, low: usize, high: usize) -> (r: usize)
        requires
            low < high,
        ensures
            low <= r < high,
            final(self)@.continues(old(self)@),
            match old(self)@ {
                SourceView::Thread => final(self)@ is Thread,
                SourceView::Script { values, next } => {
                    &&& r == replay(values, next, low as int, high as int)
                    &&& final(self)@ == (SourceView::Script {
                        values,
                        next: advance(values, next),
                    })
                },
            },
    {
        match &self.script {
            None => thread_pick(low, high),
            Some(values) => {
                let len: usize = values.len();
                if len == 0 {
                    low
                } else {
                    let at: usize = self.next % len;
                    let r: usize = low + values[at] % (high - low);
                    self.next = at + 1;
                    r
                }
            },
        }
    }
}

} // verus!
