//! The replay reader: one frame's host operations served back in order.
//!
//! A [`FrameReader`] owns a queue over a single frame's direct steps and
//! hands them to the host-call interposition layer one at a time through
//! [`FrameReader::next_hostio`].  The same pass both supplies the recorded
//! results and detects behavioral drift: an operation the trace did not
//! record at this position is a fatal mismatch, an exhausted queue a fatal
//! under-run, and a small tolerated set of operations the binary may
//! legitimately perform extra times is skipped silently.  The whole policy
//! is pinned by the mathematical queue walk [`pop_next_spec`].

use std::collections::VecDeque;

use vstd::prelude::*;

use crate::trace::{hostio_model, kind_name, steps_model, Hostio, HostioKind, HostioModel, KindModel, TraceFrame};
use crate::value::str_eq;

verus! {

/// A replay protocol violation: the execution and the trace diverged.
#[derive(Debug, PartialEq)]
pub enum ReplayError {
    /// The queue is already empty: the execution requested more host
    /// operations than the trace recorded.  Never recoverable by retry.
    NoNextEvent,
    /// The execution requested `expected`, but the trace recorded `found`
    /// at this position.  Both sides are carried for diagnosis.
    Mismatch { expected: String, found: Hostio },
}

/// Operations the binary may perform extra, unrecorded times: they are
/// discarded rather than treated as divergence.
pub open spec fn is_tolerated(k: KindModel) -> bool {
    k matches KindModel::MemoryGrow { .. } || k matches KindModel::UserEntrypoint
}

/// What one strict-with-tolerance pop yields: the matching operation, an
/// under-run, or a mismatch, together with the queue that remains.
pub enum PopOutcome {
    Found { h: HostioModel, rest: Seq<HostioModel> },
    Empty,
    Mismatch { found: HostioModel, rest: Seq<HostioModel> },
}

/// The mathematical queue walk behind [`FrameReader::next_hostio`]: pop
/// until the head answers to `expected`, discarding tolerated heads, and
/// fail on an empty queue or any other head.
pub open spec fn pop_next_spec(s: Seq<HostioModel>, expected: Seq<char>) -> PopOutcome
    decreases s.len(),
{
    if s.len() == 0 {
        PopOutcome::Empty
    } else if kind_name(s[0].kind) == expected {
        PopOutcome::Found { h: s[0], rest: s.skip(1) }
    } else if is_tolerated(s[0].kind) {
        pop_next_spec(s.skip(1), expected)
    } else {
        PopOutcome::Mismatch { found: s[0], rest: s.skip(1) }
    }
}

/// Replay state over one frame: the not-yet-consumed steps, in order.
#[derive(Debug)]
pub struct FrameReader {
    steps: VecDeque<Hostio>,
}

impl View for FrameReader {
    type V = Seq<HostioModel>;

    closed spec fn view(&self) -> Seq<HostioModel> {
        steps_model(self.steps@)
    }
}

impl FrameReader {
    /// Turn a decoded frame into its replay queue.
    ///
    /// Nested frames inside outgoing-call steps are not flattened: each
    /// becomes its own reader at the moment the corresponding real host
    /// call happens.
    pub fn new(frame: TraceFrame) -> (r: FrameReader)
        ensures
            r@ == frame@.steps,
    {
        let mut v = frame.steps;
        let ghost orig = v@;
        let mut q: VecDeque<Hostio> = VecDeque::new();
        proof {
            assert(steps_model(q@) =~= Seq::<HostioModel>::empty());
        }
        while v.len() > 0
            invariant
                q@.len() + v@.len() == orig.len(),
                q@ + v@ =~= orig,
                steps_model(q@) =~= steps_model(orig).take(q@.len() as int),
            decreases v@.len(),
        {
            let h = v.remove(0);
            q.push_back(h);
            proof {
                assert(q@ + v@ =~= orig);
                assert(steps_model(q@) =~= steps_model(orig).take(q@.len() as int));
            }
        }
        proof {
            assert(steps_model(q@) =~= steps_model(orig));
        }
        let r = FrameReader { steps: q };
        proof {
            assert(frame@.steps =~= steps_model(orig));
        }
        r
    }

    /// Pop the head of the queue; an empty queue is a fatal under-run.
    fn next(&mut self) -> (r: Result<Hostio, ReplayError>)
        ensures
            match r {
                Ok(h) => old(self)@.len() > 0 && hostio_model(h) == old(self)@[0]
                    && final(self)@ == old(self)@.skip(1),
                Err(e) => old(self)@.len() == 0 && e == ReplayError::NoNextEvent && final(self)@
                    == old(self)@,
            },
    {
        match self.steps.pop_front() {
            Some(h) => {
                proof {
                    assert(steps_model(self.steps@) =~= steps_model(old(self).steps@).skip(1));
                }
                Ok(h)
            },
            None => Err(ReplayError::NoNextEvent),
        }
    }

    /// Serve the recorded operation the running binary asks for.
    ///
    /// Pops until the head's operation name equals `expected`, silently
    /// discarding tolerated operations; fails with no-next-event on an
    /// exhausted queue and with a mismatch on any other head — exactly
    /// [`pop_next_spec`] on the queue this reader held.
    pub fn next_hostio(&mut self, expected: &str) -> (r: Result<Hostio, ReplayError>)
        ensures
            match r {
                Ok(h) => pop_next_spec(old(self)@, expected@) == (PopOutcome::Found {
                    h: hostio_model(h),
                    rest: final(self)@,
                }),
                Err(e) => match e {
                    ReplayError::NoNextEvent => pop_next_spec(old(self)@, expected@)
                        == PopOutcome::Empty && final(self)@ == Seq::<HostioModel>::empty(),
                    ReplayError::Mismatch { expected: en, found } => en@ == expected@
                        && pop_next_spec(old(self)@, expected@) == (PopOutcome::Mismatch {
                        found: hostio_model(found),
                        rest: final(self)@,
                    }),
                },
            },
    {
        loop
            invariant
                pop_next_spec(self@, expected@) == pop_next_spec(old(self)@, expected@),
            decreases self@.len(),
        {
            let h = match self.next() {
                Ok(h) => h,
                Err(e) => {
                    return Err(e);
                },
            };
            if str_eq(h.kind.name(), expected) {
                return Ok(h);
            }
            let tolerated = match &h.kind {
                HostioKind::MemoryGrow { .. } => true,
                HostioKind::UserEntrypoint => true,
                _ => false,
            };
            if !tolerated {
                return Err(ReplayError::Mismatch { expected: expected.to_owned(), found: h });
            }
        }
    }
}

} // verus!
