use vstd::prelude::*;

use crate::plan::Op;
use crate::LEDError;

verus! {

/// What the caller must do next.
#[derive(Debug, PartialEq, Eq)]
pub enum Action<P, S> {
    /// Perform this operation and report its outcome to the next `step`.
    Perform(Op),
    /// The sequence is over, with this result.
    Finish(Result<(), LEDError<P, S>>),
}

/// Runs a sequence of operations one at a time: each step takes the outcome
/// of the operation performed last and hands out the next one, and the first
/// failure ends the sequence with that error.
pub struct Sequencer {
    ops: Vec<Op>,
    next: usize,
    done: bool,
}

impl Sequencer {
    /// The operations this sequencer hands out, in order.
    pub closed spec fn ops(&self) -> Seq<Op> {
        self.ops@
    }

    /// How many operations have been handed out.
    pub closed spec fn position(&self) -> nat {
        self.next as nat
    }

    /// Whether the sequence has finished.
    pub closed spec fn is_done(&self) -> bool {
        self.done
    }

    /// The handed-out count never passes the end of the sequence.
    pub closed spec fn wf(&self) -> bool {
        self.next <= self.ops@.len()
    }

    /// A sequencer at the start of `ops`.
    pub fn new(ops: Vec<Op>) -> (r: Sequencer)
        ensures
            r.wf(),
            r.ops() == ops@,
            r.position() == 0,
            !r.is_done(),
    {
        Sequencer { ops, next: 0, done: false }
    }

    /// Whether the sequence has finished.
    pub fn finished(&self) -> (r: bool)
        ensures
            r == self.is_done(),
    {
        self.done
    }

    /// Takes the outcome of the operation performed last (`Ok(())` before
    /// the first one) and says what to do next: on an error, finish with it
    /// and hand out nothing more; otherwise perform the next operation, or
    /// finish successfully when none is left.
    pub fn step<P, S>(&mut self, outcome: Result<(), LEDError<P, S>>) -> (a: Action<P, S>)
        requires
            old(self).wf(),
            !old(self).is_done(),
        ensures
            final(self).wf(),
            final(self).ops() == old(self).ops(),
            match outcome {
                Err(e) => {
                    &&& a == Action::<P, S>::Finish(Err(e))
                    &&& final(self).is_done()
                    &&& final(self).position() == old(self).position()
                },
                Ok(_) => if old(self).position() < old(self).ops().len() {
                    &&& a == Action::<P, S>::Perform(old(self).ops()[old(self).position() as int])
                    &&& !final(self).is_done()
                    &&& final(self).position() == old(self).position() + 1
                } else {
                    &&& a == Action::<P, S>::Finish(Ok(()))
                    &&& final(self).is_done()
                    &&& final(self).position() == old(self).position()
                },
            },
    {
        match outcome {
            Err(e) => {
                self.done = true;
                Action::Finish(Err(e))
            },
            Ok(_) => {
                if self.next < self.ops.len() {
                    let op = self.ops[self.next];
                    self.next = self.next + 1;
                    Action::Perform(op)
                } else {
                    self.done = true;
                    Action::Finish(Ok(()))
                }
            },
        }
    }
}

} // verus!
