//! Sequence numbers: time priority for resting orders and trade numbering.

use vstd::prelude::*;
use vstd::string::*;
use crate::text::owned;
use crate::types::Sequence;

verus! {

/// Sequence generator error
#[derive(Debug)]
pub enum SequenceGeneratorError {
    /// Sequence overflow
    Overflow,
    /// Corrupted state
    CorruptedState(String),
    /// Unexpected error
    UnexpectedError(String),
}

impl SequenceGeneratorError {
    /// The human-readable message of this error.
    pub open spec fn message(&self) -> Seq<char> {
        match self {
            SequenceGeneratorError::Overflow => "Sequence overflow"@,
            SequenceGeneratorError::CorruptedState(s) => "Corrupted state: "@ + s@,
            SequenceGeneratorError::UnexpectedError(s) => "unexpected error: "@ + s@,
        }
    }

    /// Renders the error message.
    pub fn to_string(&self) -> (r: String)
        ensures
            r@ == self.message(),
    {
        match self {
            SequenceGeneratorError::Overflow => owned("Sequence overflow"),
            SequenceGeneratorError::CorruptedState(s) => {
                let mut r = owned("Corrupted state: ");
                r.append(s.as_str());
                r
            },
            SequenceGeneratorError::UnexpectedError(s) => {
                let mut r = owned("unexpected error: ");
                r.append(s.as_str());
                r
            },
        }
    }
}

/// Sequence generator trait
pub trait SequenceGenerator {
    /// One draw took the generator from `before` to `self` and handed out `r` (a
    /// generator that says nothing of its draws holds this of every draw).
    open spec fn drew(&self, before: &Self, r: Result<Sequence, SequenceGeneratorError>) -> bool {
        true
    }

    /// Generate a new sequence (e.g. for new orders; FIFO at same price).
    fn next(&mut self) -> (r: Result<Sequence, SequenceGeneratorError>)
        ensures
            final(self).drew(old(self), r),
    ;

    /// Generate a sequence that sorts at the end of the queue (e.g. for replaced orders
    /// that must lose time priority). The default makes one draw as `next()` does.
    fn next_at_end_of_queue(&mut self) -> (r: Result<Sequence, SequenceGeneratorError>)
        ensures
            final(self).drew(old(self), r),
    {
        self.next()
    }
}

/// Simple sequence generator that increments from 0.
#[derive(Debug)]
pub struct CounterSequenceGenerator {
    next: Sequence,
}

impl CounterSequenceGenerator {
    /// The value that the next call of `next` hands out.
    pub closed spec fn upcoming(&self) -> Sequence {
        self.next
    }

    /// Creates a new counter starting at 0.
    pub fn new() -> (r: Self)
        ensures
            r.upcoming() == 0,
    {
        Self { next: 0 }
    }

    /// One draw took the counter from `before` to `self` with result `r`: the upcoming
    /// value is handed out and the counter advances, unless it is exhausted.
    pub open spec fn drawn(&self, before: &Self, r: Result<Sequence, SequenceGeneratorError>) -> bool {
        &&& before.upcoming() < u64::MAX ==> r == Ok::<Sequence, SequenceGeneratorError>(before.upcoming())
            && self.upcoming() == before.upcoming() + 1
        &&& before.upcoming() == u64::MAX ==> r == Err::<Sequence, SequenceGeneratorError>(
            SequenceGeneratorError::Overflow,
        ) && self.upcoming() == before.upcoming()
    }

    /// Law: of two successive successful draws, the second hands out the next sequence,
    /// so sequences strictly increase.
    pub proof fn law_draws_increase(
        g0: Self,
        g1: Self,
        g2: Self,
        s1: Sequence,
        s2: Sequence,
    )
        requires
            g1.drawn(&g0, Ok(s1)),
            g2.drawn(&g1, Ok(s2)),
        ensures
            s2 == s1 + 1,
    {
    }
}

impl SequenceGenerator for CounterSequenceGenerator {
    open spec fn drew(&self, before: &Self, r: Result<Sequence, SequenceGeneratorError>) -> bool {
        self.drawn(before, r)
    }

    fn next(&mut self) -> (r: Result<Sequence, SequenceGeneratorError>)
        ensures
            final(self).drawn(old(self), r),
    {
        let v = self.next;
        match self.next.checked_add(1) {
            Some(n) => {
                self.next = n;
                Ok(v)
            },
            None => Err(SequenceGeneratorError::Overflow),
        }
    }

    fn next_at_end_of_queue(&mut self) -> (r: Result<Sequence, SequenceGeneratorError>)
        ensures
            final(self).drawn(old(self), r),
    {
        self.next()
    }
}

impl Default for CounterSequenceGenerator {
    /// Same as [`CounterSequenceGenerator::new`].
    fn default() -> (r: Self)
        ensures
            r.upcoming() == 0,
    {
        Self::new()
    }
}

} // verus!
