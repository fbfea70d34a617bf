//! Receiving one byte: a machine that checks for the start bit, hands out
//! the operations of `receive_ops` one at a time, and assembles the byte
//! from the levels it is given, stopping at the first failure.
use vstd::prelude::*;
use crate::frame::{bit, bits, lemma_receive_reads, lemma_sample_cells, receive_ops, receive_schedule, Op, Step};
use crate::serial::Error;

verus! {

/// A byte being received.
pub struct Reception {
    ops: Vec<Op>,
    issued: usize,
    acc: u8,
    samples: Ghost<Seq<bool>>,
}

/// How many data reads of `receive_ops` stand before position `p`.
spec fn reads_before(p: int) -> nat {
    if p <= 8 {
        0
    } else if p >= 23 {
        8
    } else {
        ((p - 7) / 2) as nat
    }
}

/// Shifting a sampled level in from the top: every bit moves down one
/// place and bit 7 becomes the level.
proof fn lemma_shift_in(acc: u8, x: u8)
    by (bit_vector)
    requires
        x == 0 || x == 0x80,
    ensures
        forall|i: u8| i < 7 ==> #[trigger] bit((acc >> 1u8) | x, i) == bit(acc, (i + 1) as u8),
        bit((acc >> 1u8) | x, 7) == (x == 0x80),
{
}

impl Reception {
    #[verifier::type_invariant]
    spec fn inv(self) -> bool {
        let n = self.samples@.len();
        &&& self.ops@ == receive_ops()
        &&& 1 <= self.issued <= self.ops@.len()
        &&& n == reads_before(self.issued - 1)
        &&& forall|j: int| 0 <= j < n ==> #[trigger] self.samples@[j] == bit(self.acc, (8 - n + j) as u8)
        &&& forall|i: u8| i < 8 - n ==> !#[trigger] bit(self.acc, i)
    }

    /// The levels that the data reads answered so far found, in order.
    pub closed spec fn samples(self) -> Seq<bool> {
        self.samples@
    }

    /// How many operations have been handed out so far.
    pub closed spec fn issued(self) -> nat {
        self.issued as nat
    }

    /// Begins a receive: the reception and its first operation, the read
    /// that checks that the line is low.
    pub fn start() -> (r: (Reception, Op))
        ensures
            r.0.issued() == 1,
            r.0.samples() == Seq::<bool>::empty(),
            r.1 == receive_ops()[0],
            r.1 == Op::ReadLine,
    {
        let ops = receive_schedule();
        let first = ops[0];
        proof {
            lemma_sample_cells(8);
            assert(forall|i: u8| i < 8 ==> !#[trigger] bit(0u8, i)) by (bit_vector);
        }
        (Reception { ops, issued: 1, acc: 0, samples: Ghost(Seq::empty()) }, first)
    }

    /// Takes the outcome of the operation handed out last (`Ok` with the
    /// level a read found, or with any level after another operation; or
    /// the pin's error) and gives the next step. A failure ends the frame
    /// with a bus error; a high line at the start check ends it as an
    /// invalid interrupt; after the stop period the frame gives the byte
    /// whose bit `k` is the `k`-th sampled level.
    pub fn step<E>(self, last: Result<bool, E>) -> (r: Step<Reception, u8, E>)
        ensures
            match last {
                Err(e) => r == Step::<Reception, u8, E>::Finished(Err(Error::Bus(e))),
                Ok(high) => if self.issued() == 1 && high {
                    r == Step::<Reception, u8, E>::Finished(Err(Error::InvalidInterrupt))
                } else {
                    let s = if self.issued() > 1 && receive_ops()[self.issued() - 1] == Op::ReadLine {
                        self.samples().push(high)
                    } else {
                        self.samples()
                    };
                    if self.issued() == receive_ops().len() {
                        match r {
                            Step::Finished(Ok(b)) => bits(b) == s,
                            _ => false,
                        }
                    } else {
                        match r {
                            Step::Next(m, op) => {
                                &&& m.issued() == self.issued() + 1
                                &&& m.samples() == s
                                &&& op == receive_ops()[self.issued() as int]
                            },
                            Step::Finished(_) => false,
                        }
                    }
                },
            },
    {
        proof {
            use_type_invariant(&self);
            lemma_sample_cells(8);
            lemma_receive_reads(self.issued - 1);
        }
        let high = match last {
            Err(e) => {
                return Step::Finished(Err(Error::Bus(e)));
            },
            Ok(high) => high,
        };
        if self.issued == 1 && high {
            return Step::Finished(Err(Error::InvalidInterrupt));
        }
        let mut acc = self.acc;
        let mut samples = self.samples;
        if self.issued > 1 && self.ops[self.issued - 1] == Op::ReadLine {
            let x: u8 = if high { 0x80 } else { 0 };
            proof {
                lemma_shift_in(acc, x);
            }
            acc = (acc >> 1) | x;
            samples = Ghost(samples@.push(high));
        }
        let ghost n = samples@.len();
        assert(n == reads_before(self.issued as int));
        assert(forall|j: int| 0 <= j < n ==> #[trigger] samples@[j] == bit(acc, (8 - n + j) as u8));
        assert(forall|i: u8| i < 8 - n ==> !#[trigger] bit(acc, i));
        if self.issued == self.ops.len() {
            assert(bits(acc) =~= samples@);
            Step::Finished(Ok(acc))
        } else {
            let op = self.ops[self.issued];
            let issued = self.issued + 1;
            Step::Next(Reception { ops: self.ops, issued, acc, samples }, op)
        }
    }
}

} // verus!
