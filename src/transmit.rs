//! Sending one byte: a machine that hands out the operations of
//! `transmit_ops` one at a time and stops at the first failure.
use vstd::prelude::*;
use crate::frame::{transmit_ops, transmit_schedule, Op, Step};
use crate::serial::Error;

verus! {

/// A byte being sent.
pub struct Transmission {
    ops: Vec<Op>,
    issued: usize,
    byte: Ghost<u8>,
}

impl Transmission {
    #[verifier::type_invariant]
    spec fn inv(self) -> bool {
        &&& self.ops@ == transmit_ops(self.byte@)
        &&& 1 <= self.issued <= self.ops@.len()
    }

    /// The byte being sent.
    pub closed spec fn byte(self) -> u8 {
        self.byte@
    }

    /// How many operations have been handed out so far.
    pub closed spec fn issued(self) -> nat {
        self.issued as nat
    }

    /// Begins sending `byte`: the transmission and its first operation,
    /// which drives the start bit.
    pub fn start(byte: u8) -> (r: (Transmission, Op))
        ensures
            r.0.byte() == byte,
            r.0.issued() == 1,
            r.1 == transmit_ops(byte)[0],
            r.1 == Op::SetLow,
    {
        let ops = transmit_schedule(byte);
        let first = ops[0];
        (Transmission { ops, issued: 1, byte: Ghost(byte) }, first)
    }

    /// Takes the outcome of the operation handed out last (`Ok` with any
    /// level, or the pin's error) and gives the next step. A failure ends
    /// the frame with a bus error; after the final wait the frame succeeds.
    pub fn step<E>(self, last: Result<bool, E>) -> (r: Step<Transmission, (), E>)
        ensures
            match last {
                Err(e) => r == Step::<Transmission, (), E>::Finished(Err(Error::Bus(e))),
                Ok(_) => if self.issued() == transmit_ops(self.byte()).len() {
                    r == Step::<Transmission, (), E>::Finished(Ok(()))
                } else {
                    match r {
                        Step::Next(t, op) => {
                            &&& t.byte() == self.byte()
                            &&& t.issued() == self.issued() + 1
                            &&& op == transmit_ops(self.byte())[self.issued() as int]
                        },
                        Step::Finished(_) => false,
                    }
                },
            },
    {
        proof {
            use_type_invariant(&self);
        }
        match last {
            Err(e) => Step::Finished(Err(Error::Bus(e))),
            Ok(_) => {
                if self.issued == self.ops.len() {
                    Step::Finished(Ok(()))
                } else {
                    let op = self.ops[self.issued];
                    let issued = self.issued + 1;
                    Step::Next(Transmission { ops: self.ops, issued, byte: self.byte }, op)
                }
            },
        }
    }
}

} // verus!
