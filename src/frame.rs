//! The frame schedules: which hardware operations a transmit or a receive
//! performs, and in what order, as plain data.
use vstd::prelude::*;

verus! {

/// One operation on the transceiver's pins or timer.
#[derive(Clone, Copy, Debug, PartialEq, Eq, Structural)]
pub enum Op {
    /// Drive the transmit line high.
    SetHigh,
    /// Drive the transmit line low.
    SetLow,
    /// Read the level of the receive line.
    ReadLine,
    /// Restart the timer's cycle count.
    ResetTimer,
    /// One step of the short phase-alignment delay.
    Nop,
    /// Block until one full timer period has elapsed.
    Wait,
}

/// What a frame machine gives back for each outcome: the machine and the
/// operation to perform next, or the frame's result.
pub enum Step<M, T, E> {
    /// Perform the operation, then hand its outcome to the machine.
    Next(M, Op),
    /// The frame is over, with this result.
    Finished(Result<T, crate::serial::Error<E>>),
}

/// Number of no-operation steps in the phase-alignment delay.
pub const ALIGN_NOPS: usize = 5;

/// Bit `k` (0 = least significant) of `b`.
pub open spec fn bit(b: u8, k: u8) -> bool {
    (b >> k) & 1 == 1
}

/// The eight bits of `b`, least significant first.
pub open spec fn bits(b: u8) -> Seq<bool> {
    Seq::new(8, |k: int| bit(b, k as u8))
}

/// The operation that drives the transmit line to `high`.
pub open spec fn drive(high: bool) -> Op {
    if high {
        Op::SetHigh
    } else {
        Op::SetLow
    }
}

/// Restart the timer, the short delay, then one full period.
pub open spec fn align_ops() -> Seq<Op> {
    seq![Op::ResetTimer, Op::Nop, Op::Nop, Op::Nop, Op::Nop, Op::Nop, Op::Wait]
}

/// The first `n` data cells of `b`: drive bit `k`, then wait a period.
pub open spec fn data_cells(b: u8, n: nat) -> Seq<Op>
    decreases n,
{
    if n == 0 {
        Seq::empty()
    } else {
        data_cells(b, (n - 1) as nat) + seq![drive(bit(b, (n - 1) as u8)), Op::Wait]
    }
}

/// Every operation that sending `b` performs when nothing fails.
pub open spec fn transmit_ops(b: u8) -> Seq<Op> {
    seq![Op::SetLow] + align_ops() + data_cells(b, 8) + seq![Op::SetHigh, Op::Wait]
}

/// `n` sampling cells: read the line, then wait a period.
pub open spec fn sample_cells(n: nat) -> Seq<Op>
    decreases n,
{
    if n == 0 {
        Seq::empty()
    } else {
        sample_cells((n - 1) as nat) + seq![Op::ReadLine, Op::Wait]
    }
}

/// Every operation that a receive performs when the line starts low and
/// nothing fails: the start check, alignment, eight samples, the stop cell.
pub open spec fn receive_ops() -> Seq<Op> {
    seq![Op::ReadLine] + align_ops() + sample_cells(8) + seq![Op::Wait]
}

/// How many times `op` occurs in `s`.
pub open spec fn count_of(s: Seq<Op>, op: Op) -> nat
    decreases s.len(),
{
    if s.len() == 0 {
        0
    } else {
        count_of(s.drop_last(), op) + (if s.last() == op {
            1nat
        } else {
            0nat
        })
    }
}

/// The levels that the driving operations of `s` put on the line, in order.
pub open spec fn levels(s: Seq<Op>) -> Seq<bool>
    decreases s.len(),
{
    if s.len() == 0 {
        Seq::empty()
    } else {
        let rest = levels(s.drop_last());
        match s.last() {
            Op::SetHigh => rest.push(true),
            Op::SetLow => rest.push(false),
            _ => rest,
        }
    }
}

/// Shifting right one place at a time walks through the bits in order.
proof fn lemma_bit_of_shift(b: u8, k: u8)
    requires
        k < 8,
    ensures
        ((b >> k) & 1 == 1) == bit(b, k),
        (b >> k) >> 1u8 == b >> ((k + 1) as u8),
{
    assert((b >> k) >> 1u8 == b >> ((k + 1) as u8)) by (bit_vector)
        requires
            k < 8,
    ;
}

/// `n` sampling cells alternate a read and a wait.
pub proof fn lemma_sample_cells(n: nat)
    ensures
        sample_cells(n).len() == 2 * n,
        forall|i: int|
            0 <= i < 2 * n ==> #[trigger] sample_cells(n)[i] == if i % 2 == 0 {
                Op::ReadLine
            } else {
                Op::Wait
            },
    decreases n,
{
    if n > 0 {
        lemma_sample_cells((n - 1) as nat);
    }
}

/// Where `receive_ops` reads the line: first for the start check, then
/// at every other operation from position 8 on, eight times.
pub proof fn lemma_receive_reads(p: int)
    requires
        0 <= p < 25,
    ensures
        receive_ops().len() == 25,
        (receive_ops()[p] == Op::ReadLine) == (p == 0 || (8 <= p < 24 && (p - 8) % 2 == 0)),
{
    lemma_sample_cells(8);
    let pre = seq![Op::ReadLine] + align_ops();
    assert(receive_ops() == pre + sample_cells(8) + seq![Op::Wait]);
    if 8 <= p < 24 {
        assert(receive_ops()[p] == sample_cells(8)[p - 8]);
    }
}

/// Appends the alignment sequence: timer reset, the short delay, one full
/// period.
fn push_alignment(ops: &mut Vec<Op>)
    ensures
        final(ops)@ == old(ops)@ + align_ops(),
{
    ops.push(Op::ResetTimer);
    let mut i: usize = 0;
    while i < ALIGN_NOPS
        invariant
            i <= ALIGN_NOPS,
            ops@ == old(ops)@ + seq![Op::ResetTimer] + Seq::new(i as nat, |_j: int| Op::Nop),
        decreases ALIGN_NOPS - i,
    {
        ops.push(Op::Nop);
        i = i + 1;
        assert(ops@ =~= old(ops)@ + seq![Op::ResetTimer] + Seq::new(i as nat, |_j: int| Op::Nop));
    }
    ops.push(Op::Wait);
    assert(ops@ =~= old(ops)@ + align_ops());
}

/// The operations that send `byte`: the start bit (low), alignment, the
/// eight data bits least significant first, each held one period, and the
/// stop bit (high) held one period.
pub fn transmit_schedule(byte: u8) -> (r: Vec<Op>)
    ensures
        r@ == transmit_ops(byte),
{
    let mut ops: Vec<Op> = Vec::new();
    ops.push(Op::SetLow);
    push_alignment(&mut ops);
    let mut data_out: u8 = byte;
    let mut i: u8 = 0;
    assert(byte >> 0u8 == byte) by (bit_vector);
    while i < 8
        invariant
            i <= 8,
            data_out == byte >> i,
            ops@ == seq![Op::SetLow] + align_ops() + data_cells(byte, i as nat),
        decreases 8 - i,
    {
        proof {
            lemma_bit_of_shift(byte, i);
        }
        if data_out & 1 == 1 {
            ops.push(Op::SetHigh);
        } else {
            ops.push(Op::SetLow);
        }
        data_out = data_out >> 1;
        ops.push(Op::Wait);
        i = i + 1;
        assert(ops@ =~= seq![Op::SetLow] + align_ops() + data_cells(byte, i as nat));
    }
    ops.push(Op::SetHigh);
    ops.push(Op::Wait);
    assert(ops@ =~= transmit_ops(byte));
    ops
}

/// The operations of a receive: the start check (one read), alignment,
/// eight cells of one read and one period each, and one more period for
/// the stop bit.
pub fn receive_schedule() -> (r: Vec<Op>)
    ensures
        r@ == receive_ops(),
{
    let mut ops: Vec<Op> = Vec::new();
    ops.push(Op::ReadLine);
    push_alignment(&mut ops);
    let mut i: u8 = 0;
    while i < 8
        invariant
            i <= 8,
            ops@ == seq![Op::ReadLine] + align_ops() + sample_cells(i as nat),
        decreases 8 - i,
    {
        ops.push(Op::ReadLine);
        ops.push(Op::Wait);
        i = i + 1;
        assert(ops@ =~= seq![Op::ReadLine] + align_ops() + sample_cells(i as nat));
    }
    ops.push(Op::Wait);
    assert(ops@ =~= receive_ops());
    ops
}

} // verus!
