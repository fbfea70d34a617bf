//! What holds of whole frames: the bit-cells a transmit drives, the waits a
//! receive spends, and that a receive reading what a transmit drove gets
//! the byte back.
use vstd::prelude::*;
use crate::frame::{
    align_ops, bit, bits, count_of, data_cells, drive, levels, receive_ops, sample_cells,
    transmit_ops, Op,
};

verus! {

proof fn lemma_levels_concat(a: Seq<Op>, b: Seq<Op>)
    ensures
        levels(a + b) == levels(a) + levels(b),
    decreases b.len(),
{
    if b.len() == 0 {
        assert(a + b =~= a);
        assert(levels(a) + levels(b) =~= levels(a));
    } else {
        lemma_levels_concat(a, b.drop_last());
        assert((a + b).drop_last() =~= a + b.drop_last());
        assert((a + b).last() == b.last());
        match b.last() {
            Op::SetHigh => assert(levels(a + b) =~= levels(a) + levels(b)),
            Op::SetLow => assert(levels(a + b) =~= levels(a) + levels(b)),
            _ => {},
        }
    }
}

proof fn lemma_count_concat(a: Seq<Op>, b: Seq<Op>, op: Op)
    ensures
        count_of(a + b, op) == count_of(a, op) + count_of(b, op),
    decreases b.len(),
{
    if b.len() == 0 {
        assert(a + b =~= a);
    } else {
        lemma_count_concat(a, b.drop_last(), op);
        assert((a + b).drop_last() =~= a + b.drop_last());
    }
}

proof fn lemma_cell_pair(x: Op, y: Op)
    ensures
        count_of(seq![x, y], Op::Wait) == (if x == Op::Wait {
            1nat
        } else {
            0nat
        }) + (if y == Op::Wait {
            1nat
        } else {
            0nat
        }),
        count_of(seq![x, y], Op::ReadLine) == (if x == Op::ReadLine {
            1nat
        } else {
            0nat
        }) + (if y == Op::ReadLine {
            1nat
        } else {
            0nat
        }),
        x == Op::SetHigh && y == Op::Wait ==> levels(seq![x, y]) == seq![true],
        x == Op::SetLow && y == Op::Wait ==> levels(seq![x, y]) == seq![false],
{
    reveal_with_fuel(count_of, 3);
    reveal_with_fuel(levels, 3);
    assert(seq![x, y].drop_last() =~= seq![x]);
    assert(seq![x].drop_last() =~= Seq::<Op>::empty());
    assert(Seq::<bool>::empty().push(true) =~= seq![true]);
    assert(Seq::<bool>::empty().push(false) =~= seq![false]);
}

proof fn lemma_align()
    ensures
        levels(align_ops()) == Seq::<bool>::empty(),
        count_of(align_ops(), Op::Wait) == 1,
        count_of(align_ops(), Op::ReadLine) == 0,
{
    let s = align_ops();
    reveal_with_fuel(count_of, 8);
    reveal_with_fuel(levels, 8);
    assert(s.drop_last() =~= seq![Op::ResetTimer, Op::Nop, Op::Nop, Op::Nop, Op::Nop, Op::Nop]);
    assert(s.drop_last().drop_last() =~= seq![Op::ResetTimer, Op::Nop, Op::Nop, Op::Nop, Op::Nop]);
    assert(s.drop_last().drop_last().drop_last() =~= seq![Op::ResetTimer, Op::Nop, Op::Nop, Op::Nop]);
    assert(s.drop_last().drop_last().drop_last().drop_last() =~= seq![Op::ResetTimer, Op::Nop, Op::Nop]);
    assert(s.drop_last().drop_last().drop_last().drop_last().drop_last() =~= seq![Op::ResetTimer, Op::Nop]);
    assert(s.drop_last().drop_last().drop_last().drop_last().drop_last().drop_last() =~= seq![Op::ResetTimer]);
    assert(seq![Op::ResetTimer].drop_last() =~= Seq::<Op>::empty());
}

proof fn lemma_single(x: Op)
    ensures
        count_of(seq![x], Op::Wait) == (if x == Op::Wait {
            1nat
        } else {
            0nat
        }),
        count_of(seq![x], Op::ReadLine) == (if x == Op::ReadLine {
            1nat
        } else {
            0nat
        }),
        x == Op::SetLow ==> levels(seq![x]) == seq![false],
        x == Op::Wait ==> levels(seq![x]) == Seq::<bool>::empty(),
{
    reveal_with_fuel(count_of, 2);
    reveal_with_fuel(levels, 2);
    assert(seq![x].drop_last() =~= Seq::<Op>::empty());
    assert(Seq::<bool>::empty().push(false) =~= seq![false]);
}

proof fn lemma_data_cells(b: u8, n: nat)
    requires
        n <= 8,
    ensures
        levels(data_cells(b, n)) == bits(b).take(n as int),
        count_of(data_cells(b, n), Op::Wait) == n,
    decreases n,
{
    if n == 0 {
        assert(bits(b).take(0) =~= Seq::<bool>::empty());
    } else {
        let m = (n - 1) as nat;
        lemma_data_cells(b, m);
        let pair = seq![drive(bit(b, m as u8)), Op::Wait];
        lemma_levels_concat(data_cells(b, m), pair);
        lemma_count_concat(data_cells(b, m), pair, Op::Wait);
        lemma_cell_pair(drive(bit(b, m as u8)), Op::Wait);
        assert(bits(b).take(n as int) =~= bits(b).take(m as int) + seq![bit(b, m as u8)]);
    }
}

proof fn lemma_sample_counts(n: nat)
    ensures
        count_of(sample_cells(n), Op::Wait) == n,
        count_of(sample_cells(n), Op::ReadLine) == n,
    decreases n,
{
    if n > 0 {
        let m = (n - 1) as nat;
        lemma_sample_counts(m);
        let pair = seq![Op::ReadLine, Op::Wait];
        lemma_count_concat(sample_cells(m), pair, Op::Wait);
        lemma_count_concat(sample_cells(m), pair, Op::ReadLine);
        lemma_cell_pair(Op::ReadLine, Op::Wait);
    }
}

/// Eight bits determine a byte.
pub proof fn lemma_bits_injective(a: u8, b: u8)
    requires
        bits(a) == bits(b),
    ensures
        a == b,
{
    assert forall|k: u8| k < 8 implies #[trigger] bit(a, k) == bit(b, k) by {
        assert(bits(a)[k as int] == bit(a, k));
        assert(bits(b)[k as int] == bit(b, k));
        assert(bits(a)[k as int] == bits(b)[k as int]);
    }
    assert(a == b) by (bit_vector)
        requires
            bit(a, 0) == bit(b, 0),
            bit(a, 1) == bit(b, 1),
            bit(a, 2) == bit(b, 2),
            bit(a, 3) == bit(b, 3),
            bit(a, 4) == bit(b, 4),
            bit(a, 5) == bit(b, 5),
            bit(a, 6) == bit(b, 6),
            bit(a, 7) == bit(b, 7),
    ;
}

/// A transmit drives exactly ten bit-cells, each closed by one full-period
/// wait: the start bit low, the eight data bits least significant first,
/// and the stop bit high.
pub proof fn lemma_transmit_cells(b: u8)
    ensures
        levels(transmit_ops(b)) == seq![false] + bits(b) + seq![true],
        levels(transmit_ops(b)).len() == 10,
        count_of(transmit_ops(b), Op::Wait) == 10,
{
    let start = seq![Op::SetLow];
    let stop = seq![Op::SetHigh, Op::Wait];
    lemma_align();
    lemma_data_cells(b, 8);
    lemma_single(Op::SetLow);
    lemma_cell_pair(Op::SetHigh, Op::Wait);
    lemma_levels_concat(start, align_ops());
    lemma_levels_concat(start + align_ops(), data_cells(b, 8));
    lemma_levels_concat(start + align_ops() + data_cells(b, 8), stop);
    lemma_count_concat(start, align_ops(), Op::Wait);
    lemma_count_concat(start + align_ops(), data_cells(b, 8), Op::Wait);
    lemma_count_concat(start + align_ops() + data_cells(b, 8), stop, Op::Wait);
    assert(bits(b).take(8) =~= bits(b));
    assert(levels(transmit_ops(b)) =~= seq![false] + bits(b) + seq![true]);
}

/// A receive that gets past its start check spends, after the alignment
/// wait, exactly nine full-period waits: one per data bit and one for the
/// stop bit; it reads the line nine times in all, once for the check and
/// once per data bit.
pub proof fn lemma_receive_waits()
    ensures
        receive_ops().len() == 25,
        receive_ops().subrange(0, 8) == seq![Op::ReadLine] + align_ops(),
        count_of(receive_ops().subrange(8, 25), Op::Wait) == 9,
        count_of(receive_ops().subrange(8, 25), Op::ReadLine) == 8,
        count_of(receive_ops(), Op::ReadLine) == 9,
{
    let head = seq![Op::ReadLine] + align_ops();
    let body = sample_cells(8) + seq![Op::Wait];
    crate::frame::lemma_sample_cells(8);
    assert(receive_ops() =~= head + body);
    assert(receive_ops().subrange(0, 8) =~= head);
    assert(receive_ops().subrange(8, 25) =~= body);
    lemma_align();
    lemma_sample_counts(8);
    lemma_single(Op::Wait);
    lemma_single(Op::ReadLine);
    lemma_count_concat(sample_cells(8), seq![Op::Wait], Op::Wait);
    lemma_count_concat(sample_cells(8), seq![Op::Wait], Op::ReadLine);
    lemma_count_concat(seq![Op::ReadLine], align_ops(), Op::ReadLine);
    lemma_count_concat(head, body, Op::ReadLine);
}

/// Round trip: a receive fed, read by read, the levels that a transmit of
/// `b` drove passes its start check (the first level is low) and, when the
/// eight data reads give the byte `r`, `r` is `b`.
pub proof fn lemma_round_trip(b: u8, r: u8)
    requires
        bits(r) == levels(transmit_ops(b)).subrange(1, 9),
    ensures
        !levels(transmit_ops(b))[0],
        r == b,
{
    lemma_transmit_cells(b);
    assert(levels(transmit_ops(b)).subrange(1, 9) =~= bits(b));
    lemma_bits_injective(r, b);
}

} // verus!
