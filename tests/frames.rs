use bitbang_serial::frame::{receive_schedule, transmit_schedule, Op, Step, ALIGN_NOPS};
use bitbang_serial::receive::Reception;
use bitbang_serial::serial::Error;
use bitbang_serial::transmit::Transmission;

/// Runs a transmission of `byte`; the operation at position `fail_at`
/// (if any) fails with that position as its error.
fn run_transmit(byte: u8, fail_at: Option<usize>) -> (Vec<Op>, Result<(), Error<usize>>) {
    let (mut tx, mut op) = Transmission::start(byte);
    let mut done: Vec<Op> = Vec::new();
    loop {
        let outcome = if fail_at == Some(done.len()) {
            Err(done.len())
        } else {
            Ok(false)
        };
        done.push(op);
        match tx.step(outcome) {
            Step::Next(next, next_op) => {
                tx = next;
                op = next_op;
            }
            Step::Finished(result) => return (done, result),
        }
    }
}

/// Runs a reception whose reads find `line` in order (low once it runs
/// out); the operation at position `fail_at` (if any) fails.
fn run_receive(line: &[bool], fail_at: Option<usize>) -> (Vec<Op>, Result<u8, Error<usize>>) {
    let (mut rx, mut op) = Reception::start();
    let mut done: Vec<Op> = Vec::new();
    let mut reads: usize = 0;
    loop {
        let outcome = if fail_at == Some(done.len()) {
            Err(done.len())
        } else if op == Op::ReadLine {
            let level = line.get(reads).copied().unwrap_or(false);
            reads += 1;
            Ok(level)
        } else {
            Ok(false)
        };
        done.push(op);
        match rx.step(outcome) {
            Step::Next(next, next_op) => {
                rx = next;
                op = next_op;
            }
            Step::Finished(result) => return (done, result),
        }
    }
}

fn driven_levels(ops: &[Op]) -> Vec<bool> {
    ops.iter()
        .filter_map(|op| match op {
            Op::SetHigh => Some(true),
            Op::SetLow => Some(false),
            _ => None,
        })
        .collect()
}

fn count(ops: &[Op], which: Op) -> usize {
    ops.iter().filter(|op| **op == which).count()
}

fn alignment() -> Vec<Op> {
    let mut v = vec![Op::ResetTimer];
    v.extend(std::iter::repeat(Op::Nop).take(ALIGN_NOPS));
    v.push(Op::Wait);
    v
}

#[test]
fn transmit_schedule_of_0xb2() {
    let mut expected = vec![Op::SetLow];
    expected.extend(alignment());
    for level in [false, true, false, false, true, true, false, true] {
        expected.push(if level { Op::SetHigh } else { Op::SetLow });
        expected.push(Op::Wait);
    }
    expected.push(Op::SetHigh);
    expected.push(Op::Wait);
    assert_eq!(transmit_schedule(0xB2), expected);
}

#[test]
fn receive_schedule_layout() {
    let mut expected = vec![Op::ReadLine];
    expected.extend(alignment());
    for _ in 0..8 {
        expected.push(Op::ReadLine);
        expected.push(Op::Wait);
    }
    expected.push(Op::Wait);
    assert_eq!(receive_schedule(), expected);
}

#[test]
fn round_trip_every_byte() {
    for b in 0..=255u8 {
        let (ops, result) = run_transmit(b, None);
        assert_eq!(result, Ok(()));
        let line = driven_levels(&ops);
        let (_, received) = run_receive(&line, None);
        assert_eq!(received, Ok(b), "byte {b:#04x}");
    }
}

#[test]
fn transmit_drives_ten_cells() {
    for b in [0x00u8, 0x01, 0x5A, 0xB2, 0xFF] {
        let (ops, result) = run_transmit(b, None);
        assert_eq!(result, Ok(()));
        let levels = driven_levels(&ops);
        assert_eq!(levels.len(), 10);
        assert!(!levels[0]);
        assert!(levels[9]);
        for k in 0..8 {
            assert_eq!(levels[k + 1], (b >> k) & 1 == 1);
        }
        assert_eq!(count(&ops, Op::Wait), 10);
        assert_eq!(ops.len(), 26);
    }
}

#[test]
fn receive_on_high_line_is_invalid_interrupt() {
    let (ops, result) = run_receive(&[true, false, false], None);
    assert_eq!(result, Err(Error::InvalidInterrupt));
    assert_eq!(ops, vec![Op::ReadLine]);
}

#[test]
fn receive_waits_nine_periods_after_alignment() {
    let (ops, result) = run_receive(&[false; 9], None);
    assert_eq!(result, Ok(0x00));
    assert_eq!(ops.len(), 25);
    let mut head = vec![Op::ReadLine];
    head.extend(alignment());
    assert_eq!(&ops[..8], &head[..]);
    assert_eq!(count(&ops[8..], Op::Wait), 9);
    assert_eq!(count(&ops[8..], Op::ReadLine), 8);
}

#[test]
fn transmit_failure_stops_the_frame() {
    for at in 0..26 {
        let (ops, result) = run_transmit(0xB2, Some(at));
        assert_eq!(result, Err(Error::Bus(at)));
        assert_eq!(ops.len(), at + 1);
    }
}

#[test]
fn receive_failure_stops_the_frame() {
    for at in 0..25 {
        let (ops, result) = run_receive(&[false; 9], Some(at));
        assert_eq!(result, Err(Error::Bus(at)));
        assert_eq!(ops.len(), at + 1);
    }
}

#[test]
fn byte_0xb2_scenario() {
    let (ops, result) = run_transmit(0b1011_0010, None);
    assert_eq!(result, Ok(()));
    let line = driven_levels(&ops);
    assert_eq!(
        line,
        vec![false, false, true, false, false, true, true, false, true, true]
    );
    let (_, received) = run_receive(&line, None);
    assert_eq!(received, Ok(0xB2));
}

#[test]
fn byte_0x00_scenario() {
    let (ops, result) = run_transmit(0x00, None);
    assert_eq!(result, Ok(()));
    let line = driven_levels(&ops);
    let mut expected = vec![false; 9];
    expected.push(true);
    assert_eq!(line, expected);
    let (_, received) = run_receive(&line, None);
    assert_eq!(received, Ok(0x00));
}

#[test]
fn byte_0xff_scenario() {
    let (ops, result) = run_transmit(0xFF, None);
    assert_eq!(result, Ok(()));
    let line = driven_levels(&ops);
    let mut expected = vec![false];
    expected.extend(vec![true; 9]);
    assert_eq!(line, expected);
    let (_, received) = run_receive(&line, None);
    assert_eq!(received, Ok(0xFF));
}

#[test]
fn receive_assembles_lsb_first() {
    let line = [false, true, false, false, false, false, false, false, false];
    let (_, received) = run_receive(&line, None);
    assert_eq!(received, Ok(0x01));
    let line = [false, false, false, false, false, false, false, false, true];
    let (_, received) = run_receive(&line, None);
    assert_eq!(received, Ok(0x80));
}
