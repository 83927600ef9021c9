use keccak_machine::chips::memory::{MemoryChip, MemoryOp, OperationKind, NUM_MEMORY_COLS};
use keccak_machine::chips::range_checker::RangeCheckerChip;
use keccak_machine::field::P;
use std::collections::BTreeMap;

fn pseudo(n: usize, seed: u64) -> Vec<u8> {
    let mut x = seed;
    (0..n)
        .map(|_| {
            x = x.wrapping_mul(6364136223846793005).wrapping_add(1442695040888963407);
            (x >> 33) as u8
        })
        .collect()
}

fn row(t: &keccak_machine::trace::Trace, r: usize) -> Vec<u32> {
    t.values[r * t.width..(r + 1) * t.width].to_vec()
}

fn fe(x: i64) -> i64 {
    x.rem_euclid(P as i64)
}

/// The gap identity between two rows, evaluated over the field.
fn gap_identity_holds(local: &[u32], next: &[u32]) -> bool {
    let live = (next[3] + next[4]) as i64;
    let limbs = next[6] as i64 + 256 * next[7] as i64 + 65536 * next[8] as i64;
    let au = next[5] as i64;
    let expected = au * (next[1] as i64 - local[1] as i64) + (1 - au) * (next[0] as i64 - local[0] as i64 - 1);
    fe(live * limbs) == fe(live * expected)
}

#[test]
fn test_memory_prove() {
    let bytes = pseudo(400, 9);
    let operations: Vec<MemoryOp> = bytes
        .iter()
        .enumerate()
        .map(|(i, &b)| MemoryOp { addr: i as u32, timestamp: i as u32, value: b, kind: OperationKind::Read })
        .collect();
    let t = MemoryChip::generate_trace(operations);
    assert_eq!(t.width, NUM_MEMORY_COLS);
    assert_eq!(t.values.len(), 512 * NUM_MEMORY_COLS);
    for r in 0..511 {
        assert!(gap_identity_holds(&row(&t, r), &row(&t, r + 1)));
    }
    assert_eq!(row(&t, 7)[2], bytes[7] as u32);
    assert_eq!(row(&t, 7)[3], 1);
    assert_eq!(row(&t, 7)[4], 0);
    assert!(row(&t, 400).iter().all(|&v| v == 0));
}

#[test]
fn test_memory_same_address_gap_limbs() {
    let ops = vec![
        MemoryOp { addr: 10, timestamp: 5, value: 1, kind: OperationKind::Write },
        MemoryOp { addr: 10, timestamp: 5 + 0x012345, value: 1, kind: OperationKind::Read },
        MemoryOp { addr: 12, timestamp: 0, value: 9, kind: OperationKind::Write },
    ];
    let t = MemoryChip::generate_trace(ops);
    let r1 = row(&t, 1);
    assert_eq!(r1[5], 1);
    assert_eq!((r1[6], r1[7], r1[8]), (0x45, 0x23, 0x01));
    let r2 = row(&t, 2);
    assert_eq!(r2[5], 0);
    assert_eq!((r2[6], r2[7], r2[8]), (1, 0, 0));
    assert!(gap_identity_holds(&row(&t, 0), &r1));
    assert!(gap_identity_holds(&r1, &r2));
    assert!(gap_identity_holds(&r2, &row(&t, 3)));
}

#[test]
fn test_memory_out_of_order_log() {
    let ops = vec![
        MemoryOp { addr: 5, timestamp: 0, value: 0, kind: OperationKind::Write },
        MemoryOp { addr: 3, timestamp: 1, value: 0, kind: OperationKind::Read },
    ];
    let t = MemoryChip::generate_trace(ops);
    let r1 = row(&t, 1);
    assert_eq!((r1[6], r1[7], r1[8]), (0xFD, 0xFF, 0xFF));
    assert!(!gap_identity_holds(&row(&t, 0), &r1));
    let ops = vec![
        MemoryOp { addr: 5, timestamp: 9, value: 0, kind: OperationKind::Write },
        MemoryOp { addr: 5, timestamp: 4, value: 0, kind: OperationKind::Read },
    ];
    let t = MemoryChip::generate_trace(ops);
    assert!(!gap_identity_holds(&row(&t, 0), &row(&t, 1)));
}

#[test]
fn test_memory_interactions() {
    let chip = MemoryChip { bus_memory: 7, bus_range_8: 6 };
    let ops = vec![
        MemoryOp { addr: 1, timestamp: 1, value: 3, kind: OperationKind::Write },
        MemoryOp { addr: 1, timestamp: 2, value: 3, kind: OperationKind::Read },
    ];
    let t = MemoryChip::generate_trace(ops);
    let sent = chip.sends();
    assert_eq!(sent.len(), 4);
    assert_eq!(sent[0].argument_index, 7);
    assert_eq!(sent[0].count.apply(&vec![], &row(&t, 0)), 1);
    assert_eq!(sent[0].count.apply(&vec![], &row(&t, 1)), 0);
    assert_eq!(chip.receives()[0].count.apply(&vec![], &row(&t, 1)), 1);
    assert_eq!(chip.receives()[0].count.apply(&vec![], &row(&t, 0)), 0);
    assert!(sent[1..].iter().all(|i| i.argument_index == 6));
    let recv = chip.receives();
    assert_eq!(recv.len(), 1);
    assert_eq!(recv[0].argument_index, 7);
}

#[test]
fn test_range_prove() {
    let mut count: BTreeMap<u32, u32> = BTreeMap::new();
    for b in pseudo(400, 11) {
        *count.entry(b as u32).or_insert(0) += 1;
    }
    let trace = RangeCheckerChip::<256>::generate_trace(count.clone());
    assert_eq!(trace.width, 1);
    assert_eq!(trace.values.len(), 256);
    assert_eq!(trace.values.iter().map(|&v| v as u64).sum::<u64>(), 400);
    for v in 0..256u32 {
        assert_eq!(trace.values[v as usize], *count.get(&v).unwrap_or(&0));
    }
    let pre = RangeCheckerChip::<256>::generate_preprocessed_trace();
    assert_eq!(pre.values, (0..256u32).collect::<Vec<_>>());
}

#[test]
fn test_range_pads_to_power_of_two() {
    let mut count: BTreeMap<u32, u32> = BTreeMap::new();
    count.insert(2, 5);
    count.insert(9, 1);
    let trace = RangeCheckerChip::<6>::generate_trace(count);
    assert_eq!(trace.values, vec![0, 0, 5, 0, 0, 0, 0, 0]);
    let pre = RangeCheckerChip::<6>::generate_preprocessed_trace();
    assert_eq!(pre.values, vec![0, 1, 2, 3, 4, 5, 0, 0]);
}

#[test]
fn test_memory_eval_on_sorted_and_unsorted_logs() {
    let chip = MemoryChip { bus_memory: 7, bus_range_8: 6 };
    let ops = vec![
        MemoryOp { addr: 1, timestamp: 3, value: 4, kind: OperationKind::Write },
        MemoryOp { addr: 1, timestamp: 8, value: 4, kind: OperationKind::Read },
        MemoryOp { addr: 4, timestamp: 1, value: 2, kind: OperationKind::Write },
    ];
    let t = MemoryChip::generate_trace(ops);
    for r in 0..4 {
        assert!(chip.eval_row(&row(&t, r)));
    }
    for r in 0..3 {
        assert!(chip.eval_transition(&row(&t, r), &row(&t, r + 1)));
    }
    let ops = vec![
        MemoryOp { addr: 4, timestamp: 1, value: 2, kind: OperationKind::Write },
        MemoryOp { addr: 1, timestamp: 3, value: 4, kind: OperationKind::Read },
    ];
    let t = MemoryChip::generate_trace(ops);
    assert!(!chip.eval_transition(&row(&t, 0), &row(&t, 1)));
    let mut bad = row(&t, 0);
    bad[3] = 1;
    bad[4] = 1;
    assert!(!chip.eval_row(&bad));
}
