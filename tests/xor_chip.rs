use keccak_machine::chips::xor::{XorChip, XorOp};
use keccak_machine::interaction::PairCol;

fn row_for(a: u16, b: u16) -> Vec<u32> {
    let mut row = Vec::new();
    XorChip::<2>::populate_row_for_op(&mut row, &XorOp { input1: a, input2: b });
    row
}

#[test]
fn test_xor_all_byte_pairs() {
    let chip = XorChip::<2> { bus_input: 4, bus_output: 5 };
    for a in 0u16..256 {
        for b in 0u16..256 {
            let row = row_for(a, b);
            assert_eq!(row.len(), 39);
            assert_eq!(row[0], 1);
            assert_eq!(row[1], a as u32);
            assert_eq!(row[3], b as u32);
            assert_eq!(row[37], (a ^ b) as u32);
            let bits1: u32 = (0..8).map(|j| row[5 + j] << j).sum();
            let bits2: u32 = (0..8).map(|j| row[21 + j] << j).sum();
            assert_eq!(bits1, a as u32);
            assert_eq!(bits2, b as u32);
            assert!(chip.eval(&row));
        }
    }
}

#[test]
fn test_xor_two_byte_operands() {
    let row = row_for(0xABCD, 0x1234);
    assert_eq!(row[1], 0xCD);
    assert_eq!(row[2], 0xAB);
    assert_eq!(row[3], 0x34);
    assert_eq!(row[4], 0x12);
    assert_eq!(row[37], 0xCD ^ 0x34);
    assert_eq!(row[38], 0xAB ^ 0x12);
}

#[test]
fn test_xor_eval_rejects_wrong_output() {
    let chip = XorChip::<2> { bus_input: 0, bus_output: 1 };
    let mut row = row_for(7, 9);
    assert!(chip.eval(&row));
    row[37] = 7;
    assert!(!chip.eval(&row));
    let mut row = row_for(7, 9);
    row[5] = 2;
    assert!(!chip.eval(&row));
}

#[test]
fn test_xor_trace_heights_and_padding() {
    let chip = XorChip::<2> { bus_input: 0, bus_output: 1 };
    for (n, h) in [(0usize, 1usize), (1, 1), (3, 4), (5, 8), (8, 8), (9, 16)] {
        let ops: Vec<XorOp> = (0..n).map(|i| XorOp { input1: i as u16 * 77, input2: 300 }).collect();
        let t = XorChip::<2>::generate_trace(ops);
        assert_eq!(t.width, 39);
        assert_eq!(t.values.len(), h * 39);
        for r in 0..h {
            let row = t.values[r * 39..(r + 1) * 39].to_vec();
            assert!(chip.eval(&row));
            if r >= n {
                assert!(row.iter().all(|&v| v == 0));
            } else {
                assert_eq!(row[0], 1);
            }
        }
    }
}

#[test]
fn test_xor_interactions() {
    let chip = XorChip::<2> { bus_input: 4, bus_output: 5 };
    let recv = chip.receives();
    assert_eq!(recv.len(), 1);
    assert_eq!(recv[0].argument_index, 4);
    assert_eq!(recv[0].fields.len(), 2);
    assert_eq!(recv[0].fields[0].column_weights, vec![(PairCol::Main(1), 1), (PairCol::Main(2), 256)]);
    assert_eq!(recv[0].fields[1].column_weights, vec![(PairCol::Main(3), 1), (PairCol::Main(4), 256)]);
    let sent = chip.sends();
    assert_eq!(sent[0].argument_index, 5);
    assert_eq!(sent[0].fields[0].column_weights, vec![(PairCol::Main(37), 1), (PairCol::Main(38), 256)]);
    let row = row_for(0x0102, 0x0300);
    assert_eq!(sent[0].fields[0].apply(&vec![], &row), 0x0102 ^ 0x0300);
    assert_eq!(recv[0].count.apply(&vec![], &row), 1);
}
