use keccak_machine::chips::keccak_sponge::{
    KeccakSpongeChip, KeccakSpongeOp, COL_BLOCK_BYTES, COL_IS_FULL_INPUT_BLOCK, COL_IS_PADDING_BYTE,
    COL_UPDATED_DIGEST_STATE_BYTES, NUM_KECCAK_SPONGE_COLS,
};
use keccak_machine::trace::Trace;
use tiny_keccak::{Hasher, Keccak};

fn keccak256(input: &[u8]) -> [u8; 32] {
    let mut h = Keccak::v256();
    h.update(input);
    let mut out = [0u8; 32];
    h.finalize(&mut out);
    out
}

fn bytes(n: usize, seed: u64) -> Vec<u8> {
    let mut x = seed;
    (0..n)
        .map(|_| {
            x = x.wrapping_mul(6364136223846793005).wrapping_add(1442695040888963407);
            (x >> 33) as u8
        })
        .collect()
}

fn cell(t: &Trace, r: usize, c: usize) -> u32 {
    t.values[r * t.width + c]
}

fn digest_of_row(t: &Trace, r: usize) -> Vec<u8> {
    (0..32).map(|k| cell(t, r, COL_UPDATED_DIGEST_STATE_BYTES + k) as u8).collect()
}

fn op(input: Vec<u8>) -> KeccakSpongeOp {
    KeccakSpongeOp { timestamp: 0, addr: 0, input }
}

#[test]
fn test_keccak_sponge_prove() {
    let input = bytes(400, 1);
    let t = KeccakSpongeChip::generate_trace(vec![op(input.clone())]);
    assert_eq!(t.width, NUM_KECCAK_SPONGE_COLS);
    assert_eq!(t.values.len(), 4 * NUM_KECCAK_SPONGE_COLS);
    assert_eq!(cell(&t, 0, COL_IS_FULL_INPUT_BLOCK), 1);
    assert_eq!(cell(&t, 1, COL_IS_FULL_INPUT_BLOCK), 1);
    assert_eq!(cell(&t, 2, COL_IS_FULL_INPUT_BLOCK), 0);
    assert_eq!(digest_of_row(&t, 2), keccak256(&input).to_vec());
}

#[test]
fn test_sponge_exact_multiple_of_rate() {
    let input = bytes(272, 2);
    let t = KeccakSpongeChip::generate_trace(vec![op(input.clone())]);
    assert_eq!(t.values.len(), 4 * NUM_KECCAK_SPONGE_COLS);
    assert_eq!(cell(&t, 0, COL_IS_FULL_INPUT_BLOCK), 1);
    assert_eq!(cell(&t, 1, COL_IS_FULL_INPUT_BLOCK), 1);
    assert_eq!(cell(&t, 2, COL_IS_FULL_INPUT_BLOCK), 0);
    for k in 0..136 {
        assert_eq!(cell(&t, 0, COL_IS_PADDING_BYTE + k), 0);
        assert_eq!(cell(&t, 2, COL_IS_PADDING_BYTE + k), 1);
    }
    assert_eq!(cell(&t, 2, COL_BLOCK_BYTES), 0x01);
    assert_eq!(cell(&t, 2, COL_BLOCK_BYTES + 135), 0x80);
    assert_eq!(digest_of_row(&t, 2), keccak256(&input).to_vec());
}

#[test]
fn test_sponge_length_135_merges_padding() {
    let input = bytes(135, 3);
    let t = KeccakSpongeChip::generate_trace(vec![op(input.clone())]);
    assert_eq!(t.values.len(), NUM_KECCAK_SPONGE_COLS);
    assert_eq!(cell(&t, 0, COL_BLOCK_BYTES + 135), 0x81);
    assert_eq!(cell(&t, 0, COL_IS_PADDING_BYTE + 134), 0);
    assert_eq!(cell(&t, 0, COL_IS_PADDING_BYTE + 135), 1);
    assert_eq!(digest_of_row(&t, 0), keccak256(&input).to_vec());
}

#[test]
fn test_sponge_empty_input_and_padding_rows() {
    let t = KeccakSpongeChip::generate_trace(vec![op(vec![]), op(bytes(10, 4)), op(bytes(140, 5))]);
    assert_eq!(t.values.len(), 4 * NUM_KECCAK_SPONGE_COLS);
    assert_eq!(digest_of_row(&t, 0), keccak256(&[]).to_vec());
    assert_eq!(digest_of_row(&t, 1), keccak256(&bytes(10, 4)).to_vec());
    assert_eq!(digest_of_row(&t, 3), keccak256(&bytes(140, 5)).to_vec());
    let t = KeccakSpongeChip::generate_trace(vec![op(bytes(10, 4)), op(bytes(20, 6)), op(bytes(30, 7))]);
    assert_eq!(t.values.len(), 4 * NUM_KECCAK_SPONGE_COLS);
    assert!(t.values[3 * NUM_KECCAK_SPONGE_COLS..].iter().all(|&v| v == 0));
}

#[test]
fn test_sponge_interactions_shape() {
    let chip = KeccakSpongeChip {
        bus_input: 2,
        bus_output: 3,
        bus_xor_input: 4,
        bus_xor_output: 5,
        bus_permute_input: 0,
        bus_permute_output: 1,
    };
    let recv = chip.receives();
    let sent = chip.sends();
    assert_eq!(recv.len(), 70);
    assert_eq!(sent.len(), 70);
    assert_eq!(recv[0].fields.len(), 137);
    assert_eq!(recv[69].fields.len(), 100);
    assert_eq!(sent[68].fields.len(), 100);
    assert_eq!(sent[69].argument_index, 3);
}

#[test]
fn test_sponge_eval_on_generated_rows() {
    let chip = KeccakSpongeChip {
        bus_input: 2,
        bus_output: 3,
        bus_xor_input: 4,
        bus_xor_output: 5,
        bus_permute_input: 0,
        bus_permute_output: 1,
    };
    for len in [0usize, 1, 64, 135, 136, 271, 272, 400] {
        let t = KeccakSpongeChip::generate_trace(vec![op(bytes(len, len as u64))]);
        let h = t.values.len() / t.width;
        for r in 0..h {
            let row = t.values[r * t.width..(r + 1) * t.width].to_vec();
            assert!(chip.eval(&row), "row {} of an input of {} bytes", r, len);
        }
    }
    let t = KeccakSpongeChip::generate_trace(vec![op(bytes(10, 1))]);
    let mut row = t.values[0..t.width].to_vec();
    row[COL_BLOCK_BYTES + 135] = 0x81;
    assert!(!chip.eval(&row));
    let mut row = t.values[0..t.width].to_vec();
    row[COL_IS_PADDING_BYTE + 3] = 1;
    assert!(!chip.eval(&row));
}

#[test]
fn test_sponge_padding_rows_are_idle_and_digest_sent_once() {
    let chip = KeccakSpongeChip {
        bus_input: 2,
        bus_output: 3,
        bus_xor_input: 4,
        bus_xor_output: 5,
        bus_permute_input: 0,
        bus_permute_output: 1,
    };
    let t = KeccakSpongeChip::generate_trace(vec![op(vec![]), op(vec![]), op(vec![])]);
    let w = t.width;
    let rows: Vec<Vec<u32>> = (0..4).map(|r| t.values[r * w..(r + 1) * w].to_vec()).collect();
    for i in chip.sends().iter().chain(chip.receives().iter()) {
        assert_eq!(i.count.apply(&vec![], &rows[0]), 1);
        assert_eq!(i.count.apply(&vec![], &rows[3]), 0);
    }
    let t = KeccakSpongeChip::generate_trace(vec![op(bytes(300, 8))]);
    let full_row = t.values[0..w].to_vec();
    let last_row = t.values[2 * w..3 * w].to_vec();
    let sent = chip.sends();
    assert_eq!(sent[69].argument_index, 3);
    assert_eq!(sent[69].count.apply(&vec![], &full_row), 0);
    assert_eq!(sent[69].count.apply(&vec![], &last_row), 1);
    assert_eq!(sent[0].count.apply(&vec![], &full_row), 1);
}
