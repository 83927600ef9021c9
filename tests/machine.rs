use keccak_machine::airs::poseidon::PoseidonAir;
use keccak_machine::airs::step_flags::StepFlagsAir;
use keccak_machine::bus::KeccakMachineBus;
use keccak_machine::chips::keccak_permute::{
    KeccakPermuteChip, KeccakPermuteOp, COL_A_PRIME_PRIME, COL_A_PRIME_PRIME_PRIME_0_0_LIMBS, COL_IS_REAL,
    COL_IS_REAL_INPUT, COL_IS_REAL_OUTPUT, COL_PREIMAGE, NUM_KECCAK_PERMUTE_COLS,
};
use keccak_machine::chips::{KeccakMachineChip, MERKLE_TREE_DEPTH};
use keccak_machine::field::{fadd, fmul, fsub, from_u32, P};
use keccak_machine::interaction::Interaction;
use keccak_machine::machine::{generate_machine_trace, KeccakMachine};
use keccak_machine::trace::{next_power_of_two, Trace};
use std::collections::HashMap;
use tiny_keccak::{Hasher, Keccak};

fn compress(left: &[u8; 32], right: &[u8; 32]) -> [u8; 32] {
    let mut h = Keccak::v256();
    h.update(left);
    h.update(right);
    let mut out = [0u8; 32];
    h.finalize(&mut out);
    out
}

fn next_u64(x: &mut u64) -> u64 {
    *x = x.wrapping_mul(6364136223846793005).wrapping_add(1442695040888963407);
    *x
}

fn generate_digests(leaf_hashes: Vec<[u8; 32]>) -> Vec<Vec<[u8; 32]>> {
    let mut digests = vec![leaf_hashes];
    while digests.last().unwrap().len() > 1 {
        let last = digests.last().unwrap().clone();
        digests.push(last.chunks_exact(2).map(|c| compress(&c[0], &c[1])).collect());
    }
    digests
}

fn cell(t: &Trace, r: usize, c: usize) -> u32 {
    t.values[r * t.width + c]
}

/// Adds the count-weighted tuples of every row of a table to the balance of
/// each bus, with the given sign.
fn accumulate(balance: &mut HashMap<(usize, Vec<u32>), i64>, interactions: &[Interaction], t: &Trace, sign: i64) {
    let height = t.values.len() / t.width;
    for r in 0..height {
        let row = t.values[r * t.width..(r + 1) * t.width].to_vec();
        for i in interactions {
            let count = i.count.apply(&vec![], &row) as i64;
            if count == 0 {
                continue;
            }
            let tuple: Vec<u32> = i.fields.iter().map(|f| f.apply(&vec![], &row)).collect();
            *balance.entry((i.argument_index, tuple)).or_insert(0) += sign * count;
        }
    }
}

#[test]
fn test_keccak_permute_prove() {
    let mut x = 10u64;
    let ops: Vec<KeccakPermuteOp> = (0..10)
        .map(|_| {
            let mut input = [0u64; 25];
            for l in input.iter_mut() {
                *l = next_u64(&mut x);
            }
            KeccakPermuteOp { input }
        })
        .collect();
    let t = KeccakPermuteChip::generate_trace(ops.clone());
    assert_eq!(t.width, NUM_KECCAK_PERMUTE_COLS);
    assert_eq!(t.values.len(), 256 * NUM_KECCAK_PERMUTE_COLS);
    for (k, op) in ops.iter().enumerate() {
        let first = 24 * k;
        let last = first + 23;
        assert_eq!(cell(&t, first, COL_IS_REAL_INPUT), 1);
        assert_eq!(cell(&t, last, COL_IS_REAL_OUTPUT), 1);
        assert_eq!(cell(&t, first + 1, COL_IS_REAL_INPUT), 0);
        for i in 0..100 {
            assert_eq!(cell(&t, first, COL_PREIMAGE + i) as u64, (op.input[i / 4] >> (16 * (i % 4))) & 0xffff);
        }
        let mut image = op.input;
        tiny_keccak::keccakf(&mut image);
        for i in 0..100 {
            let col = if i < 4 { COL_A_PRIME_PRIME_PRIME_0_0_LIMBS + i } else { COL_A_PRIME_PRIME + i };
            assert_eq!(cell(&t, last, col) as u64, (image[i / 4] >> (16 * (i % 4))) & 0xffff);
        }
    }
    assert_eq!(cell(&t, 240, COL_IS_REAL), 0);
    assert_eq!(cell(&t, 239, COL_IS_REAL), 1);
}

#[test]
fn test_machine_prove() {
    let mut x = 0u64;
    let leaf_hashes: Vec<[u8; 32]> = (0..(1 << MERKLE_TREE_DEPTH))
        .map(|_| {
            let mut d = [0u8; 32];
            for b in d.iter_mut() {
                *b = (next_u64(&mut x) >> 33) as u8;
            }
            d
        })
        .collect();
    let digests = generate_digests(leaf_hashes);
    let leaf_index = (next_u64(&mut x) >> 33) as usize % (1 << MERKLE_TREE_DEPTH);
    let traces = generate_machine_trace(leaf_index, &digests);
    assert_eq!(traces.len(), 4);
    let traces: Vec<Trace> = traces.into_iter().map(|t| t.unwrap()).collect();
    let merkle = &traces[0];
    let w = merkle.width;
    let output: Vec<u8> = (0..32).map(|i| cell(merkle, 7, 3 + 8 + 4 * 32 + i) as u8).collect();
    assert_eq!(output, digests[MERKLE_TREE_DEPTH][0].to_vec());
    assert_eq!(cell(merkle, 7, 2 + 8 + 2 * 32) as usize, leaf_index);
    assert_eq!(merkle.values.len(), 8 * w);
}

#[test]
fn test_machine_bus_conservation() {
    let mut x = 77u64;
    let leaf_hashes: Vec<[u8; 32]> = (0..(1 << MERKLE_TREE_DEPTH))
        .map(|_| {
            let mut d = [0u8; 32];
            for b in d.iter_mut() {
                *b = (next_u64(&mut x) >> 33) as u8;
            }
            d
        })
        .collect();
    let digests = generate_digests(leaf_hashes);
    for leaf_index in [0usize, 1, 200, 255] {
        let traces: Vec<Trace> = generate_machine_trace(leaf_index, &digests).into_iter().map(|t| t.unwrap()).collect();
        let chips = KeccakMachine.chips();
        assert_eq!(chips.len(), 4);
        let mut balance: HashMap<(usize, Vec<u32>), i64> = HashMap::new();
        for (chip, t) in chips.iter().zip(traces.iter()) {
            assert_eq!(chip.width(), t.width);
            let (sends, receives) = match chip {
                KeccakMachineChip::MerkleRoot(c) => (c.sends(), c.receives()),
                KeccakMachineChip::KeccakSponge(c) => (c.sends(), c.receives()),
                KeccakMachineChip::Xor(c) => (c.sends(), c.receives()),
                KeccakMachineChip::KeccakPermute(c) => (c.sends(), c.receives()),
                _ => panic!("the machine holds no other chip"),
            };
            accumulate(&mut balance, &sends, t, 1);
            accumulate(&mut balance, &receives, t, -1);
        }
        let unbalanced: Vec<_> = balance.iter().filter(|(_, &v)| v != 0).map(|((bus, _), v)| (*bus, *v)).collect();
        assert!(unbalanced.is_empty(), "unbalanced buses: {:?}", unbalanced);
    }
}

#[test]
fn test_bus_ids() {
    assert_eq!(KeccakMachineBus::KeccakPermuteInput.id(), 0);
    assert_eq!(KeccakMachineBus::KeccakPermuteOutput.id(), 1);
    assert_eq!(KeccakMachineBus::KeccakSpongeInput.id(), 2);
    assert_eq!(KeccakMachineBus::KeccakSpongeOutput.id(), 3);
    assert_eq!(KeccakMachineBus::XorInput.id(), 4);
    assert_eq!(KeccakMachineBus::XorOutput.id(), 5);
}

#[test]
fn test_poseidon_air() {
    let round_constants: Vec<u32> = (0..30 * 8).map(|i| i as u32).collect();
    let air = PoseidonAir::<u32, (), 8, 7, 30>::new(4, 22, round_constants.clone(), ());
    assert_eq!(air.half_num_full_rounds, 4);
    assert_eq!(air.num_partial_rounds, 22);
    assert_eq!(air.round_constants, round_constants);
    assert_eq!(air.width(), 30 + 1 + 4 * 8);
}

#[test]
fn test_step_flags() {
    let air = StepFlagsAir::<3>;
    assert_eq!(air.width(), 3);
    assert!(air.eval_first_row(&vec![1, 0, 0]));
    assert!(!air.eval_first_row(&vec![0, 1, 0]));
    assert!(air.eval_transition(&vec![1, 0, 0], &vec![0, 1, 0]));
    assert!(air.eval_transition(&vec![0, 0, 1], &vec![1, 0, 0]));
    assert!(!air.eval_transition(&vec![1, 0, 0], &vec![0, 0, 1]));
}

#[test]
fn test_next_power_of_two() {
    assert_eq!(next_power_of_two(0), 1);
    assert_eq!(next_power_of_two(1), 1);
    assert_eq!(next_power_of_two(5), 8);
    assert_eq!(next_power_of_two(240), 256);
    assert_eq!(next_power_of_two(256), 256);
    assert_eq!(next_power_of_two(257), 512);
}

#[test]
fn test_field_arithmetic() {
    assert_eq!(P, 2013265921);
    assert_eq!(from_u32(P + 5), 5);
    assert_eq!(fadd(P - 1, 2), 1);
    assert_eq!(fsub(1, 2), P - 1);
    assert_eq!(fmul(P - 1, P - 1), 1);
    assert_eq!(fmul(1 << 20, 1 << 20), ((1u64 << 40) % P as u64) as u32);
}

#[test]
fn test_keccak_permute_flags_eval() {
    let chip = KeccakPermuteChip { bus_input: 0, bus_output: 1 };
    let mut row = vec![0u32; NUM_KECCAK_PERMUTE_COLS];
    row[0] = 1;
    row[COL_IS_REAL] = 1;
    row[COL_IS_REAL_INPUT] = 1;
    assert!(chip.eval(&row));
    row[COL_IS_REAL_OUTPUT] = 1;
    assert!(!chip.eval(&row));
}
