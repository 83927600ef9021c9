use keccak_machine::chips::merkle_root::{MerkleRootChip, MerkleRootOp};
use tiny_keccak::{Hasher, Keccak};

fn compress(left: &[u8; 32], right: &[u8; 32]) -> [u8; 32] {
    let mut h = Keccak::v256();
    h.update(left);
    h.update(right);
    let mut out = [0u8; 32];
    h.finalize(&mut out);
    out
}

fn leaves(n: usize, seed: u64) -> Vec<[u8; 32]> {
    let mut x = seed;
    (0..n)
        .map(|_| {
            let mut d = [0u8; 32];
            for b in d.iter_mut() {
                x = x.wrapping_mul(6364136223846793005).wrapping_add(1442695040888963407);
                *b = (x >> 33) as u8;
            }
            d
        })
        .collect()
}

fn generate_digests(leaf_hashes: Vec<[u8; 32]>) -> Vec<Vec<[u8; 32]>> {
    let mut digests = vec![leaf_hashes];
    while digests.last().unwrap().len() > 1 {
        let last = digests.last().unwrap().clone();
        digests.push(last.chunks_exact(2).map(|c| compress(&c[0], &c[1])).collect());
    }
    digests
}

#[test]
fn mod_test_merkle_root_prove() {
    const HEIGHT: usize = 3;
    let digests = generate_digests(leaves(1 << HEIGHT, 0));
    for leaf_index in 0..(1 << HEIGHT) {
        let op = MerkleRootOp {
            leaf_index,
            leaf_hash: digests[0][leaf_index].to_vec(),
            siblings: (0..HEIGHT).map(|i| digests[i][(leaf_index >> i) ^ 1].to_vec()).collect(),
        };
        let t = MerkleRootChip::<HEIGHT, 32>::generate_trace(vec![op]);
        let w = t.width;
        assert_eq!(w, 3 + HEIGHT + 5 * 32);
        assert_eq!(t.values.len(), 4 * w);
        let last = &t.values[(HEIGHT - 1) * w..HEIGHT * w];
        let output: Vec<u8> = (0..32).map(|i| last[3 + HEIGHT + 4 * 32 + i] as u8).collect();
        assert_eq!(output, digests[HEIGHT][0].to_vec());
        assert_eq!(last[2 + HEIGHT + 2 * 32] as usize, leaf_index);
        for r in 0..HEIGHT {
            assert_eq!(t.values[r * w], 1);
            assert_eq!(t.values[r * w + 1 + r], 1);
        }
        assert_eq!(t.values[HEIGHT * w], 0);
    }
}

#[test]
fn test_merkle_interactions() {
    let chip = MerkleRootChip::<8, 32> { bus_hasher_input: 2, bus_hasher_output: 3 };
    let sent = chip.sends();
    assert_eq!(sent.len(), 1);
    assert_eq!(sent[0].fields.len(), 137);
    assert_eq!(sent[0].fields[65].constant, 1);
    assert_eq!(sent[0].fields[136].constant, 0x80);
    let recv = chip.receives();
    assert_eq!(recv[0].fields.len(), 32);
    assert_eq!(recv[0].argument_index, 3);
}

#[test]
fn test_merkle_eval_on_generated_trace() {
    const HEIGHT: usize = 3;
    let digests = generate_digests(leaves(1 << HEIGHT, 5));
    let leaf_index = 6;
    let op = MerkleRootOp {
        leaf_index,
        leaf_hash: digests[0][leaf_index].to_vec(),
        siblings: (0..HEIGHT).map(|i| digests[i][(leaf_index >> i) ^ 1].to_vec()).collect(),
    };
    let ops = vec![op.clone(), op];
    let t = MerkleRootChip::<HEIGHT, 32>::generate_trace(ops);
    let chip = MerkleRootChip::<HEIGHT, 32> { bus_hasher_input: 2, bus_hasher_output: 3 };
    let w = t.width;
    let h = t.values.len() / w;
    assert_eq!(h, 8);
    for r in 0..h - 1 {
        let local = t.values[r * w..(r + 1) * w].to_vec();
        let next = t.values[(r + 1) * w..(r + 2) * w].to_vec();
        assert!(chip.eval(&local, &next, r == 0));
    }
    let mut local = t.values[0..w].to_vec();
    let next = t.values[w..2 * w].to_vec();
    local[3 + HEIGHT + 4 * 32] ^= 1;
    assert!(!chip.eval(&local, &next, true));
}
