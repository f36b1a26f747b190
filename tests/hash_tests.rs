use byteorder::{BigEndian, WriteBytesExt};
use collision_miner::hash::be_expand;

#[test]
fn to_u64() {
    let hash = collision_miner::hash::Hash(vec![1, 2, 3, 4,
                         0, 0, 0, 0,
                         0, 0, 0, 0,
                         0, 0, 0, 0,
                         0, 0, 0, 0,
                         0, 0, 0, 0,
                         0, 0, 0, 0,
                         0, 0, 0, 0]);
    assert_eq!(hash.to_u64(20), 0);

    let hash = collision_miner::hash::Hash(vec![0, 1, 5, 0,
                         0, 0, 9, 0,
                         0, 0, 0, 0,
                         0, 0, 0, 0,
                         0, 0, 0, 0,
                         0, 0, 0, 0,
                         0, 0, 0, 4,
                         0, 0, 2, 1]);
    assert_eq!(hash.to_u64(32), 513);
}

#[test]
fn big_endian_expand() {
    let a = be_expand(0);
    assert_eq!(a, vec![0, 0, 0, 0, 0, 0, 0, 0]);

    let a = be_expand(513);
    assert_eq!(a, vec![0, 0, 0, 0, 0, 0, 2, 1]);
}

fn tail_hash(tail: [u8; 8]) -> collision_miner::hash::Hash {
    let mut v = vec![0xffu8; 24];
    v.extend_from_slice(&tail);
    collision_miner::hash::Hash(v)
}

#[test]
fn truncation_masks_low_bits() {
    let tail = [0x12, 0x34, 0x56, 0x78, 0x9a, 0xbc, 0xde, 0xf0];
    let full = u64::from_be_bytes(tail);
    for d in 0..64u64 {
        assert_eq!(tail_hash(tail).to_u64(d), full & ((1u64 << d) - 1));
    }
    assert_eq!(tail_hash(tail).to_u64(64), full);
    assert_eq!(tail_hash(tail).to_u64(0), 0);
    assert_eq!(tail_hash(tail).to_u64(4), 0x0);
    assert_eq!(tail_hash(tail).to_u64(8), 0xf0);
    assert_eq!(tail_hash(tail).to_u64(12), 0xef0);
}

#[test]
fn truncation_ignores_leading_bytes() {
    let mut v = vec![0u8; 32];
    v[23] = 0xff;
    v[31] = 1;
    assert_eq!(collision_miner::hash::Hash(v).to_u64(64), 1);
}

#[test]
fn expand_matches_byteorder() {
    for x in [0u64, 1, 255, 256, 513, 0x0102_0304_0506_0708, u64::MAX] {
        let mut expected = Vec::new();
        expected.write_u64::<BigEndian>(x).unwrap();
        assert_eq!(be_expand(x), expected);
    }
}

#[test]
fn hex_is_lower_case_pairs() {
    let mut v = vec![0u8; 32];
    v[0] = 0xab;
    v[1] = 0x05;
    v[31] = 0xf0;
    let hex = collision_miner::hash::Hash(v).to_hex();
    assert_eq!(hex.len(), 64);
    assert!(hex.starts_with("ab05"));
    assert!(hex.ends_with("f0"));
}
