use collision_miner::block::Block;
use crypto::digest::Digest;
use collision_miner::template::{clock_stamp, make_block_at, TemplateError, GRACE_NANOS};

fn digest(last: u8) -> collision_miner::hash::Hash {
    let mut v = vec![0u8; 32];
    v[31] = last;
    collision_miner::hash::Hash(v)
}

fn sample_block(difficulty: u64) -> Block {
    Block {
        version: 1,
        root: digest(2),
        parentid: digest(1),
        difficulty,
        timestamp: 0,
        nonces: [0, 0, 0],
    }
}

fn sha256_hex(data: &[u8]) -> String {
    let mut d = crypto::sha2::Sha256::new();
    d.input(data);
    d.result_str()
}

#[test]
fn canonical_hash_vector() {
    let b = sample_block(16);
    assert_eq!(
        b.hash_with_nonce(0).to_hex(),
        "bd1005df801ae844417829f9192387453b42da5a2f86536d93463538cf8ba1b6"
    );
}

#[test]
fn hash_uses_indexed_nonce() {
    let mut b = sample_block(16);
    b.nonces = [7, 0, 9];
    assert_eq!(b.hash(1).to_hex(), b.hash_with_nonce(0).to_hex());
    assert_eq!(b.hash(0).to_hex(), b.hash_with_nonce(7).to_hex());
    assert_eq!(b.hash(2).to_hex(), b.hash_with_nonce(9).to_hex());
}

#[test]
fn hashing_is_deterministic() {
    let b = sample_block(16);
    let c = sample_block(16);
    assert_eq!(b.hash_with_nonce(42).to_hex(), c.hash_with_nonce(42).to_hex());
    assert_eq!(b.image_of(42), c.image_of(42));
    assert_ne!(b.hash_with_nonce(42).to_hex(), b.hash_with_nonce(43).to_hex());
}

#[test]
fn explorer_hash_layout() {
    let mut b = sample_block(16);
    b.nonces = [1, 2, 3];
    let mut bytes = Vec::new();
    bytes.extend_from_slice(&b.parentid.0);
    bytes.extend_from_slice(&b.root.0);
    for x in [16u64, 0, 1, 2, 3] {
        bytes.extend_from_slice(&x.to_be_bytes());
    }
    bytes.push(1);
    assert_eq!(b.hash_for_explorer().to_hex(), sha256_hex(&bytes));
}

#[test]
fn nonce_reuse_is_rejected() {
    let mut b = sample_block(0);
    b.nonces = [5, 5, 6];
    assert!(!b.has_valid_proof_of_work());
    b.nonces = [5, 6, 6];
    assert!(!b.has_valid_proof_of_work());
    b.nonces = [6, 5, 6];
    assert!(!b.has_valid_proof_of_work());
}

#[test]
fn difficulty_zero_accepts_distinct_nonces() {
    let mut b = sample_block(0);
    b.nonces = [1, 2, 3];
    assert!(b.has_valid_proof_of_work());
    b.nonces = [u64::MAX, 0, 77];
    assert!(b.has_valid_proof_of_work());
}

#[test]
fn difficulty_64_needs_full_match() {
    let mut b = sample_block(64);
    b.nonces = [1, 2, 3];
    assert!(!b.has_valid_proof_of_work());
    assert_eq!(b.image_of(1), b.hash_with_nonce(1).to_u64(64));
}

#[test]
fn found_collision_is_valid_and_agrees() {
    let mut b = sample_block(4);
    let mut by_image: Vec<Vec<u64>> = vec![Vec::new(); 16];
    let mut found = None;
    for n in 0..1000u64 {
        let img = b.image_of(n) as usize;
        by_image[img].push(n);
        if by_image[img].len() == 3 {
            found = Some([by_image[img][0], by_image[img][1], by_image[img][2]]);
            break;
        }
    }
    b.nonces = found.unwrap();
    assert!(b.has_valid_proof_of_work());
    let h0 = b.hash(0).to_u64(4);
    assert_eq!(h0, b.hash(1).to_u64(4));
    assert_eq!(h0, b.hash(2).to_u64(4));
    b.nonces[2] = b.nonces[0] + 1000;
    assert_eq!(b.has_valid_proof_of_work(), b.image_of(b.nonces[2]) == h0);
}

#[test]
fn working_block_from_template() {
    let mut next = sample_block(12);
    next.nonces = [4, 5, 6];
    let b = make_block_at(&next, "abc", 99);
    assert_eq!(
        b.root.to_hex(),
        "ba7816bf8f01cfea414140de5dae2223b00361a396177a9cb410ff61f20015ad"
    );
    assert_eq!(b.parentid.to_hex(), next.hash_for_explorer().to_hex());
    assert_eq!(b.difficulty, 12);
    assert_eq!(b.version, 1);
    assert_eq!(b.timestamp, 99);
    assert_eq!(b.nonces, [0, 0, 0]);
}

#[test]
fn stamped_block_is_recent() {
    let next = sample_block(12);
    let before = std::time::SystemTime::now()
        .duration_since(std::time::UNIX_EPOCH)
        .unwrap()
        .as_nanos() as u64;
    let b = Block::make_block(&next, "abc");
    let after = std::time::SystemTime::now()
        .duration_since(std::time::UNIX_EPOCH)
        .unwrap()
        .as_nanos() as u64;
    assert!(b.timestamp >= before + GRACE_NANOS - 1_000_000_000);
    assert!(b.timestamp <= after + GRACE_NANOS + 1_000_000_000);
    assert_eq!(b.nonces, [0, 0, 0]);
}

#[test]
fn clock_stamp_in_nanoseconds() {
    assert_eq!(clock_stamp(2, 5), 2_000_000_005);
    assert_eq!(clock_stamp(0, 0), 0);
}

const ROOT_HEX: &str = "ba7816bf8f01cfea414140de5dae2223b00361a396177a9cb410ff61f20015ad";
const PARENT_HEX: &str = "0000000000000000000000000000000000000000000000000000000000000001";

#[test]
fn fields_make_a_header() {
    let b = Block::from_fields(257, ROOT_HEX, PARENT_HEX, 20, 7, &vec![1, 2, 3, 4]).unwrap();
    assert_eq!(b.version, 1);
    assert_eq!(b.root.to_hex(), ROOT_HEX);
    assert_eq!(b.parentid.0[31], 1);
    assert_eq!(b.difficulty, 20);
    assert_eq!(b.timestamp, 7);
    assert_eq!(b.nonces, [1, 2, 3]);
}

#[test]
fn fields_accept_spaces_and_upper_case() {
    let spaced = "BA7816BF 8F01CFEA 414140DE 5DAE2223\nB00361A3 96177A9C B410FF61 F20015AD";
    let b = Block::from_fields(1, spaced, PARENT_HEX, 20, 7, &vec![1, 2, 3]).unwrap();
    assert_eq!(b.root.to_hex(), ROOT_HEX);
}

#[test]
fn fields_errors() {
    let n = vec![1, 2, 3];
    assert_eq!(
        Block::from_fields(1, "zz", PARENT_HEX, 20, 7, &n).unwrap_err(),
        TemplateError::InvalidHex
    );
    assert_eq!(
        Block::from_fields(1, ROOT_HEX, "abc", 20, 7, &n).unwrap_err(),
        TemplateError::InvalidHex
    );
    assert_eq!(
        Block::from_fields(1, "00ff", PARENT_HEX, 20, 7, &n).unwrap_err(),
        TemplateError::WrongHashLength
    );
    assert_eq!(
        Block::from_fields(1, ROOT_HEX, PARENT_HEX, 20, 7, &vec![1, 2]).unwrap_err(),
        TemplateError::TooFewNonces
    );
    assert_eq!(
        Block::from_fields(1, ROOT_HEX, PARENT_HEX, 65, 7, &n).unwrap_err(),
        TemplateError::DifficultyTooHigh
    );
}

fn template_text(difficulty: &str) -> String {
    format!(
        "{{\"version\": 1, \"root\": \"{}\", \"parentid\": \"{}\", \"difficulty\": {}, \"timestamp\": 1234, \"nonces\": [7, 8, 9]}}",
        ROOT_HEX, PARENT_HEX, difficulty
    )
}

#[test]
fn template_from_json() {
    let b = Block::from_json_text(&template_text("20")).unwrap();
    assert_eq!(b.version, 1);
    assert_eq!(b.root.to_hex(), ROOT_HEX);
    assert_eq!(b.difficulty, 20);
    assert_eq!(b.timestamp, 1234);
    assert_eq!(b.nonces, [7, 8, 9]);
    let record = format!("{{\"header\": {}}}", template_text("21"));
    assert_eq!(Block::from_record_text(&record).unwrap().difficulty, 21);
}

#[test]
fn template_json_errors() {
    assert_eq!(Block::from_json_text("{not json").unwrap_err(), TemplateError::NotJson);
    assert_eq!(
        Block::from_json_text(&template_text("\"twenty\"")).unwrap_err(),
        TemplateError::MissingField
    );
    assert_eq!(Block::from_json_text("[1, 2]").unwrap_err(), TemplateError::MissingField);
    assert_eq!(
        Block::from_record_text(&template_text("20")).unwrap_err(),
        TemplateError::MissingField
    );
    assert_eq!(
        Block::from_json_text(&template_text("99")).unwrap_err(),
        TemplateError::DifficultyTooHigh
    );
}

#[test]
fn difficulty_one_density() {
    let mut b = sample_block(1);
    let trials = 4000u64;
    let mut solved = 0u64;
    for i in 0..trials {
        b.nonces = [3 * i, 3 * i + 1, 3 * i + 2];
        if b.has_valid_proof_of_work() {
            solved += 1;
        }
    }
    // Three independent bits agree in two of their eight outcomes.
    assert!(solved * 100 > trials * 20 && solved * 100 < trials * 30, "{} of {}", solved, trials);
}

#[test]
fn header_fields_round_trip() {
    let mut b = make_block_at(&sample_block(18), "payload", 12345);
    b.nonces = [9, 8, 7];
    let again = Block::from_fields(
        b.version as u64,
        &b.root.to_hex(),
        &b.parentid.to_hex(),
        b.difficulty,
        b.timestamp,
        &b.nonces.to_vec(),
    )
    .unwrap();
    assert_eq!(again.root.0, b.root.0);
    assert_eq!(again.parentid.0, b.parentid.0);
    assert_eq!(again.version, b.version);
    assert_eq!(again.difficulty, b.difficulty);
    assert_eq!(again.timestamp, b.timestamp);
    assert_eq!(again.nonces, b.nonces);
    assert_eq!(again.hash_for_explorer().to_hex(), b.hash_for_explorer().to_hex());
}

#[test]
fn deeply_nested_text_is_not_json() {
    let deep = format!("{}{}", "[".repeat(100_000), "]".repeat(100_000));
    assert_eq!(Block::from_json_text(&deep).unwrap_err(), TemplateError::NotJson);
    assert_eq!(Block::from_record_text(&deep).unwrap_err(), TemplateError::NotJson);
    let shallow = format!("{}{}", "[".repeat(10), "]".repeat(10));
    assert_eq!(Block::from_json_text(&shallow).unwrap_err(), TemplateError::MissingField);
}

#[test]
fn template_takes_leading_nonces() {
    let text = format!(
        "{{\"version\": 2, \"root\": \"{}\", \"parentid\": \"{}\", \"difficulty\": 20, \"timestamp\": 5, \"nonces\": [1, 2, 3, \"x\"]}}",
        ROOT_HEX, PARENT_HEX
    );
    assert_eq!(Block::from_json_text(&text).unwrap().nonces, [1, 2, 3]);
    let few = text.replace("[1, 2, 3, \"x\"]", "[1, 2]");
    assert_eq!(Block::from_json_text(&few).unwrap_err(), TemplateError::TooFewNonces);
    let typed = text.replace("[1, 2, 3, \"x\"]", "[1, \"two\", 3]");
    assert_eq!(Block::from_json_text(&typed).unwrap_err(), TemplateError::MissingField);
    let bad_hex = text.replace(ROOT_HEX, "not hex");
    assert_eq!(Block::from_json_text(&bad_hex).unwrap_err(), TemplateError::InvalidHex);
}
