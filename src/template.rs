//! Building a working block from a template the node hands out.

use vstd::prelude::*;
use vstd::string::StringSliceAdditionalSpecFns;

use crate::block::{explorer_bytes, Block};
use crate::hash::{hex_digit, hex_of, sha256_of};
use rustc_serialize::json::Json;

verus! {

/// Nanoseconds in a second.
pub const NANOS_PER_SEC: u64 = 1_000_000_000;

/// Added to the clock when a block is stamped, so that it survives clock skew
/// at the node: five minutes.
pub const GRACE_NANOS: u64 = 300_000_000_000;

/// Why a template could not be read.
#[derive(Debug, Clone, Copy, PartialEq, Eq, Structural)]
pub enum TemplateError {
    /// The text is not JSON.
    NotJson,
    /// A field is absent or has the wrong JSON type.
    MissingField,
    /// `root` or `parentid` is not hexadecimal.
    InvalidHex,
    /// `root` or `parentid` does not decode to 32 bytes.
    WrongHashLength,
    /// Fewer than three nonces.
    TooFewNonces,
    /// The difficulty exceeds 64 bits.
    DifficultyTooHigh,
}

/// Relies on time 0.1's `now().to_timespec()`: the wall clock as seconds
/// since the epoch and nanoseconds within the second. `Timespec::new` asserts
/// that the latter lie in `[0, 10^9)`.
#[verifier::external_body]
fn clock_now() -> (r: (i64, i32))
    ensures
        0 <= r.1 < 1_000_000_000,
{
    let t = time::now().to_timespec();
    (t.sec, t.nsec)
}

/// Nanoseconds since the epoch for a clock reading of `sec` seconds and
/// `nsec` nanoseconds, in wrapping 64-bit arithmetic.
pub open spec fn clock_nanos(sec: i64, nsec: i32) -> u64 {
    (sec as u64).wrapping_mul(NANOS_PER_SEC).wrapping_add(nsec as u64)
}

/// `t` is a clock reading in nanoseconds plus the grace offset.
pub open spec fn stamped(t: u64) -> bool {
    exists|sec: i64, nsec: i32|
        0 <= nsec < 1_000_000_000 && t == (#[trigger] clock_nanos(sec, nsec)).wrapping_add(
            GRACE_NANOS,
        )
}

/// `clock_nanos(sec, nsec)`.
pub fn clock_stamp(sec: i64, nsec: i32) -> (r: u64)
    ensures
        r == clock_nanos(sec, nsec),
{
    (sec as u64).wrapping_mul(NANOS_PER_SEC).wrapping_add(nsec as u64)
}

/// The timestamp of a block built now: the clock in nanoseconds plus the
/// grace offset.
fn stamp_now() -> (r: u64)
    ensures
        stamped(r),
{
    let (sec, nsec) = clock_now();
    let r = clock_stamp(sec, nsec).wrapping_add(GRACE_NANOS);
    assert(0 <= nsec < 1_000_000_000 && r == clock_nanos(sec, nsec).wrapping_add(GRACE_NANOS));
    r
}

/// The working block for `contents` on top of `next`, stamped `timestamp`:
/// the root is the digest of the contents, the parent is `next`'s explorer
/// digest, and the nonces are zero.
pub fn make_block_at(next: &Block, contents: &str, timestamp: u64) -> (r: Block)
    requires
        next.wf(),
        contents.spec_bytes().len() < 0x2000_0000_0000_0000,
    ensures
        r.wf(),
        r.version == next.version,
        r.root@ == sha256_of(contents.spec_bytes()),
        r.parentid@ == sha256_of(explorer_bytes(*next)),
        r.difficulty == next.difficulty,
        r.timestamp == timestamp,
        r.nonces@ == seq![0u64, 0u64, 0u64],
{
    let root = crate::hash::sha256(contents.as_bytes());
    let r = Block {
        version: next.version,
        root: crate::hash::Hash(root),
        parentid: next.hash_for_explorer(),
        difficulty: next.difficulty,
        timestamp,
        nonces: [0, 0, 0],
    };
    assert(r.nonces@ =~= seq![0u64, 0u64, 0u64]);
    r
}

impl Block {
    /// The working block for `contents` on top of `next`, stamped with the
    /// clock plus the grace offset.
    pub fn make_block(next: &Block, contents: &str) -> (r: Block)
        requires
            next.wf(),
            contents.spec_bytes().len() < 0x2000_0000_0000_0000,
        ensures
            r.wf(),
            r.version == next.version,
            r.root@ == sha256_of(contents.spec_bytes()),
            r.parentid@ == sha256_of(explorer_bytes(*next)),
            r.difficulty == next.difficulty,
            stamped(r.timestamp),
            r.nonces@ == seq![0u64, 0u64, 0u64],
    {
        make_block_at(next, contents, stamp_now())
    }
}

/// The bytes that hexadecimal text may hold between digits.
pub open spec fn is_hex_space(c: u8) -> bool {
    c == 32 || c == 13 || c == 10 || c == 9
}

/// The value of one hexadecimal digit, of either case.
pub open spec fn hex_value(c: u8) -> Option<u8> {
    if 48 <= c <= 57 {
        Some((c - 48) as u8)
    } else if 97 <= c <= 102 {
        Some((c - 87) as u8)
    } else if 65 <= c <= 70 {
        Some((c - 55) as u8)
    } else {
        None
    }
}

/// The bytes that hexadecimal text spells, spaces aside; `None` for a
/// character that is neither a digit nor a space, or an odd number of digits.
pub open spec fn hex_decoded(s: Seq<u8>) -> Option<Seq<u8>> {
    let t = s.filter(|c: u8| !is_hex_space(c));
    if exists|i: int| 0 <= i < t.len() && hex_value(#[trigger] t[i]) is None {
        None
    } else if t.len() % 2 == 1 {
        None
    } else {
        Some(
            Seq::new(
                t.len() / 2,
                |i: int| (hex_value(t[2 * i])->0 * 16 + hex_value(t[2 * i + 1])->0) as u8,
            ),
        )
    }
}

/// Relies on rustc_serialize's `FromHex for str`: it skips spaces, tabs and
/// line breaks, fails on any other non-digit and on an odd digit count, and
/// otherwise packs digit pairs, high half first.
#[verifier::external_body]
fn decode_hex(s: &str) -> (r: Option<Vec<u8>>)
    ensures
        match r {
            Some(v) => hex_decoded(s.spec_bytes()) == Some(v@),
            None => hex_decoded(s.spec_bytes()) is None,
        },
{
    rustc_serialize::hex::FromHex::from_hex(s).ok()
}

/// The bytes of the hexadecimal text of `b`.
pub open spec fn hex_bytes(b: Seq<u8>) -> Seq<u8> {
    Seq::new(2 * b.len(), |i: int| hex_of(b)[i] as u8)
}

/// A sequence none of whose bytes is a space is its own filtrate.
proof fn lemma_filter_keeps_digits(t: Seq<u8>)
    requires
        forall|i: int| 0 <= i < t.len() ==> !is_hex_space(#[trigger] t[i]),
    ensures
        t.filter(|c: u8| !is_hex_space(c)) == t,
    decreases t.len(),
{
    reveal(Seq::filter);
    if t.len() > 0 {
        let p = t.drop_last();
        assert forall|i: int| 0 <= i < p.len() implies !is_hex_space(#[trigger] p[i]) by {
            assert(p[i] == t[i]);
        }
        lemma_filter_keeps_digits(p);
        assert(!is_hex_space(t[t.len() - 1]));
        assert(p.push(t.last()) =~= t);
    }
}

/// Each lower-case digit reads back as its value.
proof fn lemma_hex_digit_value(n: int)
    requires
        0 <= n < 16,
    ensures
        hex_value(hex_digit(n) as u8) == Some(n as u8),
        !is_hex_space(hex_digit(n) as u8),
{
    assert(hex_digit(n) == seq!['0', '1', '2', '3', '4', '5', '6', '7', '8', '9', 'a', 'b', 'c', 'd', 'e', 'f'][n]);
    if n == 0 {} else if n == 1 {} else if n == 2 {} else if n == 3 {} else if n == 4 {} else if n == 5 {}
    else if n == 6 {} else if n == 7 {} else if n == 8 {} else if n == 9 {} else if n == 10 {}
    else if n == 11 {} else if n == 12 {} else if n == 13 {} else if n == 14 {} else {}
}

/// Hexadecimal text decodes back to the bytes it spells: the digests that
/// `Hash::to_hex` writes are the digests `from_fields` reads.
pub proof fn lemma_hex_round_trip(b: Seq<u8>)
    ensures
        hex_decoded(hex_bytes(b)) == Some(b),
{
    let t = hex_bytes(b);
    assert forall|i: int| 0 <= i < t.len() implies !is_hex_space(#[trigger] t[i]) && hex_value(t[i]) is Some
        && hex_value(t[i])->0 == (if i % 2 == 0 { b[i / 2] / 16 } else { b[i / 2] % 16 }) by {
        let n: int = if i % 2 == 0 { b[i / 2] as int / 16 } else { b[i / 2] as int % 16 };
        lemma_hex_digit_value(n);
    }
    lemma_filter_keeps_digits(t);
    assert(t.filter(|c: u8| !is_hex_space(c)) == t);
    assert forall|i: int| 0 <= i < b.len() implies (hex_value(t[2 * i])->0 * 16 + hex_value(
        t[2 * i + 1],
    )->0) as u8 == b[i] by {
        assert(hex_value(t[2 * i])->0 == b[i] / 16);
        assert(hex_value(t[2 * i + 1])->0 == b[i] % 16);
    }
    assert(Seq::new(t.len() / 2, |i: int| (hex_value(t[2 * i])->0 * 16 + hex_value(t[2 * i + 1])->0) as u8) =~= b);
}

/// A string holding the hexadecimal text of `b` decodes to `b`.
pub proof fn lemma_hex_text_round_trip(s: &str, b: Seq<u8>)
    requires
        s@ == hex_of(b),
    ensures
        hex_decoded(s.spec_bytes()) == Some(b),
{
    broadcast use vstd::string::is_ascii_spec_bytes;

    assert forall|i: int| 0 <= i < s@.len() implies '\0' <= #[trigger] s@[i] <= '\u{7f}' by {
        let n: int = if i % 2 == 0 { b[i / 2] as int / 16 } else { b[i / 2] as int % 16 };
        assert(hex_digit(n) == seq!['0', '1', '2', '3', '4', '5', '6', '7', '8', '9', 'a', 'b', 'c', 'd', 'e', 'f'][n]);
    }
    assert(vstd::string::is_ascii(s));
    assert(s.spec_bytes() =~= hex_bytes(b));
    lemma_hex_round_trip(b);
}

/// What is wrong with a template's fields, checked in this order: the
/// digests' hexadecimal, their lengths, the nonce count, the difficulty.
pub open spec fn template_problem(root: Seq<u8>, parentid: Seq<u8>, difficulty: u64, nonce_count: nat) -> Option<TemplateError> {
    if hex_decoded(root) is None || hex_decoded(parentid) is None {
        Some(TemplateError::InvalidHex)
    } else if hex_decoded(root)->0.len() != 32 || hex_decoded(parentid)->0.len() != 32 {
        Some(TemplateError::WrongHashLength)
    } else if nonce_count < 3 {
        Some(TemplateError::TooFewNonces)
    } else if difficulty > 64 {
        Some(TemplateError::DifficultyTooHigh)
    } else {
        None
    }
}

/// Decoding an encoded header gives it back: for a well-formed block, its
/// digests written in hexadecimal with three nonces pass every check of
/// `from_fields` and decode to the same digests.
pub proof fn lemma_header_round_trip(b: Block, root: &str, parentid: &str)
    requires
        b.wf(),
        root@ == hex_of(b.root@),
        parentid@ == hex_of(b.parentid@),
    ensures
        template_problem(root.spec_bytes(), parentid.spec_bytes(), b.difficulty, 3) is None,
        hex_decoded(root.spec_bytes()) == Some(b.root@),
        hex_decoded(parentid.spec_bytes()) == Some(b.parentid@),
{
    lemma_hex_text_round_trip(root, b.root@);
    lemma_hex_text_round_trip(parentid, b.parentid@);
}

impl Block {
    /// The header that a template's fields describe: digests in hexadecimal,
    /// the version cut to its low byte, the first three nonces.
    pub fn from_fields(
        version: u64,
        root: &str,
        parentid: &str,
        difficulty: u64,
        timestamp: u64,
        nonces: &Vec<u64>,
    ) -> (r: Result<Block, TemplateError>)
        ensures
            r is Ok <==> template_problem(root.spec_bytes(), parentid.spec_bytes(), difficulty, nonces@.len()) is None,
            match r {
                Ok(b) => {
                    &&& b.wf()
                    &&& b.version == version as u8
                    &&& hex_decoded(root.spec_bytes()) == Some(b.root@)
                    &&& hex_decoded(parentid.spec_bytes()) == Some(b.parentid@)
                    &&& b.difficulty == difficulty
                    &&& b.timestamp == timestamp
                    &&& b.nonces@ == nonces@.subrange(0, 3)
                },
                Err(e) => template_problem(root.spec_bytes(), parentid.spec_bytes(), difficulty, nonces@.len()) == Some(e),
            },
    {
        let root_bytes = match decode_hex(root) {
            Some(v) => v,
            None => return Err(TemplateError::InvalidHex),
        };
        let parent_bytes = match decode_hex(parentid) {
            Some(v) => v,
            None => return Err(TemplateError::InvalidHex),
        };
        if root_bytes.len() != 32 || parent_bytes.len() != 32 {
            return Err(TemplateError::WrongHashLength);
        }
        if nonces.len() < 3 {
            return Err(TemplateError::TooFewNonces);
        }
        if difficulty > 64 {
            return Err(TemplateError::DifficultyTooHigh);
        }
        let b = Block {
            version: version as u8,
            root: crate::hash::Hash(root_bytes),
            parentid: crate::hash::Hash(parent_bytes),
            difficulty,
            timestamp,
            nonces: [nonces[0], nonces[1], nonces[2]],
        };
        assert(b.nonces@ =~= nonces@.subrange(0, 3));
        Ok(b)
    }
}

#[verifier::external_type_specification]
#[verifier::external_body]
pub struct ExJson(Json);

/// The JSON value that a text holds, if it is JSON.
pub uninterp spec fn json_parsed(text: Seq<char>) -> Option<Json>;

/// The member `key` of an object; `None` for a missing member or a value
/// that is not an object.
pub uninterp spec fn json_member(j: Json, key: Seq<char>) -> Option<Json>;

/// The value as an unsigned integer, if it is one.
pub uninterp spec fn json_u64_of(j: Json) -> Option<u64>;

/// The UTF-8 bytes of a string value, if it is one.
pub uninterp spec fn json_string_of(j: Json) -> Option<Seq<u8>>;

/// The elements of an array value, if it is one.
pub uninterp spec fn json_array_of(j: Json) -> Option<Seq<Json>>;

/// The most `[` and `{` bytes a text may hold to be parsed: the parser
/// recurses once per nesting level, so the nesting is kept shallow.
pub const MAX_JSON_OPENERS: usize = 64;

/// How many `[` and `{` bytes `b` holds; no nesting can be deeper.
pub open spec fn opener_count(b: Seq<u8>) -> nat
    decreases b.len(),
{
    if b.len() == 0 {
        0
    } else {
        opener_count(b.drop_last()) + if b.last() == 91 || b.last() == 123 {
            1nat
        } else {
            0nat
        }
    }
}

/// `opener_count` of the text's bytes.
fn count_openers(text: &str) -> (r: usize)
    ensures
        r == opener_count(text.spec_bytes()),
{
    let b = text.as_bytes();
    let mut count: usize = 0;
    let mut i: usize = 0;
    assert(b@.subrange(0, 0) =~= Seq::<u8>::empty());
    while i < b.len()
        invariant
            b@ == text.spec_bytes(),
            i <= b@.len(),
            count <= i,
            count == opener_count(b@.subrange(0, i as int)),
        decreases b@.len() - i,
    {
        assert(b@.subrange(0, i + 1).drop_last() =~= b@.subrange(0, i as int));
        if b[i] == 91 || b[i] == 123 {
            count = count + 1;
        }
        i = i + 1;
    }
    assert(b@.subrange(0, b@.len() as int) =~= b@);
    count
}

/// Relies on rustc_serialize's `Json::from_str`: the JSON value that `text`
/// holds, a function of the text alone. Its builder recurses once per
/// nesting level, so `requires` bounds the nesting.
#[verifier::external_body]
fn parse_json(text: &str) -> (r: Option<Json>)
    requires
        opener_count(text.spec_bytes()) <= MAX_JSON_OPENERS,
    ensures
        r == json_parsed(text@),
{
    Json::from_str(text).ok()
}

/// Relies on `Json::find`: the member `key` of an object; `None` for a
/// missing member or a value that is not an object.
#[verifier::external_body]
fn json_find<'a>(j: &'a Json, key: &str) -> (r: Option<&'a Json>)
    ensures
        match r {
            Some(v) => json_member(*j, key@) == Some(*v),
            None => json_member(*j, key@) is None,
        },
{
    j.find(key)
}

/// Relies on `Json::as_u64`: the value as an unsigned integer, if it is one.
#[verifier::external_body]
fn json_as_u64(j: &Json) -> (r: Option<u64>)
    ensures
        r == json_u64_of(*j),
{
    j.as_u64()
}

/// Relies on `Json::as_string`: the value as a string, if it is one.
#[verifier::external_body]
fn json_as_string<'a>(j: &'a Json) -> (r: Option<&'a str>)
    ensures
        match r {
            Some(s) => json_string_of(*j) == Some(s.spec_bytes()),
            None => json_string_of(*j) is None,
        },
{
    j.as_string()
}

/// Relies on `Json::as_array`: the elements of an array value.
#[verifier::external_body]
fn json_as_array<'a>(j: &'a Json) -> (r: Option<&'a Vec<Json>>)
    ensures
        match r {
            Some(v) => json_array_of(*j) == Some(v@),
            None => json_array_of(*j) is None,
        },
{
    j.as_array()
}

/// The unsigned integer member `key` of an object.
pub open spec fn member_u64(j: Json, key: Seq<char>) -> Option<u64> {
    match json_member(j, key) {
        Some(v) => json_u64_of(v),
        None => None,
    }
}

/// The bytes of the string member `key` of an object.
pub open spec fn member_bytes(j: Json, key: Seq<char>) -> Option<Seq<u8>> {
    match json_member(j, key) {
        Some(v) => json_string_of(v),
        None => None,
    }
}

/// The first three elements of an array (all of them, if fewer), which must
/// be unsigned integers.
pub open spec fn leading_u64s(a: Seq<Json>) -> Option<Seq<u64>> {
    let n = if a.len() < 3 {
        a.len()
    } else {
        3
    };
    if forall|i: int| 0 <= i < n ==> (#[trigger] json_u64_of(a[i])) is Some {
        Some(Seq::new(n, |i: int| json_u64_of(a[i])->0))
    } else {
        None
    }
}

/// The leading nonces of the array member `key` of an object.
pub open spec fn member_nonces(j: Json, key: Seq<char>) -> Option<Seq<u64>> {
    match json_member(j, key) {
        Some(v) => match json_array_of(v) {
            Some(a) => leading_u64s(a),
            None => None,
        },
        None => None,
    }
}

/// `r` is what a template object `j` gives: `MissingField` when a member is
/// absent or of the wrong JSON type; otherwise the outcome of `from_fields`
/// on the members.
pub open spec fn template_result(j: Json, r: Result<Block, TemplateError>) -> bool {
    let version = member_u64(j, "version"@);
    let root = member_bytes(j, "root"@);
    let parentid = member_bytes(j, "parentid"@);
    let difficulty = member_u64(j, "difficulty"@);
    let timestamp = member_u64(j, "timestamp"@);
    let nonces = member_nonces(j, "nonces"@);
    if version is None || root is None || parentid is None || difficulty is None || timestamp is None
        || nonces is None {
        r == Err::<Block, TemplateError>(TemplateError::MissingField)
    } else {
        let problem = template_problem(root->0, parentid->0, difficulty->0, nonces->0.len());
        match r {
            Ok(b) => {
                &&& problem is None
                &&& b.wf()
                &&& b.version == version->0 as u8
                &&& hex_decoded(root->0) == Some(b.root@)
                &&& hex_decoded(parentid->0) == Some(b.parentid@)
                &&& b.difficulty == difficulty->0
                &&& b.timestamp == timestamp->0
                &&& b.nonces@ == nonces->0.subrange(0, 3)
            },
            Err(e) => problem == Some(e),
        }
    }
}

/// The unsigned integer member `key` of an object.
fn field_u64(j: &Json, key: &str) -> (r: Result<u64, TemplateError>)
    ensures
        match r {
            Ok(n) => member_u64(*j, key@) == Some(n),
            Err(e) => e == TemplateError::MissingField && member_u64(*j, key@) is None,
        },
{
    match json_find(j, key) {
        Some(v) => match json_as_u64(v) {
            Some(n) => Ok(n),
            None => Err(TemplateError::MissingField),
        },
        None => Err(TemplateError::MissingField),
    }
}

/// The string member `key` of an object.
fn field_str<'a>(j: &'a Json, key: &str) -> (r: Result<&'a str, TemplateError>)
    ensures
        match r {
            Ok(s) => member_bytes(*j, key@) == Some(s.spec_bytes()),
            Err(e) => e == TemplateError::MissingField && member_bytes(*j, key@) is None,
        },
{
    match json_find(j, key) {
        Some(v) => match json_as_string(v) {
            Some(t) => Ok(t),
            None => Err(TemplateError::MissingField),
        },
        None => Err(TemplateError::MissingField),
    }
}

/// The leading nonces of the array member `key`.
fn field_nonces(j: &Json, key: &str) -> (r: Result<Vec<u64>, TemplateError>)
    ensures
        match r {
            Ok(v) => member_nonces(*j, key@) == Some(v@),
            Err(e) => e == TemplateError::MissingField && member_nonces(*j, key@) is None,
        },
{
    let arr = match json_find(j, key) {
        Some(v) => match json_as_array(v) {
            Some(a) => a,
            None => return Err(TemplateError::MissingField),
        },
        None => return Err(TemplateError::MissingField),
    };
    assert(member_nonces(*j, key@) == leading_u64s(arr@));
    let ghost n: int = if arr@.len() < 3 {
        arr@.len() as int
    } else {
        3
    };
    let mut out: Vec<u64> = Vec::new();
    let mut i: usize = 0;
    while i < arr.len() && i < 3
        invariant
            i <= n,
            n == if arr@.len() < 3 {
                arr@.len() as int
            } else {
                3
            },
            out@.len() == i,
            member_nonces(*j, key@) == leading_u64s(arr@),
            forall|k: int| 0 <= k < i ==> (#[trigger] json_u64_of(arr@[k])) is Some,
            forall|k: int| 0 <= k < i ==> #[trigger] out@[k] == json_u64_of(arr@[k])->0,
        decreases 3 - i,
    {
        match json_as_u64(&arr[i]) {
            Some(v) => out.push(v),
            None => {
                assert(json_u64_of(arr@[i as int]) is None);
                assert(!(forall|k: int| 0 <= k < n ==> (#[trigger] json_u64_of(arr@[k])) is Some));
                return Err(TemplateError::MissingField);
            },
        }
        i = i + 1;
    }
    assert(out@ =~= Seq::new(n as nat, |k: int| json_u64_of(arr@[k])->0));
    Ok(out)
}

impl Block {
    /// The header held by a template object with members `version`, `root`,
    /// `parentid`, `difficulty`, `timestamp` and `nonces`.
    pub fn new(json: &Json) -> (r: Result<Block, TemplateError>)
        ensures
            template_result(*json, r),
    {
        let version = field_u64(json, "version")?;
        let root = field_str(json, "root")?;
        let parentid = field_str(json, "parentid")?;
        let difficulty = field_u64(json, "difficulty")?;
        let timestamp = field_u64(json, "timestamp")?;
        let nonces = field_nonces(json, "nonces")?;
        Block::from_fields(version, root, parentid, difficulty, timestamp, &nonces)
    }

    /// The header in a template's JSON text. A text that is not JSON, or
    /// nests more than `MAX_JSON_OPENERS` brackets, is `NotJson`.
    pub fn from_json_text(text: &str) -> (r: Result<Block, TemplateError>)
        ensures
            opener_count(text.spec_bytes()) > MAX_JSON_OPENERS ==> r == Err::<Block, TemplateError>(
                TemplateError::NotJson,
            ),
            opener_count(text.spec_bytes()) <= MAX_JSON_OPENERS ==> match json_parsed(text@) {
                None => r == Err::<Block, TemplateError>(TemplateError::NotJson),
                Some(j) => template_result(j, r),
            },
    {
        if count_openers(text) > MAX_JSON_OPENERS {
            return Err(TemplateError::NotJson);
        }
        match parse_json(text) {
            Some(j) => Block::new(&j),
            None => Err(TemplateError::NotJson),
        }
    }

    /// The header in the JSON text of a block record, under its member
    /// `header`.
    pub fn from_record_text(text: &str) -> (r: Result<Block, TemplateError>)
        ensures
            opener_count(text.spec_bytes()) > MAX_JSON_OPENERS ==> r == Err::<Block, TemplateError>(
                TemplateError::NotJson,
            ),
            opener_count(text.spec_bytes()) <= MAX_JSON_OPENERS ==> match json_parsed(text@) {
                None => r == Err::<Block, TemplateError>(TemplateError::NotJson),
                Some(j) => match json_member(j, "header"@) {
                    None => r == Err::<Block, TemplateError>(TemplateError::MissingField),
                    Some(h) => template_result(h, r),
                },
            },
    {
        if count_openers(text) > MAX_JSON_OPENERS {
            return Err(TemplateError::NotJson);
        }
        match parse_json(text) {
            Some(j) => match json_find(&j, "header") {
                Some(h) => Block::new(h),
                None => Err(TemplateError::MissingField),
            },
            None => Err(TemplateError::NotJson),
        }
    }
}

} // verus!
