//! Cryptographic primitives for the commit-reveal scheme: a hash
//! commitment over dice bytes and salt, plus hex encoding of hashes.
//!
//! The hash itself is computed by an outside crate; its digest is given
//! the name `sha256_of`, and every contract here is stated over that name.

use vstd::prelude::*;
use vstd::string::StrSliceExecFns;
use vstd::string::StringSliceAdditionalSpecFns;

verus! {

/// The digest that the outside hash function returns for a byte sequence.
/// It depends on the input bytes alone.
pub uninterp spec fn sha256_of(bytes: Seq<u8>) -> Seq<u8>;

/// Relies on sha2::Sha256 (through sha2::Digest::digest): the 32-byte
/// digest depends on the input bytes alone.
#[verifier::external_body]
pub(crate) fn sha256_digest(bytes: &[u8]) -> (r: [u8; 32])
    ensures
        r@ == sha256_of(bytes@),
{
    let out = <sha2::Sha256 as sha2::Digest>::digest(bytes);
    out.into()
}

/// A commitment hash fits a secret exactly when it is the digest of the
/// secret bytes followed by the salt.
pub open spec fn commitment_matches(dice_bytes: Seq<u8>, salt: Seq<u8>, hash: Seq<u8>) -> bool {
    hash == sha256_of(dice_bytes + salt)
}

/// Create a commitment hash for dice values:
/// commitment = digest(dice_bytes || salt).
pub fn create_commitment(dice_bytes: &[u8], salt: &[u8; 32]) -> (r: [u8; 32])
    ensures
        commitment_matches(dice_bytes@, salt@, r@),
{
    let mut buf: Vec<u8> = Vec::new();
    let mut i: usize = 0;
    while i < dice_bytes.len()
        invariant
            0 <= i <= dice_bytes@.len(),
            buf@ =~= dice_bytes@.subrange(0, i as int),
        decreases dice_bytes@.len() - i,
    {
        buf.push(dice_bytes[i]);
        i = i + 1;
    }
    let mut j: usize = 0;
    while j < 32
        invariant
            0 <= j <= 32,
            buf@ =~= dice_bytes@ + salt@.subrange(0, j as int),
        decreases 32 - j,
    {
        buf.push(salt[j]);
        j = j + 1;
    }
    proof {
        assert(buf@ =~= dice_bytes@ + salt@);
    }
    sha256_digest(buf.as_slice())
}

/// Verify that a reveal matches a commitment.  Returns true exactly when
/// the commitment is the digest of these dice bytes and this salt.
pub fn verify_commitment(dice_bytes: &[u8], salt: &[u8; 32], commitment: &[u8; 32]) -> (r: bool)
    ensures
        r == commitment_matches(dice_bytes@, salt@, commitment@),
{
    let computed = create_commitment(dice_bytes, salt);
    let mut i: usize = 0;
    while i < 32
        invariant
            0 <= i <= 32,
            commitment_matches(dice_bytes@, salt@, computed@),
            forall|k: int| 0 <= k < i ==> computed@[k] == commitment@[k],
        decreases 32 - i,
    {
        if computed[i] != commitment[i] {
            assert(computed@ != commitment@);
            return false;
        }
        i = i + 1;
    }
    proof {
        assert(computed@ =~= commitment@);
    }
    true
}

/// The little-endian bytes of a 64-bit number.
pub open spec fn u64_le_bytes(x: u64) -> Seq<u8> {
    seq![
        (x % 256) as u8,
        ((x >> 8) % 256) as u8,
        ((x >> 16) % 256) as u8,
        ((x >> 24) % 256) as u8,
        ((x >> 32) % 256) as u8,
        ((x >> 40) % 256) as u8,
        ((x >> 48) % 256) as u8,
        ((x >> 56) % 256) as u8,
    ]
}

/// The little-endian bytes of a 32-bit number.
pub open spec fn u32_le_bytes(x: u32) -> Seq<u8> {
    seq![(x % 256) as u8, ((x >> 8) % 256) as u8, ((x >> 16) % 256) as u8, ((x >> 24) % 256) as u8]
}

/// Generate a deterministic salt from chain data:
/// salt = digest(block_hash || timestamp || player_chain_id || round_number),
/// with the numbers in little-endian bytes.
pub fn generate_salt(
    block_hash: &str,
    timestamp: u64,
    player_chain_id: &str,
    round_number: u32,
) -> (r: [u8; 32])
    ensures
        r@ == sha256_of(
            block_hash.spec_bytes() + u64_le_bytes(timestamp) + player_chain_id.spec_bytes()
                + u32_le_bytes(round_number),
        ),
{
    let mut buf = block_hash.as_bytes_vec();
    buf.push((timestamp % 256) as u8);
    buf.push(((timestamp >> 8) % 256) as u8);
    buf.push(((timestamp >> 16) % 256) as u8);
    buf.push(((timestamp >> 24) % 256) as u8);
    buf.push(((timestamp >> 32) % 256) as u8);
    buf.push(((timestamp >> 40) % 256) as u8);
    buf.push(((timestamp >> 48) % 256) as u8);
    buf.push(((timestamp >> 56) % 256) as u8);
    proof {
        assert(buf@ =~= block_hash.spec_bytes() + u64_le_bytes(timestamp));
    }
    let mut chain = player_chain_id.as_bytes_vec();
    let mut i: usize = 0;
    while i < chain.len()
        invariant
            0 <= i <= chain@.len(),
            chain@ == player_chain_id.spec_bytes(),
            buf@ =~= block_hash.spec_bytes() + u64_le_bytes(timestamp) + chain@.subrange(
                0,
                i as int,
            ),
        decreases chain@.len() - i,
    {
        buf.push(chain[i]);
        i = i + 1;
    }
    proof {
        assert(buf@ =~= block_hash.spec_bytes() + u64_le_bytes(timestamp)
            + player_chain_id.spec_bytes());
    }
    buf.push((round_number % 256) as u8);
    buf.push(((round_number >> 8) % 256) as u8);
    buf.push(((round_number >> 16) % 256) as u8);
    buf.push(((round_number >> 24) % 256) as u8);
    proof {
        assert(buf@ =~= block_hash.spec_bytes() + u64_le_bytes(timestamp)
            + player_chain_id.spec_bytes() + u32_le_bytes(round_number));
    }
    sha256_digest(buf.as_slice())
}

/// A genuine reveal always verifies: the hash produced by
/// `create_commitment` on a secret and salt matches that same secret and
/// salt under `verify_commitment`'s acceptance condition.
pub proof fn lemma_commit_then_verify(dice_bytes: Seq<u8>, salt: Seq<u8>)
    ensures
        commitment_matches(dice_bytes, salt, sha256_of(dice_bytes + salt)),
{
}

/// The lower-case hex character for a value below 16.
pub open spec fn hex_digit(n: u8) -> char {
    if n < 10 {
        ((n + 48) as char)
    } else {
        ((n + 87) as char)
    }
}

/// The two hex characters of one byte, high nibble first.
pub open spec fn byte_hex(b: u8) -> Seq<char> {
    seq![hex_digit(b / 16), hex_digit(b % 16)]
}

/// The hex image of a byte sequence.
pub open spec fn hex_of(s: Seq<u8>) -> Seq<char>
    decreases s.len(),
{
    if s.len() == 0 {
        Seq::empty()
    } else {
        hex_of(s.drop_last()) + byte_hex(s.last())
    }
}

/// Is `c` a hex digit (either case)?
pub open spec fn is_hex_digit(c: char) -> bool {
    ('0' <= c && c <= '9') || ('a' <= c && c <= 'f') || ('A' <= c && c <= 'F')
}

/// The numeric value of a hex digit character.
pub open spec fn hex_val(c: char) -> u8 {
    if '0' <= c && c <= '9' {
        ((c as u8) - 48) as u8
    } else if 'a' <= c && c <= 'f' {
        ((c as u8) - 87) as u8
    } else {
        ((c as u8) - 55) as u8
    }
}

/// The byte encoded by a pair of hex digit characters.
pub open spec fn parsed_byte(hi: char, lo: char) -> u8 {
    (hex_val(hi) * 16 + hex_val(lo)) as u8
}

/// Relies on String::push: appends exactly the given character.
#[verifier::external_body]
fn push_char(s: &mut String, c: char)
    ensures
        final(s)@ == old(s)@.push(c),
{
    s.push(c);
}

/// The executable hex digit for a nibble.
fn hex_char(n: u8) -> (c: char)
    requires
        n < 16,
    ensures
        c == hex_digit(n),
{
    if n < 10 {
        (n + 48) as char
    } else {
        (n + 87) as char
    }
}

/// Convert a 32-byte hash to its lower-case hex string.
pub fn hash_to_hex(hash: &[u8; 32]) -> (r: String)
    ensures
        r@ == hex_of(hash@),
{
    let mut r = String::new();
    let mut i: usize = 0;
    while i < 32
        invariant
            0 <= i <= 32,
            r@ =~= hex_of(hash@.subrange(0, i as int)),
        decreases 32 - i,
    {
        let b = hash[i];
        let hi = hex_char(b / 16);
        let lo = hex_char(b % 16);
        push_char(&mut r, hi);
        push_char(&mut r, lo);
        proof {
            let pre = hash@.subrange(0, i as int);
            let cur = hash@.subrange(0, i + 1);
            assert(cur.drop_last() =~= pre);
            assert(cur.last() == hash@[i as int]);
            assert(r@ =~= hex_of(pre) + byte_hex(hash@[i as int]));
        }
        i = i + 1;
    }
    proof {
        assert(hash@.subrange(0, 32) =~= hash@);
    }
    r
}

/// The executable hex-digit test.
fn is_hex_digit_exec(c: char) -> (r: bool)
    ensures
        r == is_hex_digit(c),
{
    ('0' <= c && c <= '9') || ('a' <= c && c <= 'f') || ('A' <= c && c <= 'F')
}

/// Parse a 64-character hex string into a 32-byte array.  Returns `Some`
/// exactly when the string has 64 characters and all are hex digits.
pub fn hex_to_hash(hex: &str) -> (r: Option<[u8; 32]>)
    ensures
        r is Some <==> (hex@.len() == 64 && forall|i: int|
            0 <= i < 64 ==> is_hex_digit(#[trigger] hex@[i])),
        r is Some ==> forall|i: int|
            0 <= i < 32 ==> (#[trigger] r->0@[i]) == parsed_byte(hex@[2 * i], hex@[2 * i + 1]),
    {
    if hex.unicode_len() != 64 {
        return None;
    }
    let mut out = [0u8; 32];
    let mut i: usize = 0;
    while i < 32
        invariant
            0 <= i <= 32,
            hex@.len() == 64,
            forall|k: int| 0 <= k < 2 * i ==> is_hex_digit(#[trigger] hex@[k]),
            forall|k: int|
                0 <= k < i ==> (#[trigger] out@[k]) == parsed_byte(hex@[2 * k], hex@[2 * k + 1]),
        decreases 32 - i,
    {
        let hi = hex.get_char(2 * i);
        let lo = hex.get_char(2 * i + 1);
        if !is_hex_digit_exec(hi) || !is_hex_digit_exec(lo) {
            return None;
        }
        let b = hex_val_exec(hi) * 16 + hex_val_exec(lo);
        out[i] = b;
        i = i + 1;
    }
    Some(out)
}

/// The executable value of a hex digit.
fn hex_val_exec(c: char) -> (r: u8)
    requires
        is_hex_digit(c),
    ensures
        r == hex_val(c),
        r < 16,
{
    if '0' <= c && c <= '9' {
        (c as u8) - 48
    } else if 'a' <= c && c <= 'f' {
        (c as u8) - 87
    } else {
        (c as u8) - 55
    }
}

/// A hex digit below 16 encodes and decodes to itself.
proof fn lemma_hex_digit_roundtrip(n: u8)
    requires
        n < 16,
    ensures
        is_hex_digit(hex_digit(n)),
        hex_val(hex_digit(n)) == n,
{
}

/// Hex encoding round-trips: the hex image of a byte sequence has twice
/// its length, consists of hex digits, and parses back to the same bytes.
pub proof fn lemma_hex_roundtrip(s: Seq<u8>)
    ensures
        hex_of(s).len() == 2 * s.len(),
        forall|i: int| 0 <= i < hex_of(s).len() ==> is_hex_digit(#[trigger] hex_of(s)[i]),
        forall|i: int|
            0 <= i < s.len() ==> parsed_byte(hex_of(s)[2 * i], hex_of(s)[2 * i + 1])
                == #[trigger] s[i],
    decreases s.len(),
{
    if s.len() > 0 {
        lemma_hex_roundtrip(s.drop_last());
        let b = s.last();
        let pre = hex_of(s.drop_last());
        lemma_hex_digit_roundtrip(b / 16);
        lemma_hex_digit_roundtrip(b % 16);
        assert(hex_of(s) == pre + byte_hex(b));
        assert(parsed_byte(hex_digit(b / 16), hex_digit(b % 16)) == b);
        assert(hex_of(s)[2 * (s.len() - 1)] == hex_digit(b / 16));
        assert(hex_of(s)[2 * (s.len() - 1) + 1] == hex_digit(b % 16));
        assert forall|i: int| 0 <= i < s.len() - 1 implies parsed_byte(
            hex_of(s)[2 * i],
            hex_of(s)[2 * i + 1],
        ) == #[trigger] s[i] by {
            assert(hex_of(s)[2 * i] == pre[2 * i]);
            assert(hex_of(s)[2 * i + 1] == pre[2 * i + 1]);
            assert(parsed_byte(pre[2 * i], pre[2 * i + 1]) == s.drop_last()[i]);
            assert(s.drop_last()[i] == s[i]);
        };
    }
}

} // verus!
