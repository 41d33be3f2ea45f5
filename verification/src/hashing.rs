//! Block identity: the 256-bit digest of the canonical form, its lowercase
//! hexadecimal rendering for storage, its padded binary rendering, and the
//! difficulty predicate (a required run of leading zero bits).

use vstd::prelude::*;
use vstd::string::StrSliceExecFns;

use crate::encoding::canonical_chars;
use crate::encoding::canonical_of;
use crate::encoding::hex_digit_char;

use sha2::Digest;

verus! {

/// The 32-byte digest that the fixed 256-bit hash algorithm assigns to a
/// character sequence (hashed through its UTF-8 bytes).
pub uninterp spec fn sha256_of(s: Seq<char>) -> Seq<u8>;

/// Relies on sha2::Sha256: a 32-byte digest that is a function of the
/// input bytes alone.
#[verifier::external_body]
fn digest_chars(s: &Vec<char>) -> (r: Vec<u8>)
    ensures
        r@ == sha256_of(s@),
        r@.len() == 32,
{
    let text: String = s.iter().collect();
    sha2::Sha256::digest(text.as_bytes()).to_vec()
}

/// The lowercase hexadecimal rendering of a byte string, high nibble first.
pub open spec fn hex_of(s: Seq<u8>) -> Seq<char>
    decreases s.len(),
{
    if s.len() == 0 {
        Seq::empty()
    } else {
        seq![
            hex_digit_char((s.first() >> 4) as nat),
            hex_digit_char((s.first() & 15) as nat),
        ] + hex_of(s.drop_first())
    }
}

/// Relies on hex::encode: two lowercase hexadecimal digits per byte, high
/// nibble first.
#[verifier::external_body]
fn hex_string(b: &Vec<u8>) -> (r: String)
    ensures
        r@ == hex_of(b@),
{
    hex::encode(b)
}

/// Whether `c` is a lowercase hexadecimal digit.
pub open spec fn is_hex_char(c: char) -> bool {
    (48 <= c as u32 && c as u32 <= 57) || (97 <= c as u32 && c as u32 <= 102)
}

/// The value of a lowercase hexadecimal digit (zero on other characters).
pub open spec fn hex_char_val(c: char) -> nat {
    if 48 <= c as u32 && c as u32 <= 57 {
        (c as u32 - 48) as nat
    } else if 97 <= c as u32 && c as u32 <= 102 {
        (c as u32 - 87) as nat
    } else {
        0
    }
}

/// Bit `j` (most significant first) of the nibble value `v`, as a character.
pub open spec fn nibble_bit_char(v: nat, j: int) -> char {
    if ((v as u32) >> ((3 - j) as u32)) & 1 == 1 {
        '1'
    } else {
        '0'
    }
}

/// Bit `j` (most significant first) of a byte, as a character.
pub open spec fn byte_bit_char(b: u8, j: int) -> char {
    if (b >> ((7 - j) as u8)) & 1 == 1 {
        '1'
    } else {
        '0'
    }
}

/// The four bits of a nibble value, most significant first.
pub open spec fn nibble_bits(v: nat) -> Seq<char> {
    seq![
        nibble_bit_char(v, 0),
        nibble_bit_char(v, 1),
        nibble_bit_char(v, 2),
        nibble_bit_char(v, 3),
    ]
}

/// The eight bits of a byte, most significant first.
pub open spec fn byte_bits(b: u8) -> Seq<char> {
    seq![
        byte_bit_char(b, 0),
        byte_bit_char(b, 1),
        byte_bit_char(b, 2),
        byte_bit_char(b, 3),
        byte_bit_char(b, 4),
        byte_bit_char(b, 5),
        byte_bit_char(b, 6),
        byte_bit_char(b, 7),
    ]
}

/// The bit string of a hexadecimal string: four bits per digit, most
/// significant first.
pub open spec fn bits_of_hex(h: Seq<char>) -> Seq<char>
    decreases h.len(),
{
    if h.len() == 0 {
        Seq::empty()
    } else {
        nibble_bits(hex_char_val(h.first())) + bits_of_hex(h.drop_first())
    }
}

/// The padded binary form of a byte string: exactly eight bits per byte,
/// most significant first.
pub open spec fn bits_of_bytes(s: Seq<u8>) -> Seq<char>
    decreases s.len(),
{
    if s.len() == 0 {
        Seq::empty()
    } else {
        byte_bits(s.first()) + bits_of_bytes(s.drop_first())
    }
}

/// Every character is a lowercase hexadecimal digit.
pub open spec fn all_hex(h: Seq<char>) -> bool {
    forall|i: int| 0 <= i < h.len() ==> is_hex_char(h[i])
}

/// The first `d` characters of `bits` exist and are `'0'`.
pub open spec fn leading_zeros(bits: Seq<char>, d: nat) -> bool {
    d <= bits.len() && (forall|i: int| 0 <= i < d ==> bits[i] == '0')
}

/// The difficulty predicate on a stored hash: a 64-digit lowercase
/// hexadecimal string whose binary form begins with `d` zero bits.
pub open spec fn hash_meets_difficulty(h: Seq<char>, d: nat) -> bool {
    h.len() == 64 && all_hex(h) && leading_zeros(bits_of_hex(h), d)
}

/// Reading a hexadecimal digit back gives the value it was made from.
proof fn lemma_hex_val_of_digit(v: nat)
    requires
        v < 16,
    ensures
        hex_char_val(hex_digit_char(v)) == v,
        is_hex_char(hex_digit_char(v)),
{
}

/// The high and low nibbles of a byte carry exactly its eight bits.
proof fn lemma_byte_bits_split(b: u8)
    ensures
        nibble_bits((b >> 4u8) as nat) + nibble_bits((b & 15u8) as nat) == byte_bits(b),
{
    assert(((((b >> 4u8) as u32) >> 3u32) & 1 == 1) == (((b >> 7u8) & 1) == 1)) by (bit_vector);
    assert(((((b >> 4u8) as u32) >> 2u32) & 1 == 1) == (((b >> 6u8) & 1) == 1)) by (bit_vector);
    assert(((((b >> 4u8) as u32) >> 1u32) & 1 == 1) == (((b >> 5u8) & 1) == 1)) by (bit_vector);
    assert(((((b >> 4u8) as u32) >> 0u32) & 1 == 1) == (((b >> 4u8) & 1) == 1)) by (bit_vector);
    assert(((((b & 15u8) as u32) >> 3u32) & 1 == 1) == (((b >> 3u8) & 1) == 1)) by (bit_vector);
    assert(((((b & 15u8) as u32) >> 2u32) & 1 == 1) == (((b >> 2u8) & 1) == 1)) by (bit_vector);
    assert(((((b & 15u8) as u32) >> 1u32) & 1 == 1) == (((b >> 1u8) & 1) == 1)) by (bit_vector);
    assert(((((b & 15u8) as u32) >> 0u32) & 1 == 1) == (((b >> 0u8) & 1) == 1)) by (bit_vector);
    assert((b >> 4u8) < 16 && (b & 15u8) < 16) by (bit_vector);
    assert(((b >> 4u8) as nat) as u32 == (b >> 4u8) as u32);
    assert(((b & 15u8) as nat) as u32 == (b & 15u8) as u32);
    assert(nibble_bits((b >> 4u8) as nat) + nibble_bits((b & 15u8) as nat) =~= byte_bits(b));
}

/// The binary form read off the hexadecimal rendering is the padded binary
/// form of the bytes themselves: each pair of hex digits carries exactly the
/// eight bits of its byte.
pub proof fn lemma_bits_of_hex_of_bytes(s: Seq<u8>)
    ensures
        bits_of_hex(hex_of(s)) == bits_of_bytes(s),
    decreases s.len(),
{
    if s.len() == 0 {
        assert(bits_of_hex(hex_of(s)) =~= bits_of_bytes(s));
    } else {
        let b = s.first();
        let rest = s.drop_first();
        lemma_bits_of_hex_of_bytes(rest);
        assert((b >> 4u8) < 16 && (b & 15u8) < 16) by (bit_vector);
        lemma_hex_val_of_digit((b >> 4u8) as nat);
        lemma_hex_val_of_digit((b & 15u8) as nat);
        lemma_byte_bits_split(b);
        let h = hex_of(s);
        let h2 = h.drop_first();
        assert(h.first() == hex_digit_char((b >> 4u8) as nat));
        assert(h2.first() == hex_digit_char((b & 15u8) as nat));
        assert(h2.drop_first() =~= hex_of(rest));
        assert(bits_of_hex(h) == nibble_bits(hex_char_val(h.first())) + bits_of_hex(h2));
        assert(bits_of_hex(h2) == nibble_bits(hex_char_val(h2.first())) + bits_of_hex(
            h2.drop_first(),
        ));
        assert(bits_of_hex(h2.drop_first()) == bits_of_hex(hex_of(rest)));
        assert(bits_of_hex(h) == nibble_bits((b >> 4u8) as nat) + (nibble_bits((b & 15u8) as nat)
            + bits_of_hex(hex_of(rest))));
        assert(nibble_bits((b >> 4u8) as nat) + (nibble_bits((b & 15u8) as nat) + bits_of_bytes(
            rest,
        )) =~= (nibble_bits((b >> 4u8) as nat) + nibble_bits((b & 15u8) as nat)) + bits_of_bytes(
            rest,
        ));
        assert(bits_of_hex(hex_of(s)) == byte_bits(b) + bits_of_bytes(rest));
    }
}

/// Digest of the canonical form of the given fields; how every block's
/// identity is derived from its contents.
pub fn calculate_hash(id: u64, timestamp: i64, previous_hash: &str, data: &str, nonce: u64) -> (r:
    Vec<u8>)
    ensures
        r@ == sha256_of(canonical_of(id, timestamp, previous_hash@, data@, nonce)),
        r@.len() == 32,
{
    let chars: Vec<char> = canonical_chars(id, timestamp, previous_hash, data, nonce);
    digest_chars(&chars)
}

/// Hexadecimal rendering of a digest, for storage and display.
pub fn hash_to_hex(hash: &Vec<u8>) -> (r: String)
    ensures
        r@ == hex_of(hash@),
{
    hex_string(hash)
}

/// Appends the eight bits of one byte, most significant first.
fn push_byte_bits(bits: &mut Vec<char>, b: u8)
    ensures
        final(bits)@ == old(bits)@ + byte_bits(b),
{
    let ghost bits0 = bits@;
    bits.push(if (b >> 7u8) & 1 == 1 { '1' } else { '0' });
    bits.push(if (b >> 6u8) & 1 == 1 { '1' } else { '0' });
    bits.push(if (b >> 5u8) & 1 == 1 { '1' } else { '0' });
    bits.push(if (b >> 4u8) & 1 == 1 { '1' } else { '0' });
    bits.push(if (b >> 3u8) & 1 == 1 { '1' } else { '0' });
    bits.push(if (b >> 2u8) & 1 == 1 { '1' } else { '0' });
    bits.push(if (b >> 1u8) & 1 == 1 { '1' } else { '0' });
    bits.push(if (b >> 0u8) & 1 == 1 { '1' } else { '0' });
    proof {
        assert(bits@[bits0.len() as int] == byte_bit_char(b, 0));
        assert(bits@[bits0.len() as int + 1] == byte_bit_char(b, 1));
        assert(bits@[bits0.len() as int + 2] == byte_bit_char(b, 2));
        assert(bits@[bits0.len() as int + 3] == byte_bit_char(b, 3));
        assert(bits@[bits0.len() as int + 4] == byte_bit_char(b, 4));
        assert(bits@[bits0.len() as int + 5] == byte_bit_char(b, 5));
        assert(bits@[bits0.len() as int + 6] == byte_bit_char(b, 6));
        assert(bits@[bits0.len() as int + 7] == byte_bit_char(b, 7));
        assert(bits@ =~= bits0 + byte_bits(b));
    }
}

/// Appends the four bits of one nibble value, most significant first.
fn push_nibble_bits(bits: &mut Vec<char>, v: u32)
    requires
        v < 16,
    ensures
        final(bits)@ == old(bits)@ + nibble_bits(v as nat),
{
    let ghost bits0 = bits@;
    bits.push(if (v >> 3u32) & 1 == 1 { '1' } else { '0' });
    bits.push(if (v >> 2u32) & 1 == 1 { '1' } else { '0' });
    bits.push(if (v >> 1u32) & 1 == 1 { '1' } else { '0' });
    bits.push(if (v >> 0u32) & 1 == 1 { '1' } else { '0' });
    proof {
        assert(bits@[bits0.len() as int] == nibble_bit_char(v as nat, 0));
        assert(bits@[bits0.len() as int + 1] == nibble_bit_char(v as nat, 1));
        assert(bits@[bits0.len() as int + 2] == nibble_bit_char(v as nat, 2));
        assert(bits@[bits0.len() as int + 3] == nibble_bit_char(v as nat, 3));
        assert(bits@ =~= bits0 + nibble_bits(v as nat));
    }
}

/// Padded binary rendering of a digest: every byte contributes exactly
/// eight bits, so the difficulty comparison is consistent across bytes.
pub fn hash_to_binary_representation(hash: &[u8]) -> (r: Vec<char>)
    ensures
        r@ == bits_of_bytes(hash@),
{
    let mut bits: Vec<char> = Vec::new();
    let n: usize = hash.len();
    let mut k: usize = 0;
    proof {
        assert(hash@.skip(0) =~= hash@);
        assert(bits@ + bits_of_bytes(hash@) =~= bits_of_bytes(hash@));
    }
    while k < n
        invariant
            k <= n,
            n == hash@.len(),
            bits@ + bits_of_bytes(hash@.skip(k as int)) == bits_of_bytes(hash@),
        decreases n - k,
    {
        let b: u8 = hash[k];
        let ghost bits0 = bits@;
        push_byte_bits(&mut bits, b);
        proof {
            let rest = hash@.skip(k as int);
            let rest2 = hash@.skip(k as int + 1);
            assert(rest.first() == b);
            assert(rest.drop_first() =~= rest2);
            assert(bits_of_bytes(rest) == byte_bits(b) + bits_of_bytes(rest2));
            assert((bits0 + byte_bits(b)) + bits_of_bytes(rest2) =~= bits0 + (byte_bits(b)
                + bits_of_bytes(rest2)));
            assert(bits@ + bits_of_bytes(rest2) == bits_of_bytes(hash@));
        }
        k = k + 1;
    }
    proof {
        assert(hash@.skip(n as int) =~= Seq::<u8>::empty());
        assert(bits@ + bits_of_bytes(Seq::<u8>::empty()) =~= bits@);
    }
    bits
}

/// Whether a stored hash string meets a difficulty of `difficulty` leading
/// zero bits.
pub fn check_difficulty(h: &str, difficulty: u64) -> (r: bool)
    ensures
        r == hash_meets_difficulty(h@, difficulty as nat),
{
    let n: usize = h.unicode_len();
    if n != 64 {
        return false;
    }
    let mut bits: Vec<char> = Vec::new();
    let mut i: usize = 0;
    proof {
        assert(h@.skip(0) =~= h@);
        assert(bits@ + bits_of_hex(h@) =~= bits_of_hex(h@));
    }
    while i < 64
        invariant
            i <= 64,
            h@.len() == 64,
            forall|k: int| 0 <= k < i ==> is_hex_char(h@[k]),
            bits@.len() == 4 * i,
            bits@ + bits_of_hex(h@.skip(i as int)) == bits_of_hex(h@),
        decreases 64 - i,
    {
        let c: char = h.get_char(i);
        let u: u32 = c as u32;
        if !((48 <= u && u <= 57) || (97 <= u && u <= 102)) {
            assert(!is_hex_char(h@[i as int]));
            return false;
        }
        let v: u32 = if u <= 57 {
            u - 48
        } else {
            u - 87
        };
        assert(v as nat == hex_char_val(h@[i as int]));
        let ghost bits0 = bits@;
        push_nibble_bits(&mut bits, v);
        proof {
            let rest = h@.skip(i as int);
            let rest2 = h@.skip(i as int + 1);
            assert(rest.first() == h@[i as int]);
            assert(rest.drop_first() =~= rest2);
            assert(bits_of_hex(rest) == nibble_bits(v as nat) + bits_of_hex(rest2));
            assert((bits0 + nibble_bits(v as nat)) + bits_of_hex(rest2) =~= bits0 + (nibble_bits(
                v as nat,
            ) + bits_of_hex(rest2)));
            assert(bits@ + bits_of_hex(rest2) == bits_of_hex(h@));
        }
        i = i + 1;
    }
    proof {
        assert(h@.skip(64int) =~= Seq::<char>::empty());
        assert(bits@ + bits_of_hex(Seq::<char>::empty()) =~= bits@);
        assert(bits@ == bits_of_hex(h@));
    }
    if difficulty > 256 {
        return false;
    }
    let d: usize = difficulty as usize;
    let mut j: usize = 0;
    while j < d
        invariant
            j <= d,
            d == difficulty,
            d <= 256,
            h@.len() == 64,
            all_hex(h@),
            bits@.len() == 256,
            bits@ == bits_of_hex(h@),
            forall|k: int| 0 <= k < j ==> bits@[k] == '0',
        decreases d - j,
    {
        if bits[j] != '0' {
            return false;
        }
        j = j + 1;
    }
    true
}

} // verus!
