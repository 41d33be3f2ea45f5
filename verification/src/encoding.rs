//! The canonical serialized form of a block's hashed fields: a JSON object
//! whose keys appear in alphabetical order, with decimal integers and
//! escaped string values.  Every digest in this crate is taken over this
//! form, so it is the compatibility contract for persistence and transport.

use vstd::prelude::*;

verus! {

/// The decimal digit character for `n` (meaningful for `n < 10`).
pub open spec fn digit_char(n: nat) -> char {
    if n == 0 {
        '0'
    } else if n == 1 {
        '1'
    } else if n == 2 {
        '2'
    } else if n == 3 {
        '3'
    } else if n == 4 {
        '4'
    } else if n == 5 {
        '5'
    } else if n == 6 {
        '6'
    } else if n == 7 {
        '7'
    } else if n == 8 {
        '8'
    } else {
        '9'
    }
}

/// The lowercase hexadecimal digit character for `n` (meaningful for `n < 16`).
pub open spec fn hex_digit_char(n: nat) -> char {
    if n < 10 {
        digit_char(n)
    } else if n == 10 {
        'a'
    } else if n == 11 {
        'b'
    } else if n == 12 {
        'c'
    } else if n == 13 {
        'd'
    } else if n == 14 {
        'e'
    } else {
        'f'
    }
}

/// Decimal representation of a natural number, most significant digit first,
/// with no leading zeros.
pub open spec fn dec_of_nat(n: nat) -> Seq<char>
    decreases n,
{
    if n < 10 {
        seq![digit_char(n)]
    } else {
        dec_of_nat(n / 10).push(digit_char(n % 10))
    }
}

/// Decimal representation of an integer: a leading minus sign for negatives.
pub open spec fn dec_of_int(i: int) -> Seq<char> {
    if i < 0 {
        seq!['-'] + dec_of_nat((-i) as nat)
    } else {
        dec_of_nat(i as nat)
    }
}

/// How one character appears inside a JSON string literal: the two-character
/// short escapes, `\u00..` for the remaining control characters, and every
/// other character verbatim.
pub open spec fn escaped_char(c: char) -> Seq<char> {
    if c == '"' {
        seq!['\\', '"']
    } else if c == '\\' {
        seq!['\\', '\\']
    } else if c == '\u{8}' {
        seq!['\\', 'b']
    } else if c == '\t' {
        seq!['\\', 't']
    } else if c == '\n' {
        seq!['\\', 'n']
    } else if c == '\u{c}' {
        seq!['\\', 'f']
    } else if c == '\r' {
        seq!['\\', 'r']
    } else if (c as u32) < 32 {
        seq!['\\', 'u', '0', '0', hex_digit_char(((c as u32) >> 4) as nat), hex_digit_char(
            ((c as u32) & 15) as nat,
        )]
    } else {
        seq![c]
    }
}

/// A whole string escaped for use inside a JSON string literal.
pub open spec fn json_escaped(s: Seq<char>) -> Seq<char>
    decreases s.len(),
{
    if s.len() == 0 {
        Seq::empty()
    } else {
        escaped_char(s[0]) + json_escaped(s.drop_first())
    }
}

/// The canonical field-keyed form of the hashed fields of a block: a JSON
/// object with the keys in alphabetical order.
pub open spec fn canonical_of(
    id: u64,
    timestamp: i64,
    previous_hash: Seq<char>,
    data: Seq<char>,
    nonce: u64,
) -> Seq<char> {
    "{\"data\":\""@ + json_escaped(data) + "\",\"id\":"@ + dec_of_nat(id as nat) + ",\"nonce\":"@
        + dec_of_nat(nonce as nat) + ",\"previous_hash\":\""@ + json_escaped(previous_hash)
        + "\",\"timestamp\":"@ + dec_of_int(timestamp as int) + "}"@
}

/// Escaping a string one character longer appends that character's escape.
pub proof fn lemma_json_escaped_snoc(s: Seq<char>, c: char)
    ensures
        json_escaped(s.push(c)) == json_escaped(s) + escaped_char(c),
    decreases s.len(),
{
    if s.len() == 0 {
        assert(s.push(c)[0] == c);
        assert(s.push(c).drop_first() =~= s);
        assert(json_escaped(s.push(c)) =~= json_escaped(s) + escaped_char(c));
    } else {
        lemma_json_escaped_snoc(s.drop_first(), c);
        assert(s.push(c).drop_first() =~= s.drop_first().push(c));
        assert(s.push(c)[0] == s[0]);
        assert(escaped_char(s[0]) + (json_escaped(s.drop_first()) + escaped_char(c)) =~= (
        escaped_char(s[0]) + json_escaped(s.drop_first())) + escaped_char(c));
    }
}

fn digit_to_char(n: u64) -> (c: char)
    requires
        n < 10,
    ensures
        c == digit_char(n as nat),
{
    if n == 0 {
        '0'
    } else if n == 1 {
        '1'
    } else if n == 2 {
        '2'
    } else if n == 3 {
        '3'
    } else if n == 4 {
        '4'
    } else if n == 5 {
        '5'
    } else if n == 6 {
        '6'
    } else if n == 7 {
        '7'
    } else if n == 8 {
        '8'
    } else {
        '9'
    }
}

fn hex_to_char(n: u32) -> (c: char)
    requires
        n < 16,
    ensures
        c == hex_digit_char(n as nat),
{
    if n < 10 {
        digit_to_char(n as u64)
    } else if n == 10 {
        'a'
    } else if n == 11 {
        'b'
    } else if n == 12 {
        'c'
    } else if n == 13 {
        'd'
    } else if n == 14 {
        'e'
    } else {
        'f'
    }
}

/// Appends the decimal digits of `n`.
fn push_decimal_u64(out: &mut Vec<char>, n: u64)
    ensures
        final(out)@ == old(out)@ + dec_of_nat(n as nat),
    decreases n,
{
    if n >= 10 {
        push_decimal_u64(out, n / 10);
        out.push(digit_to_char(n % 10));
        assert(out@ =~= old(out)@ + dec_of_nat(n as nat));
    } else {
        out.push(digit_to_char(n));
        assert(out@ =~= old(out)@ + dec_of_nat(n as nat));
    }
}

/// Appends the decimal digits of `i`, with a minus sign for negatives.
fn push_decimal_i64(out: &mut Vec<char>, i: i64)
    ensures
        final(out)@ == old(out)@ + dec_of_int(i as int),
{
    if i >= 0 {
        push_decimal_u64(out, i as u64);
    } else {
        out.push('-');
        let m: u64 = if i == i64::MIN {
            9223372036854775808
        } else {
            (-i) as u64
        };
        assert(m as nat == (-(i as int)) as nat);
        push_decimal_u64(out, m);
        assert(out@ =~= old(out)@ + dec_of_int(i as int));
    }
}

/// Appends every character of `s` unchanged.
fn push_str_chars(out: &mut Vec<char>, s: &str)
    ensures
        final(out)@ == old(out)@ + s@,
{
    let n: usize = s.unicode_len();
    let mut i: usize = 0;
    while i < n
        invariant
            i <= n,
            n == s@.len(),
            out@ == old(out)@ + s@.take(i as int),
        decreases n - i,
    {
        out.push(s.get_char(i));
        i = i + 1;
        assert(s@.take(i as int) =~= s@.take(i as int - 1).push(s@[i as int - 1]));
        assert(out@ =~= old(out)@ + s@.take(i as int));
    }
    assert(s@.take(n as int) =~= s@);
}

/// Appends the escape of one character.
fn push_escaped_char(out: &mut Vec<char>, c: char)
    ensures
        final(out)@ == old(out)@ + escaped_char(c),
{
    if c == '"' {
        out.push('\\');
        out.push('"');
    } else if c == '\\' {
        out.push('\\');
        out.push('\\');
    } else if c == '\u{8}' {
        out.push('\\');
        out.push('b');
    } else if c == '\t' {
        out.push('\\');
        out.push('t');
    } else if c == '\n' {
        out.push('\\');
        out.push('n');
    } else if c == '\u{c}' {
        out.push('\\');
        out.push('f');
    } else if c == '\r' {
        out.push('\\');
        out.push('r');
    } else {
        let u: u32 = c as u32;
        if u < 32 {
            assert(u < 32 ==> (u >> 4) < 16 && (u & 15) < 16) by (bit_vector);
            out.push('\\');
            out.push('u');
            out.push('0');
            out.push('0');
            out.push(hex_to_char(u >> 4));
            out.push(hex_to_char(u & 15));
        } else {
            out.push(c);
        }
    }
    assert(out@ =~= old(out)@ + escaped_char(c));
}

/// Appends the JSON escape of every character of `s`.
fn push_escaped(out: &mut Vec<char>, s: &str)
    ensures
        final(out)@ == old(out)@ + json_escaped(s@),
{
    let n: usize = s.unicode_len();
    let mut i: usize = 0;
    while i < n
        invariant
            i <= n,
            n == s@.len(),
            out@ == old(out)@ + json_escaped(s@.take(i as int)),
        decreases n - i,
    {
        push_escaped_char(out, s.get_char(i));
        i = i + 1;
        proof {
            assert(s@.take(i as int) =~= s@.take(i as int - 1).push(s@[i as int - 1]));
            lemma_json_escaped_snoc(s@.take(i as int - 1), s@[i as int - 1]);
            assert(out@ =~= old(out)@ + json_escaped(s@.take(i as int)));
        }
    }
    assert(s@.take(n as int) =~= s@);
}

/// The characters of the canonical form for the given field values.
pub fn canonical_chars(
    id: u64,
    timestamp: i64,
    previous_hash: &str,
    data: &str,
    nonce: u64,
) -> (r: Vec<char>)
    ensures
        r@ == canonical_of(id, timestamp, previous_hash@, data@, nonce),
{
    let mut out: Vec<char> = Vec::new();
    push_str_chars(&mut out, "{\"data\":\"");
    push_escaped(&mut out, data);
    push_str_chars(&mut out, "\",\"id\":");
    push_decimal_u64(&mut out, id);
    push_str_chars(&mut out, ",\"nonce\":");
    push_decimal_u64(&mut out, nonce);
    push_str_chars(&mut out, ",\"previous_hash\":\"");
    push_escaped(&mut out, previous_hash);
    push_str_chars(&mut out, "\",\"timestamp\":");
    push_decimal_i64(&mut out, timestamp);
    push_str_chars(&mut out, "}");
    proof {
        assert(out@ =~= canonical_of(id, timestamp, previous_hash@, data@, nonce));
    }
    out
}

} // verus!
