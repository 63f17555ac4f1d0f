//! MQTT variable-length integer codec.
//!
//! The remaining-length field of the fixed header and several MQTT 5
//! property values use this encoding: seven value bits per byte, least
//! significant group first, and a continuation bit on every byte but the
//! last. An encoding is one to four bytes long, so values range over
//! `0 ..= 268_435_455`.

use vstd::prelude::*;

verus! {

/// Largest value a variable-length integer can carry (four 7-bit groups).
pub const VARINT_MAX: u32 = 268435455;

/// Outcome of parsing a prefix of a byte sequence.
///
/// `Found(v, n)` means the first `n` bytes parse to value `v`;
/// `Incomplete` means every extension of the input could still parse;
/// `Malformed` means no extension of the input parses.
pub enum SpecParse {
    Found(int, int),
    Incomplete,
    Malformed,
}

/// 128 raised to `n`; the number of values `n` encoded groups can carry.
pub open spec fn pow128(n: nat) -> nat
    decreases n,
{
    if n == 0 {
        1
    } else {
        128 * pow128((n - 1) as nat)
    }
}

/// The variable-length encoding of `n`: least significant seven bits
/// first, continuation bit set on every byte except the last.
pub open spec fn varint_encode(n: nat) -> Seq<u8>
    decreases n,
{
    if n < 128 {
        seq![n as u8]
    } else {
        seq![(n % 128 + 128) as u8] + varint_encode(n / 128)
    }
}

/// Parses a variable-length integer from the front of `s`, accepting at
/// most `limit` bytes; a continuation bit on the `limit`-th byte is
/// malformed, as MQTT caps the encoding at four bytes.
pub open spec fn varint_parse_limited(s: Seq<u8>, limit: nat) -> SpecParse
    decreases limit,
{
    if limit == 0 {
        SpecParse::Malformed
    } else if s.len() == 0 {
        SpecParse::Incomplete
    } else if s[0] < 128 {
        SpecParse::Found(s[0] as int, 1)
    } else {
        match varint_parse_limited(s.skip(1), (limit - 1) as nat) {
            SpecParse::Found(v, n) => SpecParse::Found((s[0] - 128) + 128 * v, n + 1),
            SpecParse::Incomplete => SpecParse::Incomplete,
            SpecParse::Malformed => SpecParse::Malformed,
        }
    }
}

/// Parses a variable-length integer from the front of `s` with the MQTT
/// four-byte cap.
pub open spec fn varint_parse(s: Seq<u8>) -> SpecParse {
    varint_parse_limited(s, 4)
}

/// The concrete values of `pow128` for exponents up to four.
pub proof fn lemma_pow128_values()
    ensures
        pow128(0) == 1,
        pow128(1) == 128,
        pow128(2) == 16384,
        pow128(3) == 2097152,
        pow128(4) == 268435456,
{
    reveal_with_fuel(pow128, 5);
}

/// `pow128` is monotone in its exponent.
pub proof fn lemma_pow128_increases(a: nat, b: nat)
    requires
        a <= b,
    ensures
        pow128(a) <= pow128(b),
    decreases b,
{
    if a < b {
        lemma_pow128_increases(a, (b - 1) as nat);
    }
}

/// A parsed value stays under `pow128(limit)` and consumes at most
/// `limit` bytes, never more than are present.
pub proof fn lemma_varint_parse_bounds(s: Seq<u8>, limit: nat)
    ensures
        varint_parse_limited(s, limit) matches SpecParse::Found(v, n) ==> 0 <= v < pow128(limit)
            && 1 <= n <= limit && n <= s.len(),
    decreases limit,
{
    lemma_pow128_values();
    if limit > 0 && s.len() > 0 {
        if s[0] < 128 {
            lemma_pow128_increases(1, limit);
        } else {
            lemma_varint_parse_bounds(s.skip(1), (limit - 1) as nat);
        }
    }
}

/// The encoding of `n` is between one and four bytes, and grows with `n`.
pub proof fn lemma_varint_encode_len(n: nat)
    requires
        n <= VARINT_MAX,
    ensures
        1 <= varint_encode(n).len() <= 4,
        n < 128 ==> varint_encode(n).len() == 1,
        128 <= n < 16384 ==> varint_encode(n).len() == 2,
        16384 <= n < 2097152 ==> varint_encode(n).len() == 3,
        2097152 <= n ==> varint_encode(n).len() == 4,
    decreases n,
{
    if n >= 128 {
        lemma_varint_encode_len(n / 128);
    }
}

/// Round trip: parsing an encoding followed by anything yields the encoded
/// value and consumes exactly the encoding.
pub proof fn lemma_varint_round_trip(n: nat, rest: Seq<u8>)
    requires
        n <= VARINT_MAX,
    ensures
        varint_parse(varint_encode(n) + rest) == SpecParse::Found(
            n as int,
            varint_encode(n).len() as int,
        ),
{
    lemma_pow128_values();
    lemma_varint_round_trip_limited(n, rest, 4);
}

proof fn lemma_varint_round_trip_limited(n: nat, rest: Seq<u8>, limit: nat)
    requires
        n < pow128(limit),
        1 <= limit <= 4,
    ensures
        varint_parse_limited(varint_encode(n) + rest, limit) == SpecParse::Found(
            n as int,
            varint_encode(n).len() as int,
        ),
    decreases limit,
{
    let s = varint_encode(n) + rest;
    lemma_pow128_values();
    if n < 128 {
        assert(s[0] == n as u8);
    } else {
        assert(limit >= 2) by {
            lemma_pow128_values();
            if limit <= 1 {
                lemma_pow128_increases(limit, 1);
            }
        }
        assert(s[0] == (n % 128 + 128) as u8);
        assert(s.skip(1) =~= varint_encode(n / 128) + rest);
        assert(n / 128 < pow128((limit - 1) as nat)) by {
            assert(pow128(limit) == 128 * pow128((limit - 1) as nat));
        }
        lemma_varint_round_trip_limited(n / 128, rest, (limit - 1) as nat);
        assert((s[0] - 128) + 128 * (n / 128) == n as int);
    }
}

/// A strict prefix of an encoding parses as `Incomplete`: every byte of
/// the prefix still carries the continuation bit.
pub proof fn lemma_varint_prefix_incomplete(n: nat, k: int)
    requires
        n <= VARINT_MAX,
        0 <= k < varint_encode(n).len(),
    ensures
        varint_parse(varint_encode(n).take(k)) == SpecParse::Incomplete,
{
    lemma_pow128_values();
    lemma_varint_prefix_incomplete_limited(n, k, 4);
}

proof fn lemma_varint_prefix_incomplete_limited(n: nat, k: int, limit: nat)
    requires
        n < pow128(limit),
        1 <= limit <= 4,
        0 <= k < varint_encode(n).len(),
    ensures
        varint_parse_limited(varint_encode(n).take(k), limit) == SpecParse::Incomplete,
    decreases limit,
{
    let s = varint_encode(n).take(k);
    lemma_pow128_values();
    if k == 0 {
        assert(s.len() == 0);
    } else {
        assert(n >= 128);
        assert(limit >= 2) by {
            lemma_pow128_values();
            if limit <= 1 {
                lemma_pow128_increases(limit, 1);
            }
        }
        assert(s[0] == (n % 128 + 128) as u8);
        assert(s.skip(1) =~= varint_encode(n / 128).take(k - 1));
        assert(n / 128 < pow128((limit - 1) as nat)) by {
            assert(pow128(limit) == 128 * pow128((limit - 1) as nat));
        }
        lemma_varint_prefix_incomplete_limited(n / 128, k - 1, (limit - 1) as nat);
    }
}

/// Appends the variable-length encoding of `n` to `out`.
pub fn encode_varint(n: u32, out: &mut Vec<u8>)
    requires
        n <= VARINT_MAX,
    ensures
        final(out)@ == old(out)@ + varint_encode(n as nat),
{
    let mut rem: u32 = n;
    while rem >= 128
        invariant
            old(out)@ + varint_encode(n as nat) =~= out@ + varint_encode(rem as nat),
        decreases rem,
    {
        let ghost pre = out@;
        let b: u8 = (rem % 128 + 128) as u8;
        out.push(b);
        proof {
            assert(varint_encode(rem as nat) == seq![(rem as nat % 128 + 128) as u8]
                + varint_encode(rem as nat / 128));
            assert(pre + varint_encode(rem as nat) =~= out@ + varint_encode(rem as nat / 128));
        }
        rem = rem / 128;
    }
    let ghost pre = out@;
    out.push(rem as u8);
    assert(pre + varint_encode(rem as nat) =~= out@);
}

/// Parses a variable-length integer from `buf` starting at `pos`.
///
/// Returns the value and the position just past the encoding, `None` for
/// too few bytes so far, and `Some(Err(()))`-free shape: the three cases
/// mirror [`varint_parse`] on `buf@.skip(pos)`.
pub fn decode_varint(buf: &[u8], pos: usize) -> (r: VarintResult)
    requires
        pos <= buf@.len(),
    ensures
        match r {
            VarintResult::Found(v, end) => varint_parse(buf@.skip(pos as int))
                == SpecParse::Found(v as int, end - pos) && pos < end <= buf@.len() && v
                <= VARINT_MAX,
            VarintResult::Incomplete => varint_parse(buf@.skip(pos as int))
                == SpecParse::Incomplete,
            VarintResult::Malformed => varint_parse(buf@.skip(pos as int))
                == SpecParse::Malformed,
        },
{
    proof {
        lemma_pow128_values();
    }
    decode_varint_limited(buf, pos, 4)
}

/// Result of [`decode_varint`]: value and end position, or a verdict that
/// the input is so far too short, or can never parse.
#[derive(Debug, Clone, Copy, PartialEq, Eq)]
pub enum VarintResult {
    Found(u32, usize),
    Incomplete,
    Malformed,
}

fn decode_varint_limited(buf: &[u8], pos: usize, limit: u32) -> (r: VarintResult)
    requires
        pos <= buf@.len(),
        limit <= 4,
    ensures
        match r {
            VarintResult::Found(v, end) => varint_parse_limited(buf@.skip(pos as int), limit as nat)
                == SpecParse::Found(v as int, end - pos) && pos < end <= buf@.len() && (v as nat)
                < pow128(limit as nat),
            VarintResult::Incomplete => varint_parse_limited(buf@.skip(pos as int), limit as nat)
                == SpecParse::Incomplete,
            VarintResult::Malformed => varint_parse_limited(buf@.skip(pos as int), limit as nat)
                == SpecParse::Malformed,
        },
    decreases limit,
{
    if limit == 0 {
        return VarintResult::Malformed;
    }
    if pos >= buf.len() {
        assert(buf@.skip(pos as int).len() == 0);
        return VarintResult::Incomplete;
    }
    let b: u8 = buf[pos];
    assert(buf@.skip(pos as int)[0] == b);
    if b < 128 {
        proof {
            lemma_pow128_values();
            lemma_pow128_increases(1, limit as nat);
        }
        VarintResult::Found(b as u32, pos + 1)
    } else {
        let r = decode_varint_limited(buf, pos + 1, limit - 1);
        assert(buf@.skip(pos as int).skip(1) =~= buf@.skip(pos as int + 1));
        match r {
            VarintResult::Found(v, end) => {
                proof {
                    lemma_pow128_values();
                    assert(pow128(limit as nat) == 128 * pow128((limit - 1) as nat));
                    lemma_pow128_increases((limit - 1) as nat, 3);
                }
                let value: u32 = (b - 128) as u32 + 128 * v;
                VarintResult::Found(value, end)
            },
            VarintResult::Incomplete => VarintResult::Incomplete,
            VarintResult::Malformed => VarintResult::Malformed,
        }
    }
}

} // verus!
