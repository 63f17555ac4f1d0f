//! Fixed-width wire primitives: big-endian integers, length-prefixed
//! binary data and length-prefixed UTF-8 strings.
//!
//! Each field has a specification-level encoder returning a byte sequence,
//! a specification-level parser returning the value and the number of
//! bytes consumed (`None` when the input can never parse), a round-trip
//! lemma tying the two together, and executable reader and writer
//! functions proved against them. Parsers here are used on packet bodies
//! whose full extent is already known, so a short input is malformed, not
//! incomplete.

use vstd::prelude::*;
use vstd::slice::slice_subrange;
use vstd::slice::slice_to_vec;
use vstd::string::StringSliceAdditionalSpecFns;
use vstd::utf8::valid_utf8;

verus! {

/// Whether `b` is well-formed UTF-8. Opaque so that the underlying
/// definition's helper lemmas stay out of unrelated proofs; nothing in
/// this crate reasons below this symbol.
#[verifier::opaque]
pub open spec fn utf8_ok(b: Seq<u8>) -> bool {
    valid_utf8(b)
}

/// Big-endian two-byte encoding of `x`.
pub open spec fn enc_u16(x: u16) -> Seq<u8> {
    seq![(x / 256) as u8, (x % 256) as u8]
}

/// Big-endian four-byte encoding of `x`.
pub open spec fn enc_u32(x: u32) -> Seq<u8> {
    seq![
        (x / 0x1000000) as u8,
        ((x / 0x10000) % 256) as u8,
        ((x / 256) % 256) as u8,
        (x % 256) as u8,
    ]
}

/// Length-prefixed binary data: a two-byte length then the bytes.
pub open spec fn enc_bin(b: Seq<u8>) -> Seq<u8>
    recommends
        b.len() <= 65535,
{
    enc_u16(b.len() as u16) + b
}

/// Parses one byte.
pub open spec fn take_u8(s: Seq<u8>) -> Option<(u8, int)> {
    if s.len() >= 1 {
        Some((s[0], 1))
    } else {
        None
    }
}

/// Parses a big-endian two-byte integer.
pub open spec fn take_u16(s: Seq<u8>) -> Option<(u16, int)> {
    if s.len() >= 2 {
        Some(((s[0] as int * 256 + s[1] as int) as u16, 2))
    } else {
        None
    }
}

/// Parses a big-endian four-byte integer.
pub open spec fn take_u32(s: Seq<u8>) -> Option<(u32, int)> {
    if s.len() >= 4 {
        Some(
            (
                (s[0] as int * 0x1000000 + s[1] as int * 0x10000 + s[2] as int * 256
                    + s[3] as int) as u32,
                4,
            ),
        )
    } else {
        None
    }
}

/// Parses length-prefixed binary data.
pub open spec fn take_bin(s: Seq<u8>) -> Option<(Seq<u8>, int)> {
    match take_u16(s) {
        Some((len, _)) => if s.len() >= 2 + len {
            Some((s.subrange(2, 2 + len), 2 + len))
        } else {
            None
        },
        None => None,
    }
}

/// Parses a length-prefixed string field; the bytes must be valid UTF-8.
pub open spec fn take_str(s: Seq<u8>) -> Option<(Seq<u8>, int)> {
    match take_bin(s) {
        Some((b, n)) => if utf8_ok(b) {
            Some((b, n))
        } else {
            None
        },
        None => None,
    }
}

/// Round trip for two-byte integers.
pub proof fn lemma_u16_round_trip(x: u16, rest: Seq<u8>)
    ensures
        take_u16(enc_u16(x) + rest) == Some((x, 2int)),
{
    let s = enc_u16(x) + rest;
    assert(s[0] == (x / 256) as u8 && s[1] == (x % 256) as u8);
}

/// Round trip for four-byte integers.
pub proof fn lemma_u32_round_trip(x: u32, rest: Seq<u8>)
    ensures
        take_u32(enc_u32(x) + rest) == Some((x, 4int)),
{
    let s = enc_u32(x) + rest;
    assert(s[0] == (x / 0x1000000) as u8 && s[1] == ((x / 0x10000) % 256) as u8 && s[2] == ((x
        / 256) % 256) as u8 && s[3] == (x % 256) as u8);
}

/// Round trip for length-prefixed binary data.
pub proof fn lemma_bin_round_trip(b: Seq<u8>, rest: Seq<u8>)
    requires
        b.len() <= 65535,
    ensures
        take_bin(enc_bin(b) + rest) == Some((b, 2 + b.len() as int)),
{
    let s = enc_bin(b) + rest;
    assert(enc_u16(b.len() as u16) + b + rest =~= s);
    lemma_u16_round_trip(b.len() as u16, b + rest);
    assert(take_u16(s) == Some((b.len() as u16, 2int)));
    assert(s.subrange(2, 2 + b.len() as int) =~= b);
}

/// Round trip for string fields.
pub proof fn lemma_str_round_trip(b: Seq<u8>, rest: Seq<u8>)
    requires
        b.len() <= 65535,
        utf8_ok(b),
    ensures
        take_str(enc_bin(b) + rest) == Some((b, 2 + b.len() as int)),
{
    lemma_bin_round_trip(b, rest);
}

/// Appends the big-endian two-byte encoding of `x` to `out`.
pub fn write_u16(x: u16, out: &mut Vec<u8>)
    ensures
        final(out)@ == old(out)@ + enc_u16(x),
{
    let ghost pre = out@;
    out.push((x / 256) as u8);
    out.push((x % 256) as u8);
    assert(pre + enc_u16(x) =~= out@);
}

/// Appends the big-endian four-byte encoding of `x` to `out`.
pub fn write_u32(x: u32, out: &mut Vec<u8>)
    ensures
        final(out)@ == old(out)@ + enc_u32(x),
{
    let ghost pre = out@;
    out.push((x / 0x1000000) as u8);
    out.push(((x / 0x10000) % 256) as u8);
    out.push(((x / 256) % 256) as u8);
    out.push((x % 256) as u8);
    assert(pre + enc_u32(x) =~= out@);
}

/// Appends the length prefix and bytes of `b` to `out`.
pub fn write_bin(b: &[u8], out: &mut Vec<u8>)
    requires
        b@.len() <= 65535,
    ensures
        final(out)@ == old(out)@ + enc_bin(b@),
{
    let ghost pre = out@;
    write_u16(b.len() as u16, out);
    let mut i: usize = 0;
    while i < b.len()
        invariant
            i <= b@.len(),
            b@.len() <= 65535,
            out@ == pre + enc_u16(b@.len() as u16) + b@.take(i as int),
        decreases b@.len() - i,
    {
        let ghost mid = out@;
        out.push(b[i]);
        assert(mid.push(b@[i as int]) =~= pre + enc_u16(b@.len() as u16) + b@.take(i + 1));
        i = i + 1;
    }
    assert(b@.take(b@.len() as int) =~= b@);
    assert(pre + enc_u16(b@.len() as u16) + b@ =~= pre + enc_bin(b@));
}

/// Reads one byte at `pos`; `None` when the buffer ends first.
pub fn read_u8(buf: &[u8], pos: usize) -> (r: Option<(u8, usize)>)
    requires
        pos <= buf@.len(),
    ensures
        match r {
            Some((v, end)) => take_u8(buf@.skip(pos as int)) == Some((v, end - pos)) && pos < end
                <= buf@.len(),
            None => take_u8(buf@.skip(pos as int)) is None,
        },
{
    if pos < buf.len() {
        assert(buf@.skip(pos as int)[0] == buf@[pos as int]);
        Some((buf[pos], pos + 1))
    } else {
        None
    }
}

/// Reads a big-endian two-byte integer at `pos`.
pub fn read_u16(buf: &[u8], pos: usize) -> (r: Option<(u16, usize)>)
    requires
        pos <= buf@.len(),
    ensures
        match r {
            Some((v, end)) => take_u16(buf@.skip(pos as int)) == Some((v, end - pos)) && pos < end
                <= buf@.len(),
            None => take_u16(buf@.skip(pos as int)) is None,
        },
{
    if buf.len() - pos >= 2 {
        let v: u16 = (buf[pos] as u16) * 256 + (buf[pos + 1] as u16);
        assert(buf@.skip(pos as int)[0] == buf@[pos as int]);
        assert(buf@.skip(pos as int)[1] == buf@[pos as int + 1]);
        Some((v, pos + 2))
    } else {
        None
    }
}

/// Reads a big-endian four-byte integer at `pos`.
pub fn read_u32(buf: &[u8], pos: usize) -> (r: Option<(u32, usize)>)
    requires
        pos <= buf@.len(),
    ensures
        match r {
            Some((v, end)) => take_u32(buf@.skip(pos as int)) == Some((v, end - pos)) && pos < end
                <= buf@.len(),
            None => take_u32(buf@.skip(pos as int)) is None,
        },
{
    if buf.len() - pos >= 4 {
        let v: u32 = (buf[pos] as u32) * 0x1000000 + (buf[pos + 1] as u32) * 0x10000 + (buf[pos
            + 2] as u32) * 256 + (buf[pos + 3] as u32);
        assert(buf@.skip(pos as int)[0] == buf@[pos as int]);
        assert(buf@.skip(pos as int)[1] == buf@[pos as int + 1]);
        assert(buf@.skip(pos as int)[2] == buf@[pos as int + 2]);
        assert(buf@.skip(pos as int)[3] == buf@[pos as int + 3]);
        Some((v, pos + 4))
    } else {
        None
    }
}

/// Reads length-prefixed binary data at `pos` into a fresh vector.
pub fn read_bin(buf: &[u8], pos: usize) -> (r: Option<(Vec<u8>, usize)>)
    requires
        pos <= buf@.len(),
    ensures
        match r {
            Some((v, end)) => take_bin(buf@.skip(pos as int)) == Some((v@, end - pos)) && pos < end
                <= buf@.len() && v@.len() <= 65535,
            None => take_bin(buf@.skip(pos as int)) is None,
        },
{
    match read_u16(buf, pos) {
        None => None,
        Some((len, mid)) => {
            if buf.len() - mid >= len as usize {
                let piece = slice_subrange(buf, mid, mid + len as usize);
                let v = slice_to_vec(piece);
                assert(buf@.skip(pos as int).subrange(2, 2 + len as int) =~= buf@.subrange(
                    mid as int,
                    mid as int + len as int,
                ));
                Some((v, mid + len as usize))
            } else {
                None
            }
        },
    }
}

/// The UTF-8 bytes of a Rust string are well-formed UTF-8.
pub proof fn lemma_str_bytes_utf8(s: &str)
    ensures
        utf8_ok(s.spec_bytes()),
{
    reveal(utf8_ok);
    vstd::utf8::encode_utf8_valid_utf8(s@);
}

/// Copies a byte slice into a fresh vector.
pub fn slice_to_vec_u8(s: &[u8]) -> (r: Vec<u8>)
    ensures
        r@ == s@,
{
    slice_to_vec(s)
}

/// Relies on `core::str::from_utf8`: it succeeds exactly on well-formed
/// UTF-8 input, the property `vstd::utf8::valid_utf8` models.
#[verifier::external_body]
pub fn utf8_check(b: &[u8]) -> (r: bool)
    ensures
        r == utf8_ok(b@),
{
    core::str::from_utf8(b).is_ok()
}

/// Reads a length-prefixed string field at `pos`, rejecting bytes that are
/// not valid UTF-8.
pub fn read_str(buf: &[u8], pos: usize) -> (r: Option<(Vec<u8>, usize)>)
    requires
        pos <= buf@.len(),
    ensures
        match r {
            Some((v, end)) => take_str(buf@.skip(pos as int)) == Some((v@, end - pos)) && pos < end
                <= buf@.len() && v@.len() <= 65535 && utf8_ok(v@),
            None => take_str(buf@.skip(pos as int)) is None,
        },
{
    match read_bin(buf, pos) {
        None => None,
        Some((v, end)) => {
            if utf8_check(v.as_slice()) {
                Some((v, end))
            } else {
                None
            }
        },
    }
}

} // verus!
