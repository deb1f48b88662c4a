//! Wire primitives shared by all packet bodies: big-endian fixed-width
//! integers, booleans, VarInts and length-prefixed UTF-8 strings, each with
//! a spec-level encoder and positional decoder and the lemmas tying the two
//! together.

use vstd::prelude::*;

use crate::varint::{
    lemma_varint_round_trip, varint_encode, varint_peek, vi_complete, vi_enc, vi_size, vi_value,
    VarIntPeek,
};
use vstd::utf8::{decode_utf8, encode_utf8, encode_utf8_decode_utf8, encode_utf8_valid_utf8,
    valid_utf8};

verus! {

// ---------------------------------------------------------------------------
// spec encoders
// ---------------------------------------------------------------------------
pub open spec fn enc_u8(v: u8) -> Seq<u8> {
    seq![v]
}

pub open spec fn enc_u16(v: u16) -> Seq<u8> {
    seq![(v / 256) as u8, (v % 256) as u8]
}

pub open spec fn enc_u32(v: u32) -> Seq<u8> {
    seq![
        (v / 0x100_0000) as u8,
        ((v / 0x1_0000) % 256) as u8,
        ((v / 256) % 256) as u8,
        (v % 256) as u8,
    ]
}

pub open spec fn enc_i8(v: i8) -> Seq<u8> {
    enc_u8(v as u8)
}

pub open spec fn enc_i16(v: i16) -> Seq<u8> {
    enc_u16(v as u16)
}

pub open spec fn enc_i32(v: i32) -> Seq<u8> {
    enc_u32(v as u32)
}

pub open spec fn enc_bool(v: bool) -> Seq<u8> {
    seq![if v { 1u8 } else { 0u8 }]
}

/// VarInt encoding of a signed 32-bit value (two's-complement bit pattern).
pub open spec fn enc_svi(v: i32) -> Seq<u8> {
    vi_enc(v as u32)
}

/// A string's UTF-8 bytes fit in a non-negative VarInt length.
pub open spec fn str_fits(s: Seq<char>) -> bool {
    encode_utf8(s).len() <= 0x7FFF_FFFF
}

/// Length-prefixed UTF-8: VarInt byte count, then the bytes.
pub open spec fn enc_str(s: Seq<char>) -> Seq<u8> {
    vi_enc(encode_utf8(s).len() as u32) + encode_utf8(s)
}

// ---------------------------------------------------------------------------
// spec decoders: position `pos` into `s`, result value and next position
// ---------------------------------------------------------------------------
pub open spec fn dec_u8(s: Seq<u8>, pos: int) -> Option<(u8, int)> {
    if 0 <= pos && pos + 1 <= s.len() {
        Some((s[pos], pos + 1))
    } else {
        None
    }
}

pub open spec fn dec_u16(s: Seq<u8>, pos: int) -> Option<(u16, int)> {
    if 0 <= pos && pos + 2 <= s.len() {
        Some(((s[pos] * 256 + s[pos + 1]) as u16, pos + 2))
    } else {
        None
    }
}

pub open spec fn dec_u32(s: Seq<u8>, pos: int) -> Option<(u32, int)> {
    if 0 <= pos && pos + 4 <= s.len() {
        Some(
            (
                (s[pos] * 0x100_0000 + s[pos + 1] * 0x1_0000 + s[pos + 2] * 256 + s[pos
                    + 3]) as u32,
                pos + 4,
            ),
        )
    } else {
        None
    }
}

pub open spec fn dec_i8(s: Seq<u8>, pos: int) -> Option<(i8, int)> {
    match dec_u8(s, pos) {
        Some((v, p)) => Some((v as i8, p)),
        None => None,
    }
}

pub open spec fn dec_i16(s: Seq<u8>, pos: int) -> Option<(i16, int)> {
    match dec_u16(s, pos) {
        Some((v, p)) => Some((v as i16, p)),
        None => None,
    }
}

pub open spec fn dec_i32(s: Seq<u8>, pos: int) -> Option<(i32, int)> {
    match dec_u32(s, pos) {
        Some((v, p)) => Some((v as i32, p)),
        None => None,
    }
}

pub open spec fn dec_bool(s: Seq<u8>, pos: int) -> Option<(bool, int)> {
    match dec_u8(s, pos) {
        Some((v, p)) => Some((v != 0, p)),
        None => None,
    }
}

/// VarInt at `pos`, unsigned view.
pub open spec fn dec_vi(s: Seq<u8>, pos: int) -> Option<(u32, int)> {
    if 0 <= pos <= s.len() {
        let t = s.subrange(pos, s.len() as int);
        if vi_complete(t) {
            Some((vi_value(t), pos + vi_size(t)))
        } else {
            None
        }
    } else {
        None
    }
}

/// VarInt at `pos`, signed view.
pub open spec fn dec_svi(s: Seq<u8>, pos: int) -> Option<(i32, int)> {
    match dec_vi(s, pos) {
        Some((v, p)) => Some((v as i32, p)),
        None => None,
    }
}

pub open spec fn dec_str(s: Seq<u8>, pos: int) -> Option<(Seq<char>, int)> {
    match dec_vi(s, pos) {
        Some((n, p)) => {
            if n <= 0x7FFF_FFFF && p + n <= s.len() {
                let bs = s.subrange(p, p + n);
                if valid_utf8(bs) {
                    Some((decode_utf8(bs), p + n))
                } else {
                    None
                }
            } else {
                None
            }
        },
        None => None,
    }
}

// ---------------------------------------------------------------------------
// parse-of-encode lemmas
// ---------------------------------------------------------------------------
/// Reassembling a 16-bit value from its big-endian digits gives it back.
pub proof fn lemma_u16_digits(v: u16)
    ensures
        (v / 256) * 256 + (v % 256) == v,
        v / 256 < 256,
{
}

/// Reassembling a 32-bit value from its big-endian digits gives it back.
pub proof fn lemma_u32_digits(v: u32)
    ensures
        (v / 0x100_0000) * 0x100_0000 + ((v / 0x1_0000) % 256) * 0x1_0000 + ((v / 256) % 256)
            * 256 + (v % 256) == v,
        v / 0x100_0000 < 256,
{
    assert((v / 0x100_0000) * 0x100_0000 + ((v / 0x1_0000) % 256) * 0x1_0000 + ((v / 256) % 256)
        * 256 + (v % 256) == v) by (nonlinear_arith);
}

/// A byte written at `pos` reads back as written.
pub proof fn lemma_dec_u8_enc(s: Seq<u8>, pos: int, v: u8)
    requires
        0 <= pos,
        pos + 1 <= s.len(),
        s.subrange(pos, pos + 1) == enc_u8(v),
    ensures
        dec_u8(s, pos) == Some((v, pos + 1)),
{
    assert(s[pos] == s.subrange(pos, pos + 1)[0]);
}

/// A 16-bit value written at `pos` reads back as written.
pub proof fn lemma_dec_u16_enc(s: Seq<u8>, pos: int, v: u16)
    requires
        0 <= pos,
        pos + 2 <= s.len(),
        s.subrange(pos, pos + 2) == enc_u16(v),
    ensures
        dec_u16(s, pos) == Some((v, pos + 2)),
{
    assert(s[pos] == s.subrange(pos, pos + 2)[0]);
    assert(s[pos + 1] == s.subrange(pos, pos + 2)[1]);
    lemma_u16_digits(v);
}

/// A 32-bit value written at `pos` reads back as written.
pub proof fn lemma_dec_u32_enc(s: Seq<u8>, pos: int, v: u32)
    requires
        0 <= pos,
        pos + 4 <= s.len(),
        s.subrange(pos, pos + 4) == enc_u32(v),
    ensures
        dec_u32(s, pos) == Some((v, pos + 4)),
{
    assert(s[pos] == s.subrange(pos, pos + 4)[0]);
    assert(s[pos + 1] == s.subrange(pos, pos + 4)[1]);
    assert(s[pos + 2] == s.subrange(pos, pos + 4)[2]);
    assert(s[pos + 3] == s.subrange(pos, pos + 4)[3]);
    lemma_u32_digits(v);
}

/// A signed byte written at `pos` reads back as written.
pub proof fn lemma_dec_i8_enc(s: Seq<u8>, pos: int, v: i8)
    requires
        0 <= pos,
        pos + 1 <= s.len(),
        s.subrange(pos, pos + 1) == enc_i8(v),
    ensures
        dec_i8(s, pos) == Some((v, pos + 1)),
{
    lemma_dec_u8_enc(s, pos, v as u8);
    assert((v as u8) as i8 == v) by (bit_vector);
}

/// A signed 16-bit value written at `pos` reads back as written.
pub proof fn lemma_dec_i16_enc(s: Seq<u8>, pos: int, v: i16)
    requires
        0 <= pos,
        pos + 2 <= s.len(),
        s.subrange(pos, pos + 2) == enc_i16(v),
    ensures
        dec_i16(s, pos) == Some((v, pos + 2)),
{
    lemma_dec_u16_enc(s, pos, v as u16);
    assert((v as u16) as i16 == v) by (bit_vector);
}

/// A signed 32-bit value written at `pos` reads back as written.
pub proof fn lemma_dec_i32_enc(s: Seq<u8>, pos: int, v: i32)
    requires
        0 <= pos,
        pos + 4 <= s.len(),
        s.subrange(pos, pos + 4) == enc_i32(v),
    ensures
        dec_i32(s, pos) == Some((v, pos + 4)),
{
    lemma_dec_u32_enc(s, pos, v as u32);
    assert((v as u32) as i32 == v) by (bit_vector);
}

/// A boolean written at `pos` reads back as written.
pub proof fn lemma_dec_bool_enc(s: Seq<u8>, pos: int, v: bool)
    requires
        0 <= pos,
        pos + 1 <= s.len(),
        s.subrange(pos, pos + 1) == enc_bool(v),
    ensures
        dec_bool(s, pos) == Some((v, pos + 1)),
{
    assert(s[pos] == s.subrange(pos, pos + 1)[0]);
}

/// A VarInt written at `pos` reads back as written.
pub proof fn lemma_dec_vi_enc(s: Seq<u8>, pos: int, v: u32)
    requires
        0 <= pos,
        pos + vi_enc(v).len() <= s.len(),
        s.subrange(pos, pos + vi_enc(v).len()) == vi_enc(v),
    ensures
        dec_vi(s, pos) == Some((v, pos + vi_enc(v).len())),
{
    let t = s.subrange(pos, s.len() as int);
    let e = vi_enc(v);
    let rest = s.subrange(pos + e.len(), s.len() as int);
    assert(t =~= e + rest);
    lemma_varint_round_trip(v, rest);
}

/// A signed VarInt written at `pos` reads back as written.
pub proof fn lemma_dec_svi_enc(s: Seq<u8>, pos: int, v: i32)
    requires
        0 <= pos,
        pos + enc_svi(v).len() <= s.len(),
        s.subrange(pos, pos + enc_svi(v).len()) == enc_svi(v),
    ensures
        dec_svi(s, pos) == Some((v, pos + enc_svi(v).len())),
{
    lemma_dec_vi_enc(s, pos, v as u32);
    assert((v as u32) as i32 == v) by (bit_vector);
}

/// A string written at `pos` reads back as written.
pub proof fn lemma_dec_str_enc(s: Seq<u8>, pos: int, cs: Seq<char>)
    requires
        0 <= pos,
        str_fits(cs),
        pos + enc_str(cs).len() <= s.len(),
        s.subrange(pos, pos + enc_str(cs).len()) == enc_str(cs),
    ensures
        dec_str(s, pos) == Some((cs, pos + enc_str(cs).len())),
{
    let bs = encode_utf8(cs);
    let n = bs.len() as u32;
    let e = vi_enc(n);
    assert(s.subrange(pos, pos + e.len()) =~= e) by {
        assert(forall|i: int|
            0 <= i < e.len() ==> s.subrange(pos, pos + enc_str(cs).len())[i] == enc_str(cs)[i]);
    }
    lemma_dec_vi_enc(s, pos, n);
    let p = pos + e.len();
    assert(s.subrange(p, p + bs.len()) =~= bs) by {
        assert(forall|i: int|
            0 <= i < bs.len() ==> #[trigger] s.subrange(p, p + bs.len())[i] == s.subrange(
                pos,
                pos + enc_str(cs).len(),
            )[e.len() + i]);
    }
    encode_utf8_valid_utf8(cs);
    encode_utf8_decode_utf8(cs);
}

// ---------------------------------------------------------------------------
// exec writers: append one field to an output buffer
// ---------------------------------------------------------------------------
pub fn wr_u8(out: &mut Vec<u8>, v: u8)
    ensures
        final(out)@ == old(out)@ + enc_u8(v),
{
    out.push(v);
    proof {
        assert(out@ =~= old(out)@ + enc_u8(v));
    }
}

pub fn wr_u16(out: &mut Vec<u8>, v: u16)
    ensures
        final(out)@ == old(out)@ + enc_u16(v),
{
    out.push((v / 256) as u8);
    out.push((v % 256) as u8);
    proof {
        assert(out@ =~= old(out)@ + enc_u16(v));
    }
}

pub fn wr_u32(out: &mut Vec<u8>, v: u32)
    ensures
        final(out)@ == old(out)@ + enc_u32(v),
{
    out.push((v / 0x100_0000) as u8);
    out.push(((v / 0x1_0000) % 256) as u8);
    out.push(((v / 256) % 256) as u8);
    out.push((v % 256) as u8);
    proof {
        assert(out@ =~= old(out)@ + enc_u32(v));
    }
}

pub fn wr_i8(out: &mut Vec<u8>, v: i8)
    ensures
        final(out)@ == old(out)@ + enc_i8(v),
{
    wr_u8(out, v as u8);
}

pub fn wr_i16(out: &mut Vec<u8>, v: i16)
    ensures
        final(out)@ == old(out)@ + enc_i16(v),
{
    wr_u16(out, v as u16);
}

pub fn wr_i32(out: &mut Vec<u8>, v: i32)
    ensures
        final(out)@ == old(out)@ + enc_i32(v),
{
    wr_u32(out, v as u32);
}

pub fn wr_bool(out: &mut Vec<u8>, v: bool)
    ensures
        final(out)@ == old(out)@ + enc_bool(v),
{
    out.push(if v { 1 } else { 0 });
    proof {
        assert(out@ =~= old(out)@ + enc_bool(v));
    }
}

pub fn wr_vi(out: &mut Vec<u8>, v: u32)
    ensures
        final(out)@ == old(out)@ + vi_enc(v),
{
    let mut e = varint_encode(v);
    out.append(&mut e);
}

pub fn wr_svi(out: &mut Vec<u8>, v: i32)
    ensures
        final(out)@ == old(out)@ + enc_svi(v),
{
    wr_vi(out, v as u32);
}

/// Relies on `str::as_bytes` (specified by vstd): a string's UTF-8 bytes.
pub fn wr_str(out: &mut Vec<u8>, s: &String)
    requires
        str_fits(s@),
    ensures
        final(out)@ == old(out)@ + enc_str(s@),
{
    let bs: &[u8] = s.as_str().as_bytes();
    wr_vi(out, bs.len() as u32);
    out.extend_from_slice(bs);
    proof {
        assert(out@ =~= old(out)@ + enc_str(s@));
    }
}

// ---------------------------------------------------------------------------
// exec readers
// ---------------------------------------------------------------------------
pub fn rd_u8(b: &Vec<u8>, pos: usize) -> (r: Option<(u8, usize)>)
    ensures
        r is Some <==> dec_u8(b@, pos as int) is Some,
        r matches Some(x) ==> dec_u8(b@, pos as int) == Some((x.0, x.1 as int)),
{
    if pos < b.len() {
        Some((b[pos], pos + 1))
    } else {
        None
    }
}

pub fn rd_u16(b: &Vec<u8>, pos: usize) -> (r: Option<(u16, usize)>)
    ensures
        r is Some <==> dec_u16(b@, pos as int) is Some,
        r matches Some(x) ==> dec_u16(b@, pos as int) == Some((x.0, x.1 as int)),
{
    if pos < b.len() && b.len() - pos >= 2 {
        let hi = b[pos] as u16;
        let lo = b[pos + 1] as u16;
        Some((hi * 256 + lo, pos + 2))
    } else {
        None
    }
}

pub fn rd_u32(b: &Vec<u8>, pos: usize) -> (r: Option<(u32, usize)>)
    ensures
        r is Some <==> dec_u32(b@, pos as int) is Some,
        r matches Some(x) ==> dec_u32(b@, pos as int) == Some((x.0, x.1 as int)),
{
    if pos < b.len() && b.len() - pos >= 4 {
        let b0 = b[pos] as u32;
        let b1 = b[pos + 1] as u32;
        let b2 = b[pos + 2] as u32;
        let b3 = b[pos + 3] as u32;
        Some((b0 * 0x100_0000 + b1 * 0x1_0000 + b2 * 256 + b3, pos + 4))
    } else {
        None
    }
}

pub fn rd_i8(b: &Vec<u8>, pos: usize) -> (r: Option<(i8, usize)>)
    ensures
        r is Some <==> dec_i8(b@, pos as int) is Some,
        r matches Some(x) ==> dec_i8(b@, pos as int) == Some((x.0, x.1 as int)),
{
    match rd_u8(b, pos) {
        Some((v, p)) => Some((v as i8, p)),
        None => None,
    }
}

pub fn rd_i16(b: &Vec<u8>, pos: usize) -> (r: Option<(i16, usize)>)
    ensures
        r is Some <==> dec_i16(b@, pos as int) is Some,
        r matches Some(x) ==> dec_i16(b@, pos as int) == Some((x.0, x.1 as int)),
{
    match rd_u16(b, pos) {
        Some((v, p)) => Some((v as i16, p)),
        None => None,
    }
}

pub fn rd_i32(b: &Vec<u8>, pos: usize) -> (r: Option<(i32, usize)>)
    ensures
        r is Some <==> dec_i32(b@, pos as int) is Some,
        r matches Some(x) ==> dec_i32(b@, pos as int) == Some((x.0, x.1 as int)),
{
    match rd_u32(b, pos) {
        Some((v, p)) => Some((v as i32, p)),
        None => None,
    }
}

pub fn rd_bool(b: &Vec<u8>, pos: usize) -> (r: Option<(bool, usize)>)
    ensures
        r is Some <==> dec_bool(b@, pos as int) is Some,
        r matches Some(x) ==> dec_bool(b@, pos as int) == Some((x.0, x.1 as int)),
{
    match rd_u8(b, pos) {
        Some((v, p)) => Some((v != 0, p)),
        None => None,
    }
}

pub fn rd_vi(b: &Vec<u8>, pos: usize) -> (r: Option<(u32, usize)>)
    ensures
        r is Some <==> dec_vi(b@, pos as int) is Some,
        r matches Some(x) ==> dec_vi(b@, pos as int) == Some((x.0, x.1 as int)),
{
    if pos > b.len() {
        return None;
    }
    match varint_peek(b, pos) {
        VarIntPeek::Done(v, n) => Some((v, pos + n)),
        VarIntPeek::More => None,
        VarIntPeek::Bad => None,
    }
}

pub fn rd_svi(b: &Vec<u8>, pos: usize) -> (r: Option<(i32, usize)>)
    ensures
        r is Some <==> dec_svi(b@, pos as int) is Some,
        r matches Some(x) ==> dec_svi(b@, pos as int) == Some((x.0, x.1 as int)),
{
    match rd_vi(b, pos) {
        Some((v, p)) => Some((v as i32, p)),
        None => None,
    }
}

/// Copy `b[i..j]` into a fresh vector.
pub fn subvec(b: &Vec<u8>, i: usize, j: usize) -> (r: Vec<u8>)
    requires
        i <= j <= b@.len(),
    ensures
        r@ == b@.subrange(i as int, j as int),
{
    let mut out: Vec<u8> = Vec::new();
    let mut k: usize = i;
    proof {
        assert(out@ =~= b@.subrange(i as int, i as int));
    }
    while k < j
        invariant
            i <= k <= j <= b@.len(),
            out@ == b@.subrange(i as int, k as int),
        decreases j - k,
    {
        out.push(b[k]);
        proof {
            assert(out@ =~= b@.subrange(i as int, k + 1));
        }
        k = k + 1;
    }
    out
}

/// Relies on `String::from_utf8`: returns the string with exactly the given
/// UTF-8 bytes when they are valid UTF-8, and nothing otherwise.
#[verifier::external_body]
fn bytes_to_string(v: Vec<u8>) -> (r: Option<String>)
    ensures
        r is Some <==> valid_utf8(v@),
        r matches Some(s) ==> encode_utf8(s@) == v@ && valid_utf8(v@),
{
    String::from_utf8(v).ok()
}

pub fn rd_str(b: &Vec<u8>, pos: usize) -> (r: Option<(String, usize)>)
    ensures
        r is Some <==> dec_str(b@, pos as int) is Some,
        r matches Some(x) ==> dec_str(b@, pos as int) matches Some(y) && x.0@ == y.0 && x.1
            == y.1,
{
    match rd_vi(b, pos) {
        Some((n, p)) => {
            proof {
                assert(p <= b@.len());
            }
            if n <= 0x7FFF_FFFF && (n as usize) <= b.len() - p {
                let end = p + (n as usize);
                let bs = subvec(b, p, end);
                match bytes_to_string(bs) {
                    Some(s) => {
                        proof {
                            encode_utf8_decode_utf8(s@);
                        }
                        Some((s, end))
                    },
                    None => None,
                }
            } else {
                None
            }
        },
        None => None,
    }
}

} // verus!
