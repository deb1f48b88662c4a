//! VarInt: 7-bit little-endian continuation encoding of 32-bit values,
//! 1 to 5 bytes. Every byte but the last has its high bit set; the low
//! 7 bits of each byte are base-128 digits, least significant first.

use vstd::prelude::*;

verus! {

/// True when a byte carries the continuation bit (more bytes follow).
pub open spec fn vi_cont(b: u8) -> bool {
    b >= 128
}

/// The 7 payload bits of a byte.
pub open spec fn vi_payload(b: u8) -> nat {
    (b % 128) as nat
}

/// Value of a little-endian base-128 digit string (payload bits only).
pub open spec fn vi_val(s: Seq<u8>) -> nat
    decreases s.len(),
{
    if s.len() == 0 {
        0
    } else {
        vi_payload(s[0]) + 128 * vi_val(s.subrange(1, s.len() as int))
    }
}

/// Index of the first byte without the continuation bit; `s.len()` if none.
pub open spec fn vi_term(s: Seq<u8>) -> int
    decreases s.len(),
{
    if s.len() == 0 {
        0
    } else if !vi_cont(s[0]) {
        0
    } else {
        1 + vi_term(s.subrange(1, s.len() as int))
    }
}

/// A whole VarInt lies at the head of `s`.
pub open spec fn vi_complete(s: Seq<u8>) -> bool {
    vi_term(s) < 5 && vi_term(s) < s.len()
}

/// `s` is a proper prefix of some VarInt: all continuation bytes, under 5.
pub open spec fn vi_incomplete(s: Seq<u8>) -> bool {
    vi_term(s) == s.len() && s.len() < 5
}

/// The head of `s` cannot start a VarInt: 5 continuation bytes.
pub open spec fn vi_malformed(s: Seq<u8>) -> bool {
    vi_term(s) >= 5
}

/// Byte length of the VarInt at the head of `s` (meaningful when complete).
pub open spec fn vi_size(s: Seq<u8>) -> int {
    vi_term(s) + 1
}

/// Value of the VarInt at the head of `s`, truncated to 32 bits.
pub open spec fn vi_value(s: Seq<u8>) -> u32 {
    (vi_val(s.subrange(0, vi_size(s))) % 0x1_0000_0000) as u32
}

/// Canonical (minimal) encoding of a natural number in base-128 digits.
pub open spec fn vi_enc_nat(n: nat) -> Seq<u8>
    decreases n,
{
    if n < 128 {
        seq![n as u8]
    } else {
        seq![(n % 128 + 128) as u8] + vi_enc_nat(n / 128)
    }
}

/// Canonical encoding of a 32-bit value.
pub open spec fn vi_enc(v: u32) -> Seq<u8> {
    vi_enc_nat(v as nat)
}

/// 128 raised to `n`.
pub open spec fn pow128(n: nat) -> nat
    decreases n,
{
    if n == 0 {
        1
    } else {
        128 * pow128((n - 1) as nat)
    }
}

/// The first few powers of 128, spelled out.
pub proof fn lemma_pow128_values()
    ensures
        pow128(0) == 1,
        pow128(1) == 128,
        pow128(2) == 0x4000,
        pow128(3) == 0x20_0000,
        pow128(4) == 0x1000_0000,
        pow128(5) == 0x8_0000_0000,
{
    assert(pow128(0) == 1);
    assert(pow128(1) == 128 * pow128(0));
    assert(pow128(2) == 128 * pow128(1));
    assert(pow128(3) == 128 * pow128(2));
    assert(pow128(4) == 128 * pow128(3));
    assert(pow128(5) == 128 * pow128(4));
}

/// 128^i grows with i (and is at least 1).
pub proof fn lemma_pow128_mono(a: nat, b: nat)
    requires
        a <= b,
    ensures
        1 <= pow128(a) <= pow128(b),
    decreases b,
{
    if b == 0 {
    } else if a == b {
        lemma_pow128_mono(0, (b - 1) as nat);
    } else {
        lemma_pow128_mono(a, (b - 1) as nat);
        assert(pow128((b - 1) as nat) <= 128 * pow128((b - 1) as nat)) by (nonlinear_arith)
            requires
                pow128((b - 1) as nat) >= 1,
        ;
    }
}

pub proof fn lemma_vi_term_bounds(s: Seq<u8>)
    ensures
        0 <= vi_term(s) <= s.len(),
    decreases s.len(),
{
    if s.len() > 0 && vi_cont(s[0]) {
        lemma_vi_term_bounds(s.subrange(1, s.len() as int));
    }
}

/// Appending a digit at the high end adds its weight times 128^len.
pub proof fn lemma_vi_val_snoc(s: Seq<u8>, b: u8)
    ensures
        vi_val(s.push(b)) == vi_val(s) + vi_payload(b) * pow128(s.len()),
    decreases s.len(),
{
    if s.len() == 0 {
        assert(s.push(b) =~= seq![b]);
        assert(seq![b].subrange(1, 1) =~= Seq::<u8>::empty());
        assert(vi_val(Seq::<u8>::empty()) == 0);
        assert(vi_val(seq![b]) == vi_payload(b) + 128 * 0);
        assert(vi_val(s) == 0);
        assert(pow128(s.len()) == 1);
        assert(vi_payload(b) * 1 == vi_payload(b)) by (nonlinear_arith);
    } else {
        let t = s.subrange(1, s.len() as int);
        assert(s.push(b).subrange(1, s.push(b).len() as int) =~= t.push(b));
        lemma_vi_val_snoc(t, b);
        assert(s.push(b)[0] == s[0]);
        assert(vi_val(s.push(b)) == vi_payload(s[0]) + 128 * vi_val(t.push(b)));
        assert(vi_val(t.push(b)) == vi_val(t) + vi_payload(b) * pow128(t.len()));
        assert(pow128(s.len()) == 128 * pow128(t.len()));
        assert(128 * (vi_val(t) + vi_payload(b) * pow128(t.len())) == 128 * vi_val(t)
            + vi_payload(b) * (128 * pow128(t.len()))) by (nonlinear_arith);
        assert(vi_val(s) == vi_payload(s[0]) + 128 * vi_val(t));
    }
}

/// If n < 128^k then the canonical encoding has at most k digits.
proof fn lemma_enc_len_step(n: nat, k: nat)
    requires
        k >= 1,
        n < pow128(k),
    ensures
        vi_enc_nat(n).len() <= k,
    decreases k,
{
    if n >= 128 {
        assert(pow128(k) == 128 * pow128((k - 1) as nat));
        assert(n / 128 < pow128((k - 1) as nat)) by (nonlinear_arith)
            requires
                n < 128 * pow128((k - 1) as nat),
        ;
        lemma_enc_len_step(n / 128, (k - 1) as nat);
    }
}

/// The canonical encoding of any 32-bit value takes 1 to 5 bytes.
pub proof fn lemma_vi_enc_nat_len(n: nat)
    ensures
        1 <= vi_enc_nat(n).len(),
        n < 0x1_0000_0000 ==> vi_enc_nat(n).len() <= 5,
        n < 128 ==> vi_enc_nat(n).len() == 1,
{
    if n < 128 {
    } else {
        assert(vi_enc_nat(n).len() >= 1);
    }
    if n < 0x1_0000_0000 {
        lemma_pow128_values();
        lemma_enc_len_step(n, 5);
    }
}

/// The canonical encoding of `n`, followed by anything, reads back as `n`:
/// the terminator falls on the encoding's last byte and the digits give `n`.
pub proof fn lemma_vi_enc_decodes(n: nat, rest: Seq<u8>)
    ensures
        vi_term(vi_enc_nat(n) + rest) == vi_enc_nat(n).len() - 1,
        vi_val((vi_enc_nat(n) + rest).subrange(0, vi_enc_nat(n).len() as int)) == n,
    decreases n,
{
    let e = vi_enc_nat(n);
    let s = e + rest;
    if n < 128 {
        assert(s[0] == n as u8);
        assert(!vi_cont(s[0]));
        assert(s.subrange(0, 1) =~= seq![n as u8]);
        assert(seq![n as u8].subrange(1, 1) =~= Seq::<u8>::empty());
        assert(vi_val(Seq::<u8>::empty()) == 0);
        assert(vi_val(seq![n as u8]) == vi_payload(n as u8) + 128 * 0);
    } else {
        let e1 = vi_enc_nat(n / 128);
        lemma_vi_enc_decodes(n / 128, rest);
        assert(e =~= seq![(n % 128 + 128) as u8] + e1);
        assert(s.subrange(1, s.len() as int) =~= e1 + rest);
        assert(vi_cont(s[0]));
        assert(vi_term(s) == 1 + vi_term(e1 + rest));
        let inner = (e1 + rest).subrange(0, e1.len() as int);
        assert(s.subrange(0, e.len() as int).subrange(1, e.len() as int) =~= inner);
        assert(vi_val(s.subrange(0, e.len() as int)) == vi_payload(s[0]) + 128 * vi_val(inner));
        assert(vi_payload(s[0]) == n % 128);
        assert(n % 128 + 128 * (n / 128) == n) by (nonlinear_arith);
    }
}

/// Reading a VarInt looks only at its own bytes: if a complete VarInt heads
/// `s`, any extension of `s` reads the same size and value. In particular a
/// VarInt split across two arrivals decodes as if it had arrived whole.
#[verifier::rlimit(50)]
pub proof fn lemma_vi_prefix_stable(s: Seq<u8>, t: Seq<u8>)
    requires
        vi_complete(s),
        s.len() <= t.len(),
        t.subrange(0, s.len() as int) == s,
    ensures
        vi_complete(t),
        vi_size(t) == vi_size(s),
        vi_value(t) == vi_value(s),
    decreases s.len(),
{
    lemma_vi_term_bounds(s);
    lemma_vi_term_bounds(t);
    assert(t[0] == t.subrange(0, s.len() as int)[0]);
    if vi_cont(s[0]) {
        let s1 = s.subrange(1, s.len() as int);
        let t1 = t.subrange(1, t.len() as int);
        assert(t1.subrange(0, s1.len() as int) =~= s1) by {
            assert(forall|i: int|
                0 <= i < s1.len() ==> t1.subrange(0, s1.len() as int)[i] == t.subrange(
                    0,
                    s.len() as int,
                )[i + 1]);
        }
        assert(vi_term(s) == 1 + vi_term(s1));
        assert(vi_complete(s1));
        lemma_vi_prefix_stable(s1, t1);
        assert(vi_term(t) == 1 + vi_term(t1));
        assert(s.subrange(0, vi_size(s)).subrange(1, vi_size(s)) =~= s1.subrange(0, vi_size(s1)));
        assert(t.subrange(0, vi_size(t)).subrange(1, vi_size(t)) =~= t1.subrange(0, vi_size(t1)));
        assert(vi_val(s.subrange(0, vi_size(s))) == vi_payload(s[0]) + 128 * vi_val(s1.subrange(
            0,
            vi_size(s1),
        )));
        assert(vi_val(t.subrange(0, vi_size(t))) == vi_payload(t[0]) + 128 * vi_val(t1.subrange(
            0,
            vi_size(t1),
        )));
        assert(s[0] == s.subrange(0, vi_size(s))[0]);
        assert(t[0] == t.subrange(0, vi_size(t))[0]);
    } else {
        assert(vi_term(s) == 0);
        assert(vi_term(t) == 0);
        assert(s.subrange(0, vi_size(s)) =~= t.subrange(0, vi_size(t)));
    }
}

/// If the first `k` bytes all carry the continuation bit, the terminator is
/// at index `k` or beyond.
proof fn lemma_term_ge_count(s: Seq<u8>, k: int)
    requires
        0 <= k <= s.len(),
        forall|j: int| 0 <= j < k ==> vi_cont(s[j]),
    ensures
        vi_term(s) >= k,
    decreases k,
{
    lemma_vi_term_bounds(s);
    if k > 0 {
        let s1 = s.subrange(1, s.len() as int);
        assert(forall|j: int| 0 <= j < k - 1 ==> s1[j] == s[j + 1]);
        lemma_term_ge_count(s1, k - 1);
    }
}

/// If bytes before `k` carry the continuation bit and byte `k` does not,
/// the terminator is exactly at `k`.
proof fn lemma_term_exact(s: Seq<u8>, k: int)
    requires
        0 <= k < s.len(),
        forall|j: int| 0 <= j < k ==> vi_cont(s[j]),
        !vi_cont(s[k]),
    ensures
        vi_term(s) == k,
    decreases k,
{
    if k > 0 {
        let s1 = s.subrange(1, s.len() as int);
        assert(forall|j: int| 0 <= j < k - 1 ==> s1[j] == s[j + 1]);
        assert(s1[k - 1] == s[k]);
        lemma_term_exact(s1, k - 1);
    }
}

/// Outcome of peeking for a VarInt at the head of buffered bytes.
pub enum VarIntPeek {
    /// A whole VarInt was read: its value and its byte length.
    Done(u32, usize),
    /// More bytes are needed before the VarInt is whole.
    More,
    /// Five continuation bytes: no valid VarInt can start here.
    Bad,
}

/// Read the VarInt at offset `start` of `buf`, if one is whole there.
pub fn varint_peek(buf: &Vec<u8>, start: usize) -> (r: VarIntPeek)
    requires
        start <= buf@.len(),
    ensures
        ({
            let s = buf@.subrange(start as int, buf@.len() as int);
            match r {
                VarIntPeek::Done(v, n) => vi_complete(s) && n == vi_size(s) && v == vi_value(s),
                VarIntPeek::More => vi_incomplete(s),
                VarIntPeek::Bad => vi_malformed(s),
            }
        }),
{
    let ghost s = buf@.subrange(start as int, buf@.len() as int);
    let mut i: usize = 0;
    let mut acc: u64 = 0;
    loop
        invariant
            start <= buf@.len(),
            s == buf@.subrange(start as int, buf@.len() as int),
            i <= 5,
            i <= s.len(),
            forall|j: int| 0 <= j < i ==> vi_cont(s[j]),
            acc == vi_val(s.subrange(0, i as int)),
            acc < pow128(i as nat),
        decreases 5 - i,
    {
        if i == 5 {
            proof {
                lemma_term_ge_count(s, 5);
            }
            return VarIntPeek::Bad;
        }
        if i >= buf.len() - start {
            proof {
                lemma_term_ge_count(s, i as int);
                lemma_vi_term_bounds(s);
                assert(s.len() == i);
            }
            return VarIntPeek::More;
        }
        let b = buf[start + i];
        proof {
            assert(s[i as int] == b);
            lemma_vi_val_snoc(s.subrange(0, i as int), b);
            assert(s.subrange(0, i as int).push(b) =~= s.subrange(0, i + 1));
            lemma_pow128_values();
            lemma_pow128_mono(i as nat, 4);
            assert(vi_payload(b) * pow128(i as nat) <= 127 * 0x1000_0000) by (nonlinear_arith)
                requires
                    vi_payload(b) <= 127,
                    pow128(i as nat) <= 0x1000_0000,
            ;
            assert(acc + vi_payload(b) * pow128(i as nat) < 128 * pow128(i as nat))
                by (nonlinear_arith)
                requires
                    acc < pow128(i as nat),
                    vi_payload(b) <= 127,
            ;
            assert(pow128((i + 1) as nat) == 128 * pow128(i as nat));
        }
        let p: u64 = (b % 128) as u64;
        let w: u64 = pow128_exec(i);
        acc = acc + p * w;
        if b < 128 {
            proof {
                lemma_term_exact(s, i as int);
                assert(s.subrange(0, vi_size(s)) =~= s.subrange(0, i + 1));
            }
            return VarIntPeek::Done((acc % 0x1_0000_0000) as u32, i + 1);
        }
        i = i + 1;
    }
}

/// 128^i for i <= 4, executable.
fn pow128_exec(i: usize) -> (r: u64)
    requires
        i <= 4,
    ensures
        r == pow128(i as nat),
{
    proof {
        lemma_pow128_values();
    }
    if i == 0 {
        1
    } else if i == 1 {
        128
    } else if i == 2 {
        0x4000
    } else if i == 3 {
        0x20_0000
    } else {
        0x1000_0000
    }
}

/// Encode a 32-bit value as a VarInt.
pub fn varint_encode(v: u32) -> (r: Vec<u8>)
    ensures
        r@ == vi_enc(v),
        1 <= r@.len() <= 5,
{
    let mut out: Vec<u8> = Vec::new();
    let mut n: u32 = v;
    proof {
        assert(out@ + vi_enc_nat(n as nat) =~= vi_enc_nat(v as nat));
    }
    loop
        invariant_except_break
            vi_enc_nat(v as nat) == out@ + vi_enc_nat(n as nat),
        ensures
            out@ == vi_enc_nat(v as nat),
        decreases n,
    {
        if n < 128 {
            out.push(n as u8);
            proof {
                assert(vi_enc_nat(n as nat) =~= seq![n as u8]);
                assert(out@ =~= vi_enc_nat(v as nat));
            }
            break;
        } else {
            let ghost n0 = n as nat;
            out.push(((n % 128) + 128) as u8);
            n = n / 128;
            proof {
                assert(out@ + vi_enc_nat(n as nat) =~= vi_enc_nat(v as nat));
            }
        }
    }
    proof {
        lemma_vi_enc_nat_len(v as nat);
    }
    out
}

/// Round trip: the canonical encoding of `v` reads back as `v`, whatever
/// follows it in the buffer.
pub proof fn lemma_varint_round_trip(v: u32, rest: Seq<u8>)
    ensures
        vi_complete(vi_enc(v) + rest),
        vi_size(vi_enc(v) + rest) == vi_enc(v).len(),
        vi_value(vi_enc(v) + rest) == v,
{
    lemma_vi_enc_decodes(v as nat, rest);
    lemma_vi_enc_nat_len(v as nat);
    let s = vi_enc(v) + rest;
    assert(vi_val(s.subrange(0, vi_enc(v).len() as int)) == v as nat);
    assert((v as nat) % 0x1_0000_0000 == v as nat);
}

} // verus!
