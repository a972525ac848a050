//! Permissive UTF-8 decoding of one code point, and encoding of one scalar value.
//!
//! The decoder accepts the historical sequence lengths 1 to 6 and does not look
//! at the high bits of continuation bytes: malformed input yields some number,
//! never an error. Only a sequence that is cut short is refused.

use vstd::prelude::*;

verus! {

/// Length of the sequence that a leading byte announces.
pub open spec fn seq_len(b0: u8) -> nat {
    if b0 < 0xC0 {
        1
    } else if b0 < 0xE0 {
        2
    } else if b0 < 0xF0 {
        3
    } else if b0 < 0xF8 {
        4
    } else if b0 < 0xFC {
        5
    } else if b0 < 0xFE {
        6
    } else {
        1
    }
}

/// The payload bits of a leading byte, as a number.
pub open spec fn lead_value(b0: u8) -> nat {
    let l = seq_len(b0);
    if l == 1 {
        (b0 % 128) as nat
    } else if l == 2 {
        (b0 % 32) as nat
    } else if l == 3 {
        (b0 % 16) as nat
    } else if l == 4 {
        (b0 % 8) as nat
    } else if l == 5 {
        (b0 % 4) as nat
    } else {
        (b0 % 2) as nat
    }
}

/// The number spelled by the first `l` bytes of `bs`: the leading byte's
/// payload, then six bits from each following byte.
pub open spec fn code_point(bs: Seq<u8>, l: nat) -> nat
    decreases l,
{
    if l <= 1 {
        lead_value(bs[0])
    } else {
        code_point(bs, (l - 1) as nat) * 64 + (bs[l - 1] % 64) as nat
    }
}

/// What `decode` returns: nothing for an empty or truncated input, else the
/// code point and the number of bytes it took.
pub open spec fn spec_decode(bs: Seq<u8>) -> Option<(u32, usize)> {
    if bs.len() == 0 || seq_len(bs[0]) > bs.len() {
        None
    } else {
        Some((code_point(bs, seq_len(bs[0])) as u32, seq_len(bs[0]) as usize))
    }
}

/// Upper bound of `code_point` by the number of payload bits consumed.
pub open spec fn bound(l: nat, k: nat) -> nat
    decreases k,
{
    if k <= 1 {
        if l == 1 {
            128
        } else if l == 2 {
            32
        } else if l == 3 {
            16
        } else if l == 4 {
            8
        } else if l == 5 {
            4
        } else {
            2
        }
    } else {
        bound(l, (k - 1) as nat) * 64
    }
}

/// A decoded number stays below the bound of its length class.
pub proof fn lemma_code_point_bound(bs: Seq<u8>, k: nat)
    requires
        bs.len() > 0,
    ensures
        code_point(bs, k) < bound(seq_len(bs[0]), k),
    decreases k,
{
    if k > 1 {
        lemma_code_point_bound(bs, (k - 1) as nat);
    }
}

/// Every decoded code point fits in 31 bits.
pub proof fn lemma_code_point_fits(bs: Seq<u8>)
    requires
        bs.len() > 0,
    ensures
        code_point(bs, seq_len(bs[0])) < 0x8000_0000,
{
    let l = seq_len(bs[0]);
    lemma_code_point_bound(bs, l);
    reveal_with_fuel(bound, 7);
}

fn sequence_length(b0: u8) -> (l: usize)
    ensures
        l == seq_len(b0),
        1 <= l <= 6,
{
    if b0 < 0xC0 {
        1
    } else if b0 < 0xE0 {
        2
    } else if b0 < 0xF0 {
        3
    } else if b0 < 0xF8 {
        4
    } else if b0 < 0xFC {
        5
    } else if b0 < 0xFE {
        6
    } else {
        1
    }
}

fn lead_mask(l: usize) -> (m: u8)
    requires
        1 <= l <= 6,
    ensures
        l == 1 ==> m == 0x7F,
        l == 2 ==> m == 0x1F,
        l == 3 ==> m == 0x0F,
        l == 4 ==> m == 0x07,
        l == 5 ==> m == 0x03,
        l == 6 ==> m == 0x01,
{
    if l == 1 {
        0x7F
    } else if l == 2 {
        0x1F
    } else if l == 3 {
        0x0F
    } else if l == 4 {
        0x07
    } else if l == 5 {
        0x03
    } else {
        0x01
    }
}

proof fn lemma_masks(b: u8)
    ensures
        b & 0x7F == b % 128,
        b & 0x3F == b % 64,
        b & 0x1F == b % 32,
        b & 0x0F == b % 16,
        b & 0x07 == b % 8,
        b & 0x03 == b % 4,
        b & 0x01 == b % 2,
{
    assert(b & 0x7F == b % 128 && b & 0x3F == b % 64 && b & 0x1F == b % 32 && b & 0x0F == b % 16
        && b & 0x07 == b % 8 && b & 0x03 == b % 4 && b & 0x01 == b % 2) by (bit_vector);
}

proof fn lemma_shift_in(x: u32, c: u32)
    requires
        x < 0x200_0000,
        c < 64,
    ensures
        (x << 6) | c == x * 64 + c,
{
    assert((x << 6) | c == x * 64 + c) by (bit_vector)
        requires
            x < 0x200_0000,
            c < 64,
    ;
}

/// Decodes one code point from the front of `bs`.
///
/// Returns `None` when `bs` is empty or shorter than the sequence its first
/// byte announces; otherwise the code point and the sequence length (1 to 6).
pub fn decode(bs: &[u8]) -> (r: Option<(u32, usize)>)
    ensures
        r == spec_decode(bs@),
        r is Some ==> 1 <= r.unwrap().1 <= 6 && r.unwrap().1 <= bs@.len() && r.unwrap().0
            < 0x8000_0000,
{
    let n = bs.len();
    if n == 0 {
        return None;
    }
    let b0 = bs[0];
    let l = sequence_length(b0);
    if l > n {
        return None;
    }
    let mut x: u32 = (b0 & lead_mask(l)) as u32;
    proof {
        lemma_masks(b0);
        lemma_code_point_fits(bs@);
    }
    let mut i: usize = 1;
    while i < l
        invariant
            1 <= i <= l <= 6,
            l <= n,
            n == bs@.len(),
            l == seq_len(bs@[0]),
            x == code_point(bs@, i as nat),
        decreases l - i,
    {
        let b = bs[i];
        proof {
            lemma_masks(b);
            lemma_code_point_bound(bs@, i as nat);
            reveal_with_fuel(bound, 7);
            lemma_shift_in(x, (b & 0x3F) as u32);
        }
        x = (x << 6) | ((b & 0x3F) as u32);
        i = i + 1;
    }
    Some((x, l))
}

/// The UTF-8 bytes of a scalar value.
pub open spec fn spec_encode(c: u32) -> Seq<u8> {
    if c < 0x80 {
        seq![c as u8]
    } else if c < 0x800 {
        seq![(0xC0 + c / 64) as u8, (0x80 + c % 64) as u8]
    } else if c < 0x10000 {
        seq![(0xE0 + c / 4096) as u8, (0x80 + (c / 64) % 64) as u8, (0x80 + c % 64) as u8]
    } else {
        seq![
            (0xF0 + c / 262144) as u8,
            (0x80 + (c / 4096) % 64) as u8,
            (0x80 + (c / 64) % 64) as u8,
            (0x80 + c % 64) as u8,
        ]
    }
}

/// Appends the UTF-8 encoding of `ch` to `out`.
pub fn encode(ch: char, out: &mut Vec<u8>)
    ensures
        final(out)@ == old(out)@ + spec_encode(ch as u32),
{
    let c: u32 = ch as u32;
    if c < 0x80 {
        out.push(c as u8);
    } else if c < 0x800 {
        out.push((0xC0 + c / 64) as u8);
        out.push((0x80 + c % 64) as u8);
    } else if c < 0x10000 {
        out.push((0xE0 + c / 4096) as u8);
        out.push((0x80 + (c / 64) % 64) as u8);
        out.push((0x80 + c % 64) as u8);
    } else {
        out.push((0xF0 + c / 262144) as u8);
        out.push((0x80 + (c / 4096) % 64) as u8);
        out.push((0x80 + (c / 64) % 64) as u8);
        out.push((0x80 + c % 64) as u8);
    }
    assert(out@ =~= old(out)@ + spec_encode(c));
}

/// Decoding what `encode` wrote gives the scalar back, with its length.
pub proof fn lemma_decode_encode(c: u32)
    requires
        c <= 0x10FFFF,
    ensures
        spec_decode(spec_encode(c)) == Some((c, spec_encode(c).len() as usize)),
{
    let bs = spec_encode(c);
    let b0 = bs[0];
    if c < 0x80 {
        assert(b0 == c);
        assert(code_point(bs, 1) == c);
    } else if c < 0x800 {
        let hi = c / 64;
        assert(b0 == 0xC0 + hi && hi < 32);
        assert(seq_len(b0) == 2);
        assert(lead_value(b0) == hi);
        assert(code_point(bs, 1) == hi);
        assert(bs[1] % 64 == c % 64);
        assert(code_point(bs, 2) == hi * 64 + c % 64);
    } else if c < 0x10000 {
        let hi = c / 4096;
        let mid = (c / 64) % 64;
        assert(b0 == 0xE0 + hi && hi < 16);
        assert(seq_len(b0) == 3);
        assert(lead_value(b0) == hi);
        assert(code_point(bs, 1) == hi);
        assert(bs[1] % 64 == mid);
        assert(code_point(bs, 2) == hi * 64 + mid);
        assert(hi * 64 + mid == c / 64);
        assert(bs[2] % 64 == c % 64);
        assert(code_point(bs, 3) == (c / 64) * 64 + c % 64);
    } else {
        let hi = c / 262144;
        let m1 = (c / 4096) % 64;
        let m2 = (c / 64) % 64;
        assert(b0 == 0xF0 + hi && hi < 8);
        assert(seq_len(b0) == 4);
        assert(lead_value(b0) == hi);
        assert(code_point(bs, 1) == hi);
        assert(bs[1] % 64 == m1);
        assert(code_point(bs, 2) == hi * 64 + m1);
        assert(hi * 64 + m1 == c / 4096);
        assert(bs[2] % 64 == m2);
        assert(code_point(bs, 3) == (c / 4096) * 64 + m2);
        assert((c / 4096) * 64 + m2 == c / 64);
        assert(bs[3] % 64 == c % 64);
        assert(code_point(bs, 4) == (c / 64) * 64 + c % 64);
    }
}

} // verus!
