//! Byte-level encodings: little-endian words, hexadecimal text, and the
//! fixed-size report-data buffer.

use vstd::prelude::*;

verus! {

/// The little-endian four-byte encoding of a 32-bit word.
pub open spec fn spec_u32_le(x: u32) -> Seq<u8> {
    seq![
        (x % 256) as u8,
        ((x / 256) % 256) as u8,
        ((x / 0x10000) % 256) as u8,
        ((x / 0x1000000) % 256) as u8,
    ]
}

/// The little-endian eight-byte encoding of a 64-bit word.
pub open spec fn spec_u64_le(x: u64) -> Seq<u8> {
    seq![
        (x % 256) as u8,
        ((x / 256) % 256) as u8,
        ((x / 0x10000) % 256) as u8,
        ((x / 0x1000000) % 256) as u8,
        ((x / 0x100000000) % 256) as u8,
        ((x / 0x10000000000) % 256) as u8,
        ((x / 0x1000000000000) % 256) as u8,
        ((x / 0x100000000000000) % 256) as u8,
    ]
}

/// Appends the little-endian encoding of `x` to `out`.
pub fn push_u32_le(out: &mut Vec<u8>, x: u32)
    ensures
        final(out)@ == old(out)@ + spec_u32_le(x),
{
    out.push((x % 256) as u8);
    out.push(((x / 256) % 256) as u8);
    out.push(((x / 0x10000) % 256) as u8);
    out.push(((x / 0x1000000) % 256) as u8);
    assert(out@ =~= old(out)@ + spec_u32_le(x));
}

/// Appends the little-endian encoding of `x` to `out`.
pub fn push_u64_le(out: &mut Vec<u8>, x: u64)
    ensures
        final(out)@ == old(out)@ + spec_u64_le(x),
{
    out.push((x % 256) as u8);
    out.push(((x / 256) % 256) as u8);
    out.push(((x / 0x10000) % 256) as u8);
    out.push(((x / 0x1000000) % 256) as u8);
    out.push(((x / 0x100000000) % 256) as u8);
    out.push(((x / 0x10000000000) % 256) as u8);
    out.push(((x / 0x1000000000000) % 256) as u8);
    out.push(((x / 0x100000000000000) % 256) as u8);
    assert(out@ =~= old(out)@ + spec_u64_le(x));
}

/// The 32-bit word read from four little-endian bytes.
pub open spec fn spec_u32_from_le(b0: u8, b1: u8, b2: u8, b3: u8) -> u32 {
    (b0 + b1 * 256 + b2 * 0x10000 + b3 * 0x1000000) as u32
}

pub fn u32_from_le(b0: u8, b1: u8, b2: u8, b3: u8) -> (r: u32)
    ensures
        r == spec_u32_from_le(b0, b1, b2, b3),
{
    b0 as u32 + b1 as u32 * 256 + b2 as u32 * 0x10000 + b3 as u32 * 0x1000000
}

/// Reading four little-endian bytes and writing them back round-trips.
pub proof fn lemma_u32_le_round_trip(b0: u8, b1: u8, b2: u8, b3: u8)
    ensures
        spec_u32_le(spec_u32_from_le(b0, b1, b2, b3)) == seq![b0, b1, b2, b3],
{
    let x = spec_u32_from_le(b0, b1, b2, b3) as int;
    let k1 = b1 + b2 * 256 + b3 * 0x10000;
    let k2 = b2 + b3 * 256;
    vstd::arithmetic::div_mod::lemma_fundamental_div_mod_converse_mod(x, 256, k1, b0 as int);
    vstd::arithmetic::div_mod::lemma_fundamental_div_mod_converse_div(x, 256, k1, b0 as int);
    vstd::arithmetic::div_mod::lemma_fundamental_div_mod_converse_mod(k1, 256, k2, b1 as int);
    vstd::arithmetic::div_mod::lemma_fundamental_div_mod_converse_div(k1, 256, k2, b1 as int);
    vstd::arithmetic::div_mod::lemma_fundamental_div_mod_converse_mod(k2, 256, b3 as int, b2 as int);
    vstd::arithmetic::div_mod::lemma_fundamental_div_mod_converse_div(k2, 256, b3 as int, b2 as int);
    assert(x / 0x10000 == k2) by {
        vstd::arithmetic::div_mod::lemma_fundamental_div_mod_converse_div(
            x,
            0x10000,
            k2,
            b0 + 256 * b1,
        );
    }
    assert(x / 0x1000000 == b3 as int) by {
        vstd::arithmetic::div_mod::lemma_fundamental_div_mod_converse_div(
            x,
            0x1000000,
            b3 as int,
            b0 + 256 * b1 + 0x10000 * b2,
        );
    }
    assert(spec_u32_le(spec_u32_from_le(b0, b1, b2, b3)) =~= seq![b0, b1, b2, b3]);
}

/// The little-endian byte encoding of a sequence of 32-bit words.
pub open spec fn spec_words_le(ws: Seq<u32>) -> Seq<u8>
    decreases ws.len(),
{
    if ws.len() == 0 {
        Seq::empty()
    } else {
        spec_words_le(ws.drop_last()) + spec_u32_le(ws.last())
    }
}

/// Serializes a slice of 32-bit words to little-endian bytes.
pub fn words_to_bytes_le(ws: &Vec<u32>) -> (r: Vec<u8>)
    ensures
        r@ == spec_words_le(ws@),
        r@.len() == 4 * ws@.len(),
{
    let mut out: Vec<u8> = Vec::new();
    let mut i: usize = 0;
    proof {
        lemma_words_le_len(ws@.take(0));
    }
    while i < ws.len()
        invariant
            i <= ws@.len(),
            out@ == spec_words_le(ws@.take(i as int)),
            out@.len() == 4 * i,
        decreases ws@.len() - i,
    {
        push_u32_le(&mut out, ws[i]);
        proof {
            assert(ws@.take(i + 1).drop_last() =~= ws@.take(i as int));
            assert(ws@.take(i + 1).last() == ws@[i as int]);
        }
        i = i + 1;
    }
    proof {
        assert(ws@.take(ws@.len() as int) =~= ws@);
    }
    out
}

pub proof fn lemma_words_le_len(ws: Seq<u32>)
    ensures
        spec_words_le(ws).len() == 4 * ws.len(),
    decreases ws.len(),
{
    if ws.len() > 0 {
        lemma_words_le_len(ws.drop_last());
    }
}

/// The little-endian byte encoding of a sequence of 64-bit words.
pub open spec fn spec_u64s_le(ws: Seq<u64>) -> Seq<u8>
    decreases ws.len(),
{
    if ws.len() == 0 {
        Seq::empty()
    } else {
        spec_u64s_le(ws.drop_last()) + spec_u64_le(ws.last())
    }
}

pub proof fn lemma_u64s_le_len(ws: Seq<u64>)
    ensures
        spec_u64s_le(ws).len() == 8 * ws.len(),
    decreases ws.len(),
{
    if ws.len() > 0 {
        lemma_u64s_le_len(ws.drop_last());
    }
}

/// Appends the little-endian encoding of a slice of 64-bit words to `out`.
pub fn push_u64s_le(out: &mut Vec<u8>, ws: &Vec<u64>)
    ensures
        final(out)@ == old(out)@ + spec_u64s_le(ws@),
{
    let mut i: usize = 0;
    while i < ws.len()
        invariant
            i <= ws@.len(),
            out@ == old(out)@ + spec_u64s_le(ws@.take(i as int)),
        decreases ws@.len() - i,
    {
        push_u64_le(out, ws[i]);
        proof {
            assert(ws@.take(i + 1).drop_last() =~= ws@.take(i as int));
            assert(ws@.take(i + 1).last() == ws@[i as int]);
        }
        i = i + 1;
    }
    proof {
        assert(ws@.take(ws@.len() as int) =~= ws@);
    }
}

/// The value of a hexadecimal digit in ASCII, if the byte is one.
pub open spec fn spec_hex_digit(c: u8) -> Option<u8> {
    if 0x30 <= c <= 0x39 {
        Some((c - 0x30) as u8)
    } else if 0x61 <= c <= 0x66 {
        Some((c - 0x61 + 10) as u8)
    } else if 0x41 <= c <= 0x46 {
        Some((c - 0x41 + 10) as u8)
    } else {
        None
    }
}

/// The bytes denoted by a sequence of ASCII hexadecimal digit pairs, or
/// nothing if the length is odd or a byte is not a digit.
pub open spec fn spec_hex_decode(s: Seq<u8>) -> Option<Seq<u8>>
    decreases s.len(),
{
    if s.len() % 2 != 0 {
        None
    } else if s.len() == 0 {
        Some(Seq::empty())
    } else {
        match (spec_hex_decode(s.take(s.len() - 2)), spec_hex_digit(s[s.len() - 2]), spec_hex_digit(
            s[s.len() - 1],
        )) {
            (Some(rest), Some(hi), Some(lo)) => Some(rest.push((hi * 16 + lo) as u8)),
            _ => None,
        }
    }
}

fn hex_digit(c: u8) -> (r: Option<u8>)
    ensures
        r == spec_hex_digit(c),
{
    if 0x30 <= c && c <= 0x39 {
        Some(c - 0x30)
    } else if 0x61 <= c && c <= 0x66 {
        Some(c - 0x61 + 10)
    } else if 0x41 <= c && c <= 0x46 {
        Some(c - 0x41 + 10)
    } else {
        None
    }
}

/// Decodes ASCII hexadecimal text into bytes; two digits per byte, upper or
/// lower case, failing on odd length or on any other character.
pub fn hex_decode(s: &Vec<u8>) -> (r: Option<Vec<u8>>)
    ensures
        match r {
            Some(v) => spec_hex_decode(s@) == Some(v@),
            None => spec_hex_decode(s@) is None,
        },
{
    if s.len() % 2 != 0 {
        return None;
    }
    let mut out: Vec<u8> = Vec::new();
    let mut i: usize = 0;
    while i < s.len()
        invariant
            i <= s@.len(),
            i % 2 == 0,
            s@.len() % 2 == 0,
            spec_hex_decode(s@.take(i as int)) == Some(out@),
        decreases s@.len() - i,
    {
        let hi = hex_digit(s[i]);
        let lo = hex_digit(s[i + 1]);
        match (hi, lo) {
            (Some(h), Some(l)) => {
                out.push(h * 16 + l);
            },
            _ => {
                proof {
                    lemma_hex_decode_prefix_none(s@, i + 2);
                }
                return None;
            },
        }
        proof {
            assert(s@.take(i + 2).take(i + 2 - 2) =~= s@.take(i as int));
            assert(s@.take(i + 2)[i + 2 - 2] == s@[i as int]);
            assert(s@.take(i + 2)[i + 2 - 1] == s@[i + 1]);
        }
        i = i + 2;
    }
    proof {
        assert(s@.take(s@.len() as int) =~= s@);
    }
    Some(out)
}

/// If a even-length prefix fails to decode, the whole text fails.
proof fn lemma_hex_decode_prefix_none(s: Seq<u8>, i: int)
    requires
        0 <= i <= s.len(),
        i % 2 == 0,
        s.len() % 2 == 0,
        spec_hex_decode(s.take(i)) is None,
    ensures
        spec_hex_decode(s) is None,
    decreases s.len() - i,
{
    if i < s.len() {
        assert(s.take(i + 2).take(i) =~= s.take(i));
        lemma_hex_decode_prefix_none(s, i + 2);
    } else {
        assert(s.take(i) =~= s);
    }
}

/// The number of bytes in a report-data buffer.
pub const REPORT_DATA_LEN: usize = 64;

/// The fixed-size report-data buffer built from decoded bytes: the first
/// bytes of the input, zero-padded or truncated to exactly 64 bytes.
pub open spec fn spec_report_data(d: Seq<u8>) -> Seq<u8> {
    if d.len() < 64 {
        d + Seq::new((64 - d.len()) as nat, |i: int| 0u8)
    } else {
        d.take(64)
    }
}

/// Lays decoded report data into the fixed 64-byte buffer, zero-padding a
/// short input and truncating a long one.
pub fn report_data_bytes(d: &Vec<u8>) -> (r: Vec<u8>)
    ensures
        r@ == spec_report_data(d@),
        r@.len() == 64,
{
    let mut out: Vec<u8> = Vec::new();
    let n = if d.len() < REPORT_DATA_LEN {
        d.len()
    } else {
        REPORT_DATA_LEN
    };
    let mut i: usize = 0;
    while i < n
        invariant
            i <= n,
            n <= d@.len(),
            n <= 64,
            out@ =~= d@.take(i as int),
        decreases n - i,
    {
        out.push(d[i]);
        i = i + 1;
    }
    while i < 64
        invariant
            n <= i <= 64,
            n <= d@.len(),
            n == if d@.len() < 64 {
                d@.len() as int
            } else {
                64
            },
            out@ =~= d@.take(n as int) + Seq::new((i - n) as nat, |j: int| 0u8),
        decreases 64 - i,
    {
        out.push(0);
        i = i + 1;
    }
    proof {
        if d@.len() < 64 {
            assert(d@.take(d@.len() as int) =~= d@);
            assert(out@ =~= spec_report_data(d@));
        } else {
            assert(out@ =~= d@.take(64));
        }
    }
    out
}

} // verus!
