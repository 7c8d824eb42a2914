//! Encoding UTF-8 or UTF-16 text to TCVN3.
//!
//! ASCII stands for itself; every other character is looked up in the
//! TCVN3 table and written as one or two bytes. The encoder stops at the first
//! character that the table lacks, and at an output buffer too small for the
//! next character.
use vstd::prelude::*;
use vstd::std_specs::iter::IteratorSpec;
use vstd::utf8::*;

use crate::table::{tcvn3_encode_bmp, tcvn3_mapping, Tcvn3Bytes};
use crate::types::{Encoder, EncoderResult, Encoding, VariantEncoder};

verus! {

/// The TCVN3 bytes of the scalar value `v`: an ASCII value stands for itself,
/// a non-ASCII BMP code point is looked up in the table, and nothing else has
/// a representation.
pub open spec fn tcvn3_bytes_of(v: u32) -> Option<Seq<u8>> {
    if v < 0x80 {
        Some(seq![v as u8])
    } else if v <= 0xFFFF {
        match tcvn3_mapping(v as u16) {
            Some(t) => Some(t.bytes()),
            None => None,
        }
    } else {
        None
    }
}

/// Encoding the characters `s` with `room` bytes of output space: the result,
/// the number of characters read, and the bytes written. The character that
/// stops the encoder is counted as read when it is unmappable, and also when
/// it needs two bytes and only one is left.
pub open spec fn encode_chars_spec(s: Seq<char>, room: int) -> (EncoderResult, int, Seq<u8>)
    decreases s.len(),
{
    if s.len() == 0 {
        (EncoderResult::InputEmpty, 0, seq![])
    } else if room < 1 {
        (EncoderResult::OutputFull, 0, seq![])
    } else {
        match tcvn3_bytes_of(s[0] as u32) {
            None => (EncoderResult::Unmappable(s[0]), 1, seq![]),
            Some(b) => if room < b.len() {
                (EncoderResult::OutputFull, 1, seq![])
            } else {
                let rest = encode_chars_spec(s.drop_first(), room - b.len());
                (rest.0, rest.1 + 1, b + rest.2)
            },
        }
    }
}

/// The scalar value at the start of the UTF-16 code units `s` (not empty) and
/// the number of units it takes. An unpaired surrogate stands for U+FFFD.
pub open spec fn utf16_first(s: Seq<u16>) -> (u32, int)
    recommends
        s.len() > 0,
{
    let u = s[0];
    if u < 0xD800 || u > 0xDFFF {
        (u as u32, 1)
    } else if u <= 0xDBFF && s.len() >= 2 && 0xDC00 <= s[1] <= 0xDFFF {
        ((0x10000 + (u - 0xD800) * 0x400 + (s[1] - 0xDC00)) as u32, 2)
    } else {
        (0xFFFD, 1)
    }
}

/// Encoding the UTF-16 code units `s` with `room` bytes of output space: the
/// result, the number of units read, and the bytes written, read as
/// [`encode_chars_spec`] reads characters.
pub open spec fn encode_utf16_spec(s: Seq<u16>, room: int) -> (EncoderResult, int, Seq<u8>)
    decreases s.len(),
    via encode_utf16_spec_decreases
{
    if s.len() == 0 {
        (EncoderResult::InputEmpty, 0, seq![])
    } else if room < 1 {
        (EncoderResult::OutputFull, 0, seq![])
    } else {
        let (v, w) = utf16_first(s);
        match tcvn3_bytes_of(v) {
            None => (EncoderResult::Unmappable(v as char), w, seq![]),
            Some(b) => if room < b.len() {
                (EncoderResult::OutputFull, w, seq![])
            } else {
                let rest = encode_utf16_spec(s.skip(w), room - b.len());
                (rest.0, rest.1 + w, b + rest.2)
            },
        }
    }
}

#[via_fn]
proof fn encode_utf16_spec_decreases(s: Seq<u16>, room: int) {
}

/// The scalar value at `i` in `src` and the number of code units it takes.
fn utf16_next(src: &[u16], i: usize) -> (r: (u32, usize))
    requires
        i < src@.len(),
    ensures
        (r.0, r.1 as int) == utf16_first(src@.skip(i as int)),
        1 <= r.1 <= 2,
        i + r.1 <= src@.len(),
        is_scalar(r.0),
{
    let u = src[i];
    if u < 0xD800 || u > 0xDFFF {
        (u as u32, 1)
    } else if u <= 0xDBFF && i + 1 < src.len() && 0xDC00 <= src[i + 1] && src[i + 1] <= 0xDFFF {
        let lo = src[i + 1];
        let v: u32 = 0x10000 + (u as u32 - 0xD800) * 0x400 + (lo as u32 - 0xDC00);
        (v, 2)
    } else {
        (0xFFFD, 1)
    }
}

/// Calls `char::from_u32`, which std documents as returning the `char` whose
/// value is `v` when `v` is a Unicode scalar value, and `None` otherwise.
#[verifier::external_body]
fn char_from_u32(v: u32) -> (r: Option<char>)
    ensures
        is_scalar(v) <==> r is Some,
        r matches Some(c) ==> c as u32 == v,
{
    char::from_u32(v)
}

/// UTF-8 encoding distributes over concatenation.
pub proof fn lemma_encode_utf8_concat(a: Seq<char>, b: Seq<char>)
    ensures
        encode_utf8(a + b) == encode_utf8(a) + encode_utf8(b),
    decreases a.len(),
{
    if a.len() == 0 {
        assert(a + b =~= b);
        assert(encode_utf8(a) + encode_utf8(b) =~= encode_utf8(b));
    } else {
        assert((a + b).drop_first() =~= a.drop_first() + b);
        lemma_encode_utf8_concat(a.drop_first(), b);
        assert(encode_utf8(a + b) =~= encode_scalar(a[0] as u32) + (encode_utf8(a.drop_first())
            + encode_utf8(b)));
    }
}

/// Splitting the UTF-8 length of `s` after `k` characters.
proof fn lemma_encode_utf8_split(s: Seq<char>, k: int)
    requires
        0 <= k < s.len(),
    ensures
        encode_utf8(s.take(k + 1)).len() == encode_utf8(s.take(k)).len() + encode_scalar(
            s[k] as u32,
        ).len(),
        encode_utf8(s.take(k + 1)).len() <= encode_utf8(s).len(),
{
    assert(s.take(k + 1) =~= s.take(k) + seq![s[k]]);
    lemma_encode_utf8_concat(s.take(k), seq![s[k]]);
    let one = seq![s[k]];
    assert(one.drop_first() =~= Seq::<char>::empty());
    assert(encode_utf8(one.drop_first()) =~= Seq::<u8>::empty());
    assert(encode_utf8(one) == encode_scalar(one[0] as u32) + encode_utf8(one.drop_first()));
    assert(encode_utf8(one) =~= encode_scalar(s[k] as u32));
    assert(s =~= s.take(k + 1) + s.skip(k + 1));
    lemma_encode_utf8_concat(s.take(k + 1), s.skip(k + 1));
}

/// The number of UTF-8 bytes of `c`.
fn utf8_width(c: char) -> (n: usize)
    ensures
        n == encode_scalar(c as u32).len(),
        1 <= n <= 4,
{
    proof {
        char_is_scalar(c);
    }
    let v = c as u32;
    if v < 0x80 {
        1
    } else if v < 0x800 {
        2
    } else if v < 0x10000 {
        3
    } else {
        4
    }
}

/// The TCVN3 bytes of the scalar value `v`.
fn bytes_of(v: u32) -> (r: Option<Tcvn3Bytes>)
    ensures
        r matches Some(t) ==> tcvn3_bytes_of(v) == Some(t.bytes()),
        r is None ==> tcvn3_bytes_of(v) is None,
{
    if v < 0x80 {
        Some(Tcvn3Bytes::One(v as u8))
    } else if v <= 0xFFFF {
        tcvn3_encode_bmp(v as u16)
    } else {
        None
    }
}

/// Writes the bytes `t` at `pos`; returns their number.
fn write_bytes(dst: &mut [u8], pos: usize, t: Tcvn3Bytes) -> (n: usize)
    requires
        pos + t.bytes().len() <= old(dst)@.len(),
    ensures
        n == t.bytes().len(),
        final(dst)@ == old(dst)@.take(pos as int) + t.bytes() + old(dst)@.skip(pos + n),
{
    match t {
        Tcvn3Bytes::One(a) => {
            dst[pos] = a;
            assert(dst@ =~= old(dst)@.take(pos as int) + t.bytes() + old(dst)@.skip(pos + 1));
            1
        },
        Tcvn3Bytes::Two(a, b) => {
            dst[pos] = a;
            dst[pos + 1] = b;
            assert(dst@ =~= old(dst)@.take(pos as int) + t.bytes() + old(dst)@.skip(pos + 2));
            2
        },
    }
}

/// The number of bytes of `t`.
fn bytes_len(t: Tcvn3Bytes) -> (n: usize)
    ensures
        n == t.bytes().len(),
{
    match t {
        Tcvn3Bytes::One(_) => 1,
        Tcvn3Bytes::Two(_, _) => 2,
    }
}

/// A TCVN3 encoder. It keeps no state.
pub struct Tcvn3Encoder;

impl Tcvn3Encoder {
    /// An encoder to `encoding` that uses the TCVN3 encoder.
    pub fn new(encoding: &'static Encoding) -> (r: Encoder)
        ensures
            r.encoding == encoding,
            r.variant == VariantEncoder::Tcvn3(Tcvn3Encoder),
    {
        Encoder::new(encoding, VariantEncoder::Tcvn3(Tcvn3Encoder))
    }

    /// The output length that suffices for `byte_length` bytes of UTF-8 when
    /// every character is mappable (two bytes for each), or `None` when that
    /// overflows.
    pub fn max_buffer_length_from_utf8_if_no_unmappables(&self, byte_length: usize) -> (r: Option<
        usize,
    >)
        ensures
            r == (if byte_length * 2 <= usize::MAX {
                Some((byte_length * 2) as usize)
            } else {
                None::<usize>
            }),
    {
        byte_length.checked_mul(2)
    }

    /// The output length that suffices for `u16_length` UTF-16 code units when
    /// every character is mappable (two bytes for each), or `None` when that
    /// overflows.
    pub fn max_buffer_length_from_utf16_if_no_unmappables(&self, u16_length: usize) -> (r: Option<
        usize,
    >)
        ensures
            r == (if u16_length * 2 <= usize::MAX {
                Some((u16_length * 2) as usize)
            } else {
                None::<usize>
            }),
    {
        u16_length.checked_mul(2)
    }

    /// Encodes `src` into `dst`. Returns why it stopped, the number of bytes
    /// of `src` read and the number of bytes written; `dst` beyond them is left
    /// as it was. `_last` does not matter: the encoder keeps no state.
    pub fn encode_from_utf8_raw(&mut self, src: &str, dst: &mut [u8], _last: bool) -> (r: (
        EncoderResult,
        usize,
        usize,
    ))
        ensures
            ({
                let run = encode_chars_spec(src@, old(dst)@.len() as int);
                &&& r.0 == run.0
                &&& r.1 == encode_utf8(src@.take(run.1)).len()
                &&& r.2 == run.2.len()
                &&& 0 <= run.1 <= src@.len()
                &&& r.2 <= old(dst)@.len()
                &&& final(dst)@ == run.2 + old(dst)@.skip(run.2.len() as int)
            }),
    {
        broadcast use {vstd::string::axiom_spec_iter, vstd::string::next_postcondition};

        let ghost whole = encode_chars_spec(src@, dst@.len() as int);
        let total = src.as_bytes().len();
        let mut chars = src.chars();
        let ghost mut k: int = 0;
        let mut read: usize = 0;
        let mut j: usize = 0;
        assert(src@.skip(0) =~= src@);
        assert(src@.take(0) =~= Seq::<char>::empty());
        assert(dst@.take(0) + whole.2 =~= whole.2);
        loop
            invariant
                0 <= k <= src@.len(),
                chars.obeys_prophetic_iter_laws(),
                chars.remaining() == src@.skip(k),
                total == encode_utf8(src@).len(),
                read == encode_utf8(src@.take(k)).len(),
                j <= dst@.len(),
                dst@.len() == old(dst)@.len(),
                dst@.skip(j as int) == old(dst)@.skip(j as int),
                whole == encode_chars_spec(src@, old(dst)@.len() as int),
                ({
                    let rest = encode_chars_spec(src@.skip(k), dst@.len() - j);
                    whole == (rest.0, rest.1 + k, dst@.take(j as int) + rest.2)
                }),
            decreases src@.len() - k,
        {
            let ghost s = src@.skip(k);
            let next = chars.next();
            let c = match next {
                None => {
                    assert(dst@.take(j as int) + dst@.skip(j as int) =~= dst@);
                    return (EncoderResult::InputEmpty, read, j);
                },
                Some(c) => c,
            };
            assert(c == src@[k]);
            if j == dst.len() {
                assert(dst@.take(j as int) + dst@.skip(j as int) =~= dst@);
                assert(dst@.take(j as int) + seq![] =~= dst@.take(j as int));
                return (EncoderResult::OutputFull, read, j);
            }
            proof {
                lemma_encode_utf8_split(src@, k);
            }
            let w = utf8_width(c);
            let next_read = read + w;
            match bytes_of(c as u32) {
                None => {
                    assert(dst@.take(j as int) + dst@.skip(j as int) =~= dst@);
                    assert(dst@.take(j as int) + seq![] =~= dst@.take(j as int));
                    return (EncoderResult::Unmappable(c), next_read, j);
                },
                Some(t) => {
                    let n = bytes_len(t);
                    if dst.len() - j < n {
                        assert(dst@.take(j as int) + dst@.skip(j as int) =~= dst@);
                        assert(dst@.take(j as int) + seq![] =~= dst@.take(j as int));
                        return (EncoderResult::OutputFull, next_read, j);
                    }
                    let ghost old_dst = dst@;
                    write_bytes(dst, j, t);
                    proof {
                        assert(s.drop_first() =~= src@.skip(k + 1));
                        assert(dst@.take(j + n) =~= old_dst.take(j as int) + t.bytes());
                        assert(dst@.skip(j + n) =~= old_dst.skip(j + n));
                        assert(old_dst.skip(j + n) =~= old(dst)@.skip(j + n)) by {
                            assert(old_dst.skip(j + n) =~= old_dst.skip(j as int).skip(n as int));
                            assert(old(dst)@.skip(j + n) =~= old(dst)@.skip(j as int).skip(
                                n as int,
                            ));
                        }
                        let rest = encode_chars_spec(src@.skip(k + 1), dst@.len() - (j + n));
                        assert(old_dst.take(j as int) + t.bytes() + rest.2 =~= old_dst.take(j as int)
                            + (t.bytes() + rest.2));
                        k = k + 1;
                    }
                    read = next_read;
                    j = j + n;
                },
            }
        }
    }

    /// Encodes the UTF-16 code units `src` into `dst`. Returns why it stopped,
    /// the number of code units read and the number of bytes written; `dst`
    /// beyond them is left as it was. An unpaired surrogate is read as U+FFFD,
    /// which is unmappable. `_last` does not matter: the encoder keeps no state.
    pub fn encode_from_utf16_raw(&mut self, src: &[u16], dst: &mut [u8], _last: bool) -> (r: (
        EncoderResult,
        usize,
        usize,
    ))
        ensures
            ({
                let run = encode_utf16_spec(src@, old(dst)@.len() as int);
                &&& r.0 == run.0
                &&& r.1 == run.1
                &&& r.2 == run.2.len()
                &&& r.1 <= src@.len()
                &&& r.2 <= old(dst)@.len()
                &&& final(dst)@ == run.2 + old(dst)@.skip(run.2.len() as int)
            }),
    {
        let ghost whole = encode_utf16_spec(src@, dst@.len() as int);
        let mut i: usize = 0;
        let mut j: usize = 0;
        assert(src@.skip(0) =~= src@);
        assert(dst@.take(0) + whole.2 =~= whole.2);
        loop
            invariant
                i <= src@.len(),
                j <= dst@.len(),
                dst@.len() == old(dst)@.len(),
                dst@.skip(j as int) == old(dst)@.skip(j as int),
                whole == encode_utf16_spec(src@, old(dst)@.len() as int),
                ({
                    let rest = encode_utf16_spec(src@.skip(i as int), dst@.len() - j);
                    whole == (rest.0, rest.1 + i, dst@.take(j as int) + rest.2)
                }),
            decreases src@.len() - i,
        {
            let ghost s = src@.skip(i as int);
            if i == src.len() {
                assert(dst@.take(j as int) + dst@.skip(j as int) =~= dst@);
                return (EncoderResult::InputEmpty, i, j);
            }
            if j == dst.len() {
                assert(dst@.take(j as int) + dst@.skip(j as int) =~= dst@);
                assert(dst@.take(j as int) + seq![] =~= dst@.take(j as int));
                return (EncoderResult::OutputFull, i, j);
            }
            let (v, w) = utf16_next(src, i);
            match bytes_of(v) {
                None => {
                    assert(dst@.take(j as int) + dst@.skip(j as int) =~= dst@);
                    assert(dst@.take(j as int) + seq![] =~= dst@.take(j as int));
                    let c = char_from_u32(v).unwrap();
                    proof {
                        char_u32_cast(c, v);
                    }
                    return (EncoderResult::Unmappable(c), i + w, j);
                },
                Some(t) => {
                    let n = bytes_len(t);
                    if dst.len() - j < n {
                        assert(dst@.take(j as int) + dst@.skip(j as int) =~= dst@);
                        assert(dst@.take(j as int) + seq![] =~= dst@.take(j as int));
                        return (EncoderResult::OutputFull, i + w, j);
                    }
                    let ghost old_dst = dst@;
                    write_bytes(dst, j, t);
                    proof {
                        assert(s.skip(w as int) =~= src@.skip(i + w));
                        assert(dst@.take(j + n) =~= old_dst.take(j as int) + t.bytes());
                        assert(dst@.skip(j + n) =~= old_dst.skip(j + n));
                        assert(old_dst.skip(j + n) =~= old(dst)@.skip(j + n)) by {
                            assert(old_dst.skip(j + n) =~= old_dst.skip(j as int).skip(n as int));
                            assert(old(dst)@.skip(j + n) =~= old(dst)@.skip(j as int).skip(
                                n as int,
                            ));
                        }
                        let rest = encode_utf16_spec(src@.skip(i + w), dst@.len() - (j + n));
                        assert(old_dst.take(j as int) + t.bytes() + rest.2 =~= old_dst.take(j as int)
                            + (t.bytes() + rest.2));
                    }
                    i = i + w;
                    j = j + n;
                },
            }
        }
    }
}

} // verus!
