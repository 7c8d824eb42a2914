//! Decoding TCVN3 bytes to UTF-8 or UTF-16.
//!
//! The decoder reads the input from the left. At each position it first tries
//! a two-byte sequence (a base letter, an ASCII capital vowel or one of
//! 0xA1..=0xA6, followed by a tone mark), then a plain ASCII byte, then a
//! single upper-half byte; a byte that is none of these is malformed.
//!
//! A byte that ends an input which is not the last one, and that could begin
//! a two-byte sequence or is in the upper half, is held as pending and counted
//! as read. The next call decodes it in front of its own input.
//!
//! Before each step the UTF-8 decoder asks for room for any BMP character
//! (three bytes), except for plain ASCII met outside a run of non-ASCII
//! output, for which one byte suffices.
use vstd::prelude::*;
use vstd::utf8::*;

use crate::table::{
    lemma_decoded_in_table, lemma_mapping_range, pair_char, single_byte_char,
    starts_pair, tcvn3_decode_single_byte, tcvn3_decode_two_bytes, tcvn3_starts_pair,
};
use crate::types::{DecoderResult, VariantDecoder};

verus! {

/// What the decoder does at the start of the unread input.
#[derive(Clone, Copy, Debug, PartialEq, Eq)]
pub enum DecodeStep {
    /// Emit the BMP code point `unit`, after reading `len` bytes.
    Emit { unit: u16, len: u8 },
    /// The input ends with a byte that could begin a two-byte sequence or is
    /// in the upper half, and more input may follow.
    Pending,
    /// The first byte is not a TCVN3 character.
    Malformed,
}

/// The decoder's next step on the unread input `s` (not empty).
pub open spec fn decode_step(s: Seq<u8>, last: bool) -> DecodeStep
    recommends
        s.len() > 0,
{
    if s.len() >= 2 && pair_char(s[0], s[1]) is Some {
        DecodeStep::Emit { unit: pair_char(s[0], s[1])->0, len: 2 }
    } else if s.len() == 1 && !last && (s[0] >= 0x80 || starts_pair(s[0])) {
        DecodeStep::Pending
    } else if s[0] < 0x80 {
        DecodeStep::Emit { unit: s[0] as u16, len: 1 }
    } else if single_byte_char(s[0]) is Some {
        DecodeStep::Emit { unit: single_byte_char(s[0])->0, len: 1 }
    } else {
        DecodeStep::Malformed
    }
}

/// The input that a call decodes: the byte held from the previous call, if
/// any, followed by the call's own input.
pub open spec fn held_input(held: Option<u8>, src: Seq<u8>) -> Seq<u8> {
    match held {
        Some(p) => seq![p] + src,
        None => src,
    }
}

/// The number of held bytes in front of a call's input.
pub open spec fn held_len(held: Option<u8>) -> int {
    if held is Some {
        1
    } else {
        0
    }
}

/// The number of bytes of a call's own input that it reports as read, when
/// decoding its held byte and input read `read` bytes: the held byte was
/// counted by the call that held it.
pub open spec fn own_bytes_read(held: Option<u8>, read: int) -> int {
    if read >= held_len(held) {
        read - held_len(held)
    } else {
        0
    }
}

/// The byte held after a call that read `read` bytes of its held byte and
/// input and left `pending`: the old held byte stays when nothing was read.
pub open spec fn held_after(held: Option<u8>, read: int, pending: Option<u8>) -> Option<u8> {
    if read == 0 {
        held
    } else {
        pending
    }
}

/// The room, in UTF-8 bytes, that the decoder asks for before it takes the
/// step: one byte for plain ASCII met outside a run of non-ASCII output,
/// room for any BMP character otherwise.
pub open spec fn utf8_room_needed(step: DecodeStep, after_non_ascii: bool) -> int {
    match step {
        DecodeStep::Emit { unit, .. } => if !after_non_ascii && unit < 0x80 {
            1
        } else {
            3
        },
        _ => 3,
    }
}

/// Decoding `s` to UTF-8 with `room` bytes of output space: the result, the
/// number of bytes read, the bytes written, and the byte left pending.
/// `after_non_ascii` holds when the previous character written was not ASCII.
pub open spec fn decode_to_utf8_spec(s: Seq<u8>, room: int, after_non_ascii: bool, last: bool) -> (
    DecoderResult,
    int,
    Seq<u8>,
    Option<u8>,
)
    decreases s.len(),
    via decode_to_utf8_spec_decreases
{
    if s.len() == 0 {
        (DecoderResult::InputEmpty, 0, seq![], None)
    } else {
        let step = decode_step(s, last);
        if room < utf8_room_needed(step, after_non_ascii) {
            (DecoderResult::OutputFull, 0, seq![], None)
        } else {
            match step {
                DecodeStep::Pending => (DecoderResult::InputEmpty, 1, seq![], Some(s[0])),
                DecodeStep::Malformed => (DecoderResult::Malformed(1, 0), 1, seq![], None),
                DecodeStep::Emit { unit, len } => {
                    let bytes = encode_scalar(unit as u32);
                    let rest = decode_to_utf8_spec(
                        s.skip(len as int),
                        room - bytes.len(),
                        unit >= 0x80,
                        last,
                    );
                    (rest.0, rest.1 + len, bytes + rest.2, rest.3)
                },
            }
        }
    }
}

/// Decoding `s` to UTF-16 with `room` code units of output space: the result,
/// the number of bytes read, the code units written, and the byte left pending.
pub open spec fn decode_to_utf16_spec(s: Seq<u8>, room: int, last: bool) -> (
    DecoderResult,
    int,
    Seq<u16>,
    Option<u8>,
)
    decreases s.len(),
    via decode_to_utf16_spec_decreases
{
    if s.len() == 0 {
        (DecoderResult::InputEmpty, 0, seq![], None)
    } else if room < 1 {
        (DecoderResult::OutputFull, 0, seq![], None)
    } else {
        match decode_step(s, last) {
            DecodeStep::Pending => (DecoderResult::InputEmpty, 1, seq![], Some(s[0])),
            DecodeStep::Malformed => (DecoderResult::Malformed(1, 0), 1, seq![], None),
            DecodeStep::Emit { unit, len } => {
                let rest = decode_to_utf16_spec(s.skip(len as int), room - 1, last);
                (rest.0, rest.1 + len, seq![unit] + rest.2, rest.3)
            },
        }
    }
}

/// A step reads one or two bytes of the input, and emits ASCII or a code
/// point of the table.
pub proof fn lemma_decode_step_shape(s: Seq<u8>, last: bool)
    requires
        s.len() > 0,
    ensures
        decode_step(s, last) matches DecodeStep::Emit { unit, len } ==> {
            &&& 1 <= len <= 2
            &&& len <= s.len()
            &&& (unit < 0x80 || 0xC0 <= unit <= 0x1EF9)
            &&& (len == 2 ==> unit >= 0xC0)
        },
{
    if s.len() >= 2 && pair_char(s[0], s[1]) is Some {
        lemma_decoded_in_table(s[0], s[1]);
        lemma_mapping_range(pair_char(s[0], s[1])->0);
    } else if s[0] >= 0x80 && single_byte_char(s[0]) is Some {
        lemma_decoded_in_table(s[0], 0);
        lemma_mapping_range(single_byte_char(s[0])->0);
    }
}

#[via_fn]
proof fn decode_to_utf8_spec_decreases(s: Seq<u8>, room: int, after_non_ascii: bool, last: bool) {
    if s.len() > 0 {
        lemma_decode_step_shape(s, last);
    }
}

#[via_fn]
proof fn decode_to_utf16_spec_decreases(s: Seq<u8>, room: int, last: bool) {
    if s.len() > 0 {
        lemma_decode_step_shape(s, last);
    }
}

/// Computes the decoder's next step at position `i` of `src`.
fn next_step(src: &[u8], i: usize, last: bool) -> (step: DecodeStep)
    requires
        i < src@.len(),
    ensures
        step == decode_step(src@.skip(i as int), last),
{
    let b = src[i];
    if i + 1 < src.len() {
        if let Some(unit) = tcvn3_decode_two_bytes(b, src[i + 1]) {
            return DecodeStep::Emit { unit, len: 2 };
        }
    }
    if i + 1 == src.len() && !last && (b >= 0x80 || tcvn3_starts_pair(b)) {
        DecodeStep::Pending
    } else if b < 0x80 {
        DecodeStep::Emit { unit: b as u16, len: 1 }
    } else {
        match tcvn3_decode_single_byte(b) {
            Some(unit) => DecodeStep::Emit { unit, len: 1 },
            None => DecodeStep::Malformed,
        }
    }
}

/// Computes the decoder's next step on the held byte `p` followed by `src`.
fn held_step(p: u8, src: &[u8], last: bool) -> (step: DecodeStep)
    ensures
        step == decode_step(seq![p] + src@, last),
{
    let ghost s = seq![p] + src@;
    assert(s[0] == p);
    if src.len() >= 1 {
        assert(s[1] == src@[0]);
        if let Some(unit) = tcvn3_decode_two_bytes(p, src[0]) {
            return DecodeStep::Emit { unit, len: 2 };
        }
    }
    if src.len() == 0 && !last && (p >= 0x80 || tcvn3_starts_pair(p)) {
        DecodeStep::Pending
    } else if p < 0x80 {
        DecodeStep::Emit { unit: p as u16, len: 1 }
    } else {
        match tcvn3_decode_single_byte(p) {
            Some(unit) => DecodeStep::Emit { unit, len: 1 },
            None => DecodeStep::Malformed,
        }
    }
}

/// Computes the decoder's next step, with the byte `held` (if any) in front
/// of `src` from position `i`.
fn step_at(held: Option<u8>, src: &[u8], i: usize, last: bool) -> (step: DecodeStep)
    requires
        held is Some ==> i == 0,
        held is None ==> i < src@.len(),
    ensures
        step == decode_step(held_input(held, src@.skip(i as int)), last),
{
    match held {
        Some(p) => {
            assert(src@.skip(0) =~= src@);
            held_step(p, src, last)
        },
        None => next_step(src, i, last),
    }
}

/// The first byte of the held byte and the input from position `i`.
fn first_byte(held: Option<u8>, src: &[u8], i: usize) -> (b: u8)
    requires
        held is Some ==> i == 0,
        held is None ==> i < src@.len(),
    ensures
        b == held_input(held, src@.skip(i as int))[0],
{
    match held {
        Some(p) => p,
        None => src[i],
    }
}

/// What remains of the held byte and input from `i` after reading `len`
/// bytes of it.
proof fn lemma_held_skip(held: Option<u8>, src: Seq<u8>, i: int, len: int)
    requires
        held is Some ==> i == 0,
        0 <= i <= src.len(),
        1 <= len <= held_input(held, src.skip(i)).len(),
    ensures
        held_input(held, src.skip(i)).skip(len) == src.skip(i + len - held_len(held)),
        i + len - held_len(held) <= src.len(),
{
    if held is Some {
        assert(held_input(held, src.skip(i)).skip(len) =~= src.skip(i + len - 1));
    } else {
        assert(held_input(held, src.skip(i)).skip(len) =~= src.skip(i + len));
    }
}

/// Writes the UTF-8 form of the BMP scalar `unit` at `pos`; returns its length.
fn write_utf8(dst: &mut [u8], pos: usize, unit: u16) -> (n: usize)
    requires
        unit < 0xD800 || unit > 0xDFFF,
        pos + encode_scalar(unit as u32).len() <= old(dst)@.len(),
    ensures
        n == encode_scalar(unit as u32).len(),
        final(dst)@ == old(dst)@.take(pos as int) + encode_scalar(unit as u32) + old(dst)@.skip(
            pos + n,
        ),
{
    let v = unit as u32;
    if v < 0x80 {
        dst[pos] = (v & 0x7F) as u8;
        assert(dst@ =~= old(dst)@.take(pos as int) + encode_scalar(v) + old(dst)@.skip(pos + 1));
        1
    } else if v < 0x800 {
        dst[pos] = 0xC0 | ((v >> 6) & 0x1F) as u8;
        dst[pos + 1] = 0x80 | (v & 0x3F) as u8;
        assert(dst@ =~= old(dst)@.take(pos as int) + encode_scalar(v) + old(dst)@.skip(pos + 2));
        2
    } else {
        dst[pos] = 0xE0 | ((v >> 12) & 0x0F) as u8;
        dst[pos + 1] = 0x80 | ((v >> 6) & 0x3F) as u8;
        dst[pos + 2] = 0x80 | (v & 0x3F) as u8;
        assert(dst@ =~= old(dst)@.take(pos as int) + encode_scalar(v) + old(dst)@.skip(pos + 3));
        3
    }
}

/// A TCVN3 decoder.
pub struct Tcvn3Decoder {
    /// The byte held at the end of the last non-final input.
    pending: Option<u8>,
}

impl Tcvn3Decoder {
    /// The byte held from the previous call, if any.
    pub closed spec fn pending_byte(&self) -> Option<u8> {
        self.pending
    }

    /// A decoder with no pending byte.
    pub fn new() -> (r: VariantDecoder)
        ensures
            r matches VariantDecoder::Tcvn3(d) && d.pending_byte() is None,
    {
        VariantDecoder::Tcvn3(Tcvn3Decoder { pending: None })
    }

    /// Whether no byte is pending.
    pub fn in_neutral_state(&self) -> (r: bool)
        ensures
            r == (self.pending_byte() is None),
    {
        self.pending.is_none()
    }

    /// The UTF-16 buffer length that always suffices for `byte_length` bytes.
    pub fn max_utf16_buffer_length(&self, byte_length: usize) -> (r: Option<usize>)
        ensures
            r == Some(byte_length),
    {
        Some(byte_length)
    }

    /// The UTF-8 buffer length that always suffices for `byte_length` bytes
    /// (four bytes for each), or `None` when that overflows.
    pub fn max_utf8_buffer_length_without_replacement(&self, byte_length: usize) -> (r: Option<
        usize,
    >)
        ensures
            r == (if byte_length * 4 <= usize::MAX {
                Some((byte_length * 4) as usize)
            } else {
                None::<usize>
            }),
    {
        byte_length.checked_mul(4)
    }

    /// The UTF-8 buffer length that always suffices for `byte_length` bytes
    /// (four bytes for each), or `None` when that overflows.
    pub fn max_utf8_buffer_length(&self, byte_length: usize) -> (r: Option<usize>)
        ensures
            r == (if byte_length * 4 <= usize::MAX {
                Some((byte_length * 4) as usize)
            } else {
                None::<usize>
            }),
    {
        byte_length.checked_mul(4)
    }

    /// Decodes the byte held from the previous call, if any, followed by `src`,
    /// into `dst` as UTF-8. Returns why it stopped, the number of bytes of `src`
    /// read and the number of bytes written; `dst` beyond them is left as
    /// it was.
    #[verifier::rlimit(40)]
    pub fn decode_to_utf8_raw(&mut self, src: &[u8], dst: &mut [u8], last: bool) -> (r: (
        DecoderResult,
        usize,
        usize,
    ))
        ensures
            ({
                let held = old(self).pending_byte();
                let run = decode_to_utf8_spec(held_input(held, src@), old(dst)@.len() as int, false, last);
                &&& r.0 == run.0
                &&& r.1 == own_bytes_read(held, run.1)
                &&& r.2 == run.2.len()
                &&& r.1 <= src@.len()
                &&& r.2 <= old(dst)@.len()
                &&& final(dst)@ == run.2 + old(dst)@.skip(run.2.len() as int)
                &&& final(self).pending_byte() == held_after(held, run.1, run.3)
            }),
    {
        let held0 = self.pending;
        let ghost whole = decode_to_utf8_spec(held_input(held0, src@), old(dst)@.len() as int, false, last);
        let mut held = held0;
        let mut i: usize = 0;
        let mut j: usize = 0;
        let mut after_non_ascii = false;
        assert(src@.skip(0) =~= src@);
        assert(dst@.take(0) + whole.2 =~= whole.2);
        loop
            invariant
                i <= src@.len(),
                j <= dst@.len(),
                dst@.len() == old(dst)@.len(),
                dst@.skip(j as int) == old(dst)@.skip(j as int),
                self.pending == old(self).pending,
                held0 == old(self).pending,
                held is Some ==> i == 0 && held == held0,
                whole == decode_to_utf8_spec(held_input(held0, src@), old(dst)@.len() as int, false, last),
                ({
                    let rest = decode_to_utf8_spec(held_input(held, src@.skip(i as int)), dst@.len() - j, after_non_ascii, last);
                    whole == (
                        rest.0,
                        rest.1 + i + held_len(held0) - held_len(held),
                        dst@.take(j as int) + rest.2,
                        rest.3,
                    )
                }),
            decreases src@.len() - i + held_len(held),
        {
            let ghost s = held_input(held, src@.skip(i as int));
            if held.is_none() && i == src.len() {
                assert(dst@.take(j as int) + dst@.skip(j as int) =~= dst@);
                self.pending = None;
                return (DecoderResult::InputEmpty, i, j);
            }
            let step = step_at(held, src, i, last);
            proof {
                lemma_decode_step_shape(s, last);
            }
            let need: usize = match step {
                DecodeStep::Emit { unit, .. } => if !after_non_ascii && unit < 0x80 {
                    1
                } else {
                    3
                },
                _ => 3,
            };
            if dst.len() - j < need {
                assert(dst@.take(j as int) + dst@.skip(j as int) =~= dst@);
                assert(dst@.take(j as int) + seq![] =~= dst@.take(j as int));
                self.pending = held;
                return (DecoderResult::OutputFull, i, j);
            }
            let read_now: usize = if held.is_some() {
                0
            } else {
                i + 1
            };
            match step {
                DecodeStep::Pending => {
                    self.pending = Some(first_byte(held, src, i));
                assert(dst@.take(j as int) + dst@.skip(j as int) =~= dst@);
                assert(dst@.take(j as int) + seq![] =~= dst@.take(j as int));
                    return (DecoderResult::InputEmpty, read_now, j);
                },
                DecodeStep::Malformed => {
                    self.pending = None;
                assert(dst@.take(j as int) + dst@.skip(j as int) =~= dst@);
                assert(dst@.take(j as int) + seq![] =~= dst@.take(j as int));
                    return (DecoderResult::Malformed(1, 0), read_now, j);
                },
                DecodeStep::Emit { unit, len } => {
                    let ghost old_dst = dst@;
                    let n = write_utf8(dst, j, unit);
                    let ni: usize = if held.is_some() {
                        len as usize - 1
                    } else {
                        i + len as usize
                    };
                    proof {
                        lemma_held_skip(held, src@, i as int, len as int);
                        assert(held_input(None, src@.skip(ni as int)) == src@.skip(ni as int));
                        assert(dst@.take(j + n) =~= old_dst.take(j as int) + encode_scalar(unit as u32));
                        assert(dst@.skip(j + n) =~= old_dst.skip(j + n));
                        assert(old_dst.skip(j + n) =~= old(dst)@.skip(j + n)) by {
                            assert(old_dst.skip(j + n) =~= old_dst.skip(j as int).skip(n as int));
                            assert(old(dst)@.skip(j + n) =~= old(dst)@.skip(j as int).skip(
                                n as int,
                            ));
                        }
                        let rest = decode_to_utf8_spec(src@.skip(ni as int), dst@.len() - (j + n), unit >= 0x80, last);
                        assert(old_dst.take(j as int) + encode_scalar(unit as u32) + rest.2 =~= old_dst.take(j as int)
                            + (encode_scalar(unit as u32) + rest.2));
                    }
                    i = ni;
                    j = j + n;
                    held = None;
                    after_non_ascii = unit >= 0x80;
                },
            }
        }
    }

    /// Decodes the byte held from the previous call, if any, followed by `src`,
    /// into `dst` as UTF-16. Returns why it stopped, the number of bytes of `src`
    /// read and the number of code units written; `dst` beyond them is left as
    /// it was.
    pub fn decode_to_utf16_raw(&mut self, src: &[u8], dst: &mut [u16], last: bool) -> (r: (
        DecoderResult,
        usize,
        usize,
    ))
        ensures
            ({
                let held = old(self).pending_byte();
                let run = decode_to_utf16_spec(held_input(held, src@), old(dst)@.len() as int, last);
                &&& r.0 == run.0
                &&& r.1 == own_bytes_read(held, run.1)
                &&& r.2 == run.2.len()
                &&& r.1 <= src@.len()
                &&& r.2 <= old(dst)@.len()
                &&& final(dst)@ == run.2 + old(dst)@.skip(run.2.len() as int)
                &&& final(self).pending_byte() == held_after(held, run.1, run.3)
            }),
    {
        let held0 = self.pending;
        let ghost whole = decode_to_utf16_spec(held_input(held0, src@), old(dst)@.len() as int, last);
        let mut held = held0;
        let mut i: usize = 0;
        let mut j: usize = 0;
        assert(src@.skip(0) =~= src@);
        assert(dst@.take(0) + whole.2 =~= whole.2);
        loop
            invariant
                i <= src@.len(),
                j <= dst@.len(),
                dst@.len() == old(dst)@.len(),
                dst@.skip(j as int) == old(dst)@.skip(j as int),
                self.pending == old(self).pending,
                held0 == old(self).pending,
                held is Some ==> i == 0 && held == held0,
                whole == decode_to_utf16_spec(held_input(held0, src@), old(dst)@.len() as int, last),
                ({
                    let rest = decode_to_utf16_spec(held_input(held, src@.skip(i as int)), dst@.len() - j, last);
                    whole == (
                        rest.0,
                        rest.1 + i + held_len(held0) - held_len(held),
                        dst@.take(j as int) + rest.2,
                        rest.3,
                    )
                }),
            decreases src@.len() - i + held_len(held),
        {
            let ghost s = held_input(held, src@.skip(i as int));
            if held.is_none() && i == src.len() {
                assert(dst@.take(j as int) + dst@.skip(j as int) =~= dst@);
                self.pending = None;
                return (DecoderResult::InputEmpty, i, j);
            }
            let step = step_at(held, src, i, last);
            proof {
                lemma_decode_step_shape(s, last);
            }
            let need: usize = 1;
            if dst.len() - j < need {
                assert(dst@.take(j as int) + dst@.skip(j as int) =~= dst@);
                assert(dst@.take(j as int) + seq![] =~= dst@.take(j as int));
                self.pending = held;
                return (DecoderResult::OutputFull, i, j);
            }
            let read_now: usize = if held.is_some() {
                0
            } else {
                i + 1
            };
            match step {
                DecodeStep::Pending => {
                    self.pending = Some(first_byte(held, src, i));
                assert(dst@.take(j as int) + dst@.skip(j as int) =~= dst@);
                assert(dst@.take(j as int) + seq![] =~= dst@.take(j as int));
                    return (DecoderResult::InputEmpty, read_now, j);
                },
                DecodeStep::Malformed => {
                    self.pending = None;
                assert(dst@.take(j as int) + dst@.skip(j as int) =~= dst@);
                assert(dst@.take(j as int) + seq![] =~= dst@.take(j as int));
                    return (DecoderResult::Malformed(1, 0), read_now, j);
                },
                DecodeStep::Emit { unit, len } => {
                    let ghost old_dst = dst@;
                    dst[j] = unit;
                    let n: usize = 1;
                    let ni: usize = if held.is_some() {
                        len as usize - 1
                    } else {
                        i + len as usize
                    };
                    proof {
                        lemma_held_skip(held, src@, i as int, len as int);
                        assert(held_input(None, src@.skip(ni as int)) == src@.skip(ni as int));
                        assert(dst@.take(j + n) =~= old_dst.take(j as int) + seq![unit]);
                        assert(dst@.skip(j + n) =~= old_dst.skip(j + n));
                        assert(old_dst.skip(j + n) =~= old(dst)@.skip(j + n)) by {
                            assert(old_dst.skip(j + n) =~= old_dst.skip(j as int).skip(n as int));
                            assert(old(dst)@.skip(j + n) =~= old(dst)@.skip(j as int).skip(
                                n as int,
                            ));
                        }
                        let rest = decode_to_utf16_spec(src@.skip(ni as int), dst@.len() - (j + n), last);
                        assert(old_dst.take(j as int) + seq![unit] + rest.2 =~= old_dst.take(j as int)
                            + (seq![unit] + rest.2));
                    }
                    i = ni;
                    j = j + n;
                    held = None;
                },
            }
        }
    }
}

} // verus!
