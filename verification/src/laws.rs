//! Properties of the decoder and the encoder taken together.
use vstd::prelude::*;
use vstd::utf8::*;

use crate::decoder::{
    held_after, held_input, held_len, own_bytes_read, decode_step, decode_to_utf16_spec, decode_to_utf8_spec, lemma_decode_step_shape, DecodeStep,
};
use crate::encoder::{encode_chars_spec, encode_utf16_spec, tcvn3_bytes_of, utf16_first};
use crate::table::{
    lemma_decoded_in_table, lemma_pair_first_single_or_ascii, lemma_pair_second_single,
    single_byte_char, starts_pair, lemma_mapping_decodes, lemma_mapping_range, lemma_pair_second_upper, pair_char, tcvn3_mapping,
    Tcvn3Bytes,
};
use crate::types::{DecoderResult, EncoderResult};

verus! {

/// A single-byte character followed by a character whose bytes start with `b`
/// would be read back as one two-byte sequence: `joins_cleanly` says this does
/// not happen when the bytes `a` are followed by the bytes `b`.
pub open spec fn joins_cleanly(a: Seq<u8>, b: Seq<u8>) -> bool {
    a.len() == 1 && b.len() > 0 ==> pair_char(a[0], b[0]) is None
}

/// The TCVN3 bytes of a character (meaningful when it has any).
pub open spec fn char_bytes(c: char) -> Seq<u8> {
    tcvn3_bytes_of(c as u32)->0
}

/// Every character of `s` has a TCVN3 representation.
pub open spec fn text_is_mappable(s: Seq<char>) -> bool {
    forall|i: int| 0 <= i < s.len() ==> #[trigger] tcvn3_bytes_of(s[i] as u32) is Some
}

/// No two neighbouring characters of `s` run together into a two-byte sequence.
pub open spec fn text_joins_cleanly(s: Seq<char>) -> bool {
    forall|i: int|
        #![trigger s[i]]
        0 <= i < s.len() - 1 ==> joins_cleanly(char_bytes(s[i]), char_bytes(s[i + 1]))
}

/// The TCVN3 bytes of a text whose characters are all mappable.
pub open spec fn tcvn3_text(s: Seq<char>) -> Seq<u8>
    decreases s.len(),
{
    if s.len() == 0 {
        seq![]
    } else {
        char_bytes(s[0]) + tcvn3_text(s.drop_first())
    }
}

/// The bytes of a mappable character: ASCII stands for itself, a table entry
/// is one upper-half byte or two bytes.
proof fn lemma_char_bytes_shape(v: u32)
    requires
        tcvn3_bytes_of(v) is Some,
    ensures
        ({
            let b = tcvn3_bytes_of(v)->0;
            &&& 1 <= b.len() <= 2
            &&& v < 0x80 ==> b == seq![v as u8]
            &&& v >= 0x80 ==> v <= 0xFFFF && tcvn3_mapping(v as u16) == Some(
                if b.len() == 1 {
                    Tcvn3Bytes::One(b[0])
                } else {
                    Tcvn3Bytes::Two(b[0], b[1])
                },
            )
            &&& v >= 0x80 && b.len() == 1 ==> b[0] >= 0x80
            &&& v >= 0x80 ==> 0xC0 <= v <= 0x1EF9
        }),
{
    if v >= 0x80 {
        lemma_mapping_range(v as u16);
        lemma_single_entries_upper(v as u16);
    }
}

/// Single-byte table entries lie in the upper half.
proof fn lemma_single_entries_upper(cp: u16)
    ensures
        tcvn3_mapping(cp) matches Some(Tcvn3Bytes::One(b)) ==> b >= 0x80,
{
}

/// Encoding a mappable text with enough room writes all of its bytes.
proof fn lemma_encode_chars_complete(s: Seq<char>, room: int)
    requires
        text_is_mappable(s),
        room >= tcvn3_text(s).len(),
    ensures
        encode_chars_spec(s, room) == (EncoderResult::InputEmpty, s.len() as int, tcvn3_text(s)),
    decreases s.len(),
{
    if s.len() > 0 {
        assert(tcvn3_bytes_of(s[0] as u32) is Some);
        lemma_char_bytes_shape(s[0] as u32);
        lemma_mappable_rest(s);
        lemma_encode_chars_complete(s.drop_first(), room - char_bytes(s[0]).len());
    }
}

/// The rest of a mappable text is mappable.
proof fn lemma_mappable_rest(s: Seq<char>)
    requires
        s.len() > 0,
        text_is_mappable(s),
    ensures
        text_is_mappable(s.drop_first()),
        tcvn3_bytes_of(s[0] as u32) is Some,
{
    let rest = s.drop_first();
    assert forall|i: int| 0 <= i < rest.len() implies #[trigger] tcvn3_bytes_of(
        rest[i] as u32,
    ) is Some by {
        assert(rest[i] == s[i + 1]);
    }
    assert(tcvn3_bytes_of(s[0] as u32) is Some);
}

/// The first decoding step on the TCVN3 bytes of a mappable text that joins
/// cleanly reads the bytes of the first character and emits that character;
/// the rest of the text is mappable and joins cleanly too.
proof fn lemma_text_first_step(s: Seq<char>)
    requires
        s.len() > 0,
        text_is_mappable(s),
        text_joins_cleanly(s),
    ensures
        ({
            let v = s[0] as u32;
            let b = char_bytes(s[0]);
            &&& v < 0x80 || 0xC0 <= v <= 0x1EF9
            &&& (v as u16) as u32 == v
            &&& decode_step(tcvn3_text(s), true) == DecodeStep::Emit {
                unit: v as u16,
                len: b.len() as u8,
            }
            &&& tcvn3_text(s).skip(b.len() as int) == tcvn3_text(s.drop_first())
            &&& text_is_mappable(s.drop_first())
            &&& text_joins_cleanly(s.drop_first())
        }),
{
    let t = tcvn3_text(s);
    let c = s[0];
    let v = c as u32;
    let b = char_bytes(c);
    let rest = s.drop_first();
    let rt = tcvn3_text(rest);
    lemma_mappable_rest(s);
    lemma_char_bytes_shape(v);
    char_is_scalar(c);
    assert(t == b + rt);
    assert forall|i: int| #![trigger rest[i]] 0 <= i < rest.len() - 1 implies joins_cleanly(
        char_bytes(rest[i]),
        char_bytes(rest[i + 1]),
    ) by {
        assert(rest[i] == s[i + 1]);
        assert(rest[i + 1] == s[i + 2]);
    }
    if rest.len() > 0 {
        assert(joins_cleanly(char_bytes(s[0]), char_bytes(s[1])));
        assert(rest[0] == s[1]);
        assert(tcvn3_bytes_of(rest[0] as u32) is Some);
        lemma_char_bytes_shape(rest[0] as u32);
        assert(rt == char_bytes(rest[0]) + tcvn3_text(rest.drop_first()));
        assert(t[1] == (if b.len() == 2 { b[1] } else { rt[0] }));
    }
    lemma_decode_step_shape(t, true);
    if b.len() == 2 {
        lemma_mapping_decodes(v as u16);
        assert(decode_step(t, true) == DecodeStep::Emit { unit: v as u16, len: 2 });
    } else if v < 0x80 {
        assert(decode_step(t, true) == DecodeStep::Emit { unit: v as u16, len: 1 });
    } else {
        lemma_mapping_decodes(v as u16);
        assert(decode_step(t, true) == DecodeStep::Emit { unit: v as u16, len: 1 });
    }
    assert(t.skip(b.len() as int) =~= rt);
}

/// Decoding the TCVN3 bytes of a mappable text that joins cleanly gives back
/// the UTF-8 form of the text, given three bytes of room for each input byte.
proof fn lemma_decode_text_utf8(s: Seq<char>, room: int, after_non_ascii: bool)
    requires
        text_is_mappable(s),
        text_joins_cleanly(s),
        room >= 3 * tcvn3_text(s).len(),
    ensures
        decode_to_utf8_spec(tcvn3_text(s), room, after_non_ascii, true) == (
            DecoderResult::InputEmpty,
            tcvn3_text(s).len() as int,
            encode_utf8(s),
            None::<u8>,
        ),
    decreases s.len(),
{
    if s.len() > 0 {
        lemma_text_first_step(s);
        let v = s[0] as u32;
        assert(encode_scalar(v).len() <= 3);
        lemma_decode_text_utf8(s.drop_first(), room - encode_scalar(v).len(), v >= 0x80);
        assert(encode_utf8(s) == encode_scalar(v) + encode_utf8(s.drop_first()));
    } else {
        assert(encode_utf8(s) =~= Seq::<u8>::empty());
    }
}

/// Round trip through UTF-8: encoding a text whose characters are all
/// mappable and join cleanly, into a buffer of at least twice its UTF-8
/// length, reads all of it; decoding the bytes written, as final input, into
/// a buffer of at least four bytes per byte, reads them all, leaves nothing
/// pending, and writes the UTF-8 form of the text.
pub proof fn lemma_utf8_round_trip(s: Seq<char>, enc_room: int, dec_room: int)
    requires
        text_is_mappable(s),
        text_joins_cleanly(s),
        enc_room >= 2 * encode_utf8(s).len(),
        dec_room >= 4 * encode_chars_spec(s, enc_room).2.len(),
    ensures
        ({
            let e = encode_chars_spec(s, enc_room);
            let d = decode_to_utf8_spec(e.2, dec_room, false, true);
            &&& e.0 == EncoderResult::InputEmpty
            &&& e.1 == s.len()
            &&& d.0 == DecoderResult::InputEmpty
            &&& d.1 == e.2.len()
            &&& d.2 == encode_utf8(s)
            &&& d.3 is None
        }),
{
    lemma_text_len_bound(s);
    lemma_encode_chars_complete(s, enc_room);
    lemma_decode_text_utf8(s, dec_room, false);
}

/// The TCVN3 text is no longer than twice the characters, nor than twice the
/// UTF-8 form.
proof fn lemma_text_len_bound(s: Seq<char>)
    requires
        text_is_mappable(s),
    ensures
        tcvn3_text(s).len() <= 2 * s.len(),
        tcvn3_text(s).len() <= 2 * encode_utf8(s).len(),
        s.len() <= encode_utf8(s).len(),
    decreases s.len(),
{
    if s.len() > 0 {
        assert(tcvn3_bytes_of(s[0] as u32) is Some);
        lemma_char_bytes_shape(s[0] as u32);
        char_is_scalar(s[0]);
        lemma_mappable_rest(s);
        lemma_text_len_bound(s.drop_first());
    }
}

/// The UTF-16 code units of a text of BMP characters.
pub open spec fn bmp_units(s: Seq<char>) -> Seq<u16> {
    s.map_values(|c: char| (c as u32) as u16)
}

/// Encoding the UTF-16 form of a mappable text with enough room writes all of
/// its bytes.
proof fn lemma_encode_units_complete(s: Seq<char>, room: int)
    requires
        text_is_mappable(s),
        room >= tcvn3_text(s).len(),
    ensures
        encode_utf16_spec(bmp_units(s), room) == (
            EncoderResult::InputEmpty,
            s.len() as int,
            tcvn3_text(s),
        ),
    decreases s.len(),
{
    let u = bmp_units(s);
    if s.len() > 0 {
        assert(tcvn3_bytes_of(s[0] as u32) is Some);
        lemma_char_bytes_shape(s[0] as u32);
        char_is_scalar(s[0]);
        assert(u[0] == (s[0] as u32) as u16);
        assert(u[0] as u32 == s[0] as u32);
        assert(utf16_first(u) == (s[0] as u32, 1int));
        assert(u.skip(1) =~= bmp_units(s.drop_first()));
        lemma_mappable_rest(s);
        lemma_encode_units_complete(s.drop_first(), room - char_bytes(s[0]).len());
    }
}

/// Decoding the TCVN3 bytes of a mappable text that joins cleanly to UTF-16
/// gives back the code units of the text, given one unit of room per byte.
proof fn lemma_decode_text_utf16(s: Seq<char>, room: int)
    requires
        text_is_mappable(s),
        text_joins_cleanly(s),
        room >= tcvn3_text(s).len(),
    ensures
        decode_to_utf16_spec(tcvn3_text(s), room, true) == (
            DecoderResult::InputEmpty,
            tcvn3_text(s).len() as int,
            bmp_units(s),
            None::<u8>,
        ),
    decreases s.len(),
{
    if s.len() > 0 {
        lemma_text_first_step(s);
        let v = s[0] as u32;
        lemma_decode_text_utf16(s.drop_first(), room - 1);
        assert(bmp_units(s) =~= seq![v as u16] + bmp_units(s.drop_first()));
    } else {
        assert(bmp_units(s) =~= Seq::<u16>::empty());
    }
}

/// Round trip through UTF-16: encoding the UTF-16 form of a text whose
/// characters are all mappable and join cleanly, into a buffer of at least
/// two bytes per code unit, reads all of it; decoding the bytes written, as
/// final input, into a buffer of at least one unit per byte, reads them all,
/// leaves nothing pending, and writes the same code units.
pub proof fn lemma_utf16_round_trip(s: Seq<char>, enc_room: int, dec_room: int)
    requires
        text_is_mappable(s),
        text_joins_cleanly(s),
        enc_room >= 2 * s.len(),
        dec_room >= encode_utf16_spec(bmp_units(s), enc_room).2.len(),
    ensures
        ({
            let e = encode_utf16_spec(bmp_units(s), enc_room);
            let d = decode_to_utf16_spec(e.2, dec_room, true);
            &&& e.0 == EncoderResult::InputEmpty
            &&& e.1 == s.len()
            &&& d.0 == DecoderResult::InputEmpty
            &&& d.1 == e.2.len()
            &&& d.2 == bmp_units(s)
            &&& d.3 is None
        }),
{
    lemma_text_len_bound(s);
    lemma_encode_units_complete(s, enc_room);
    lemma_decode_text_utf16(s, dec_room);
}

/// Decoding to UTF-8 with three bytes of room per input byte never stops
/// for want of room; the four bytes per byte of `max_utf8_buffer_length`
/// therefore always suffice.
pub proof fn lemma_utf8_decode_room(s: Seq<u8>, room: int, after_non_ascii: bool, last: bool)
    requires
        room >= 3 * s.len(),
    ensures
        decode_to_utf8_spec(s, room, after_non_ascii, last).0 != DecoderResult::OutputFull,
    decreases s.len(),
{
    if s.len() > 0 {
        lemma_decode_step_shape(s, last);
        if let DecodeStep::Emit { unit, len } = decode_step(s, last) {
            assert(encode_scalar(unit as u32).len() <= 3);
            lemma_utf8_decode_room(
                s.skip(len as int),
                room - encode_scalar(unit as u32).len(),
                unit >= 0x80,
                last,
            );
        }
    }
}

/// Decoding to UTF-16 with one code unit of room per input byte (what
/// `max_utf16_buffer_length` gives) never stops for want of room.
pub proof fn lemma_utf16_decode_room(s: Seq<u8>, room: int, last: bool)
    requires
        room >= s.len(),
    ensures
        decode_to_utf16_spec(s, room, last).0 != DecoderResult::OutputFull,
    decreases s.len(),
{
    if s.len() > 0 {
        lemma_decode_step_shape(s, last);
        if let DecodeStep::Emit { unit, len } = decode_step(s, last) {
            lemma_utf16_decode_room(s.skip(len as int), room - 1, last);
        }
    }
}

/// Encoding UTF-8 with two bytes of room per input byte (what
/// `max_buffer_length_from_utf8_if_no_unmappables` gives) never stops for
/// want of room.
pub proof fn lemma_utf8_encode_room(s: Seq<char>, room: int)
    requires
        room >= 2 * encode_utf8(s).len(),
    ensures
        encode_chars_spec(s, room).0 != EncoderResult::OutputFull,
    decreases s.len(),
{
    if s.len() > 0 {
        let v = s[0] as u32;
        char_is_scalar(s[0]);
        assert(encode_utf8(s) == encode_scalar(v) + encode_utf8(s.drop_first()));
        if tcvn3_bytes_of(v) is Some {
            lemma_char_bytes_shape(v);
            lemma_utf8_encode_room(
                s.drop_first(),
                room - tcvn3_bytes_of(v)->0.len(),
            );
        }
    }
}

/// Encoding UTF-16 with two bytes of room per input code unit (what
/// `max_buffer_length_from_utf16_if_no_unmappables` gives) never stops for
/// want of room.
pub proof fn lemma_utf16_encode_room(s: Seq<u16>, room: int)
    requires
        room >= 2 * s.len(),
    ensures
        encode_utf16_spec(s, room).0 != EncoderResult::OutputFull,
    decreases s.len(),
{
    if s.len() > 0 {
        let (v, w) = utf16_first(s);
        if tcvn3_bytes_of(v) is Some {
            lemma_char_bytes_shape(v);
            lemma_utf16_encode_room(s.skip(w), room - tcvn3_bytes_of(v)->0.len());
        }
    }
}

/// The UTF-8 decoder writes well-formed UTF-8.
pub proof fn lemma_utf8_decode_valid(s: Seq<u8>, room: int, after_non_ascii: bool, last: bool)
    ensures
        valid_utf8(decode_to_utf8_spec(s, room, after_non_ascii, last).2),
    decreases s.len(),
{
    if s.len() > 0 {
        lemma_decode_step_shape(s, last);
        if let DecodeStep::Emit { unit, len } = decode_step(s, last) {
            let step = decode_step(s, last);
            if room >= crate::decoder::utf8_room_needed(step, after_non_ascii) {
                let v = unit as u32;
                let rest = decode_to_utf8_spec(
                    s.skip(len as int),
                    room - encode_scalar(v).len(),
                    unit >= 0x80,
                    last,
                );
                lemma_utf8_decode_valid(
                    s.skip(len as int),
                    room - encode_scalar(v).len(),
                    unit >= 0x80,
                    last,
                );
                let c = v as char;
                assert(c as u32 == v);
                let one = seq![c];
                assert(one.drop_first() =~= Seq::<char>::empty());
                assert(encode_utf8(one.drop_first()) =~= Seq::<u8>::empty());
                assert(encode_utf8(one) =~= encode_scalar(v));
                encode_utf8_valid_utf8(one);
                valid_utf8_concat(encode_scalar(v), rest.2);
            }
        }
    }
}

/// A byte is left pending only by a non-final input that ends with an
/// upper-half byte or a byte that begins a two-byte sequence; that byte is the
/// last one and is counted as read.
pub proof fn lemma_utf8_pending_only_at_end(
    s: Seq<u8>,
    room: int,
    after_non_ascii: bool,
    last: bool,
)
    ensures
        ({
            let run = decode_to_utf8_spec(s, room, after_non_ascii, last);
            run.3 matches Some(b) ==> {
                &&& !last
                &&& s.len() > 0
                &&& b == s.last()
                &&& (b >= 0x80 || starts_pair(b))
                &&& run.0 == DecoderResult::InputEmpty
                &&& run.1 == s.len()
            }
        }),
    decreases s.len(),
{
    if s.len() > 0 {
        lemma_decode_step_shape(s, last);
        if let DecodeStep::Emit { unit, len } = decode_step(s, last) {
            let v = unit as u32;
            lemma_utf8_pending_only_at_end(
                s.skip(len as int),
                room - encode_scalar(v).len(),
                unit >= 0x80,
                last,
            );
        }
    }
}

/// The same for the UTF-16 decoder.
pub proof fn lemma_utf16_pending_only_at_end(s: Seq<u8>, room: int, last: bool)
    ensures
        ({
            let run = decode_to_utf16_spec(s, room, last);
            run.3 matches Some(b) ==> {
                &&& !last
                &&& s.len() > 0
                &&& b == s.last()
                &&& (b >= 0x80 || starts_pair(b))
                &&& run.0 == DecoderResult::InputEmpty
                &&& run.1 == s.len()
            }
        }),
    decreases s.len(),
{
    if s.len() > 0 {
        lemma_decode_step_shape(s, last);
        if let DecodeStep::Emit { unit, len } = decode_step(s, last) {
            lemma_utf16_pending_only_at_end(s.skip(len as int), room - 1, last);
        }
    }
}

/// Every character of `s` is ASCII.
pub open spec fn text_is_ascii(s: Seq<char>) -> bool {
    forall|i: int| 0 <= i < s.len() ==> (#[trigger] s[i] as u32) < 0x80
}

/// The UTF-8 form of an ASCII text: its first byte is its first character.
proof fn lemma_ascii_utf8_unfold(s: Seq<char>)
    requires
        text_is_ascii(s),
        s.len() > 0,
    ensures
        encode_utf8(s) == seq![(s[0] as u32) as u8] + encode_utf8(s.drop_first()),
        text_is_ascii(s.drop_first()),
        s.len() > 1 ==> encode_utf8(s)[1] == (s[1] as u32) as u8,
{
    let v = s[0] as u32;
    assert((s[0] as u32) < 0x80);
    assert(v & 0x7F == v) by (bit_vector)
        requires
            v < 0x80,
    ;
    assert(encode_scalar(v) =~= seq![v as u8]);
    let rest = s.drop_first();
    assert forall|i: int| 0 <= i < rest.len() implies (#[trigger] rest[i] as u32) < 0x80 by {
        assert(rest[i] == s[i + 1]);
    }
    if s.len() > 1 {
        let w = rest[0] as u32;
        assert(rest[0] == s[1]);
        assert((s[1] as u32) < 0x80);
        assert(w & 0x7F == w) by (bit_vector)
            requires
                w < 0x80,
        ;
        assert(encode_utf8(rest) == encode_scalar(w) + encode_utf8(rest.drop_first()));
    }
}

/// An ASCII text encodes to its own bytes.
proof fn lemma_ascii_encode(s: Seq<char>, room: int)
    requires
        text_is_ascii(s),
        room >= s.len(),
    ensures
        encode_chars_spec(s, room) == (EncoderResult::InputEmpty, s.len() as int, encode_utf8(s)),
    decreases s.len(),
{
    if s.len() > 0 {
        lemma_ascii_utf8_unfold(s);
        lemma_ascii_encode(s.drop_first(), room - 1);
    } else {
        assert(encode_utf8(s) =~= Seq::<u8>::empty());
    }
}

/// ASCII bytes decode to themselves.
proof fn lemma_ascii_decode(s: Seq<char>, room: int)
    requires
        text_is_ascii(s),
        room >= s.len(),
    ensures
        encode_utf8(s).len() == s.len(),
        decode_to_utf8_spec(encode_utf8(s), room, false, true) == (
            DecoderResult::InputEmpty,
            s.len() as int,
            encode_utf8(s),
            None::<u8>,
        ),
        decode_to_utf16_spec(encode_utf8(s), room, true) == (
            DecoderResult::InputEmpty,
            s.len() as int,
            bmp_units(s),
            None::<u8>,
        ),
    decreases s.len(),
{
    let t = encode_utf8(s);
    if s.len() > 0 {
        lemma_ascii_utf8_unfold(s);
        let rest = s.drop_first();
        let v = s[0] as u32;
        if s.len() > 1 {
            lemma_pair_second_upper(t[0], t[1]);
        }
        assert(decode_step(t, true) == DecodeStep::Emit { unit: (v as u8) as u16, len: 1 });
        assert(t.skip(1) =~= encode_utf8(rest));
        assert(((v as u8) as u16) as u32 == v);
        lemma_ascii_decode(rest, room - 1);
        assert(bmp_units(s) =~= seq![(v as u8) as u16] + bmp_units(rest));
    } else {
        assert(t =~= Seq::<u8>::empty());
        assert(bmp_units(s) =~= Seq::<u16>::empty());
    }
}

/// ASCII passes through unchanged: an ASCII text encodes to its own bytes,
/// and these bytes, as final input, decode to UTF-8 and to UTF-16 to the same
/// text, given one byte or code unit of room per character.
pub proof fn lemma_ascii_passthrough(s: Seq<char>, room: int)
    requires
        text_is_ascii(s),
        room >= s.len(),
    ensures
        encode_chars_spec(s, room) == (EncoderResult::InputEmpty, s.len() as int, encode_utf8(s)),
        decode_to_utf8_spec(encode_utf8(s), room, false, true) == (
            DecoderResult::InputEmpty,
            s.len() as int,
            encode_utf8(s),
            None::<u8>,
        ),
        decode_to_utf16_spec(encode_utf8(s), room, true) == (
            DecoderResult::InputEmpty,
            s.len() as int,
            bmp_units(s),
            None::<u8>,
        ),
{
    lemma_ascii_encode(s, room);
    lemma_ascii_decode(s, room);
}

/// Every upper-half byte of `s` stands alone for a letter.
pub open spec fn no_malformed_bytes(s: Seq<u8>) -> bool {
    forall|i: int| 0 <= i < s.len() && s[i] >= 0x80 ==> #[trigger] single_byte_char(s[i]) is Some
}

proof fn lemma_no_malformed_skip(s: Seq<u8>, n: int)
    requires
        no_malformed_bytes(s),
        0 <= n <= s.len(),
    ensures
        no_malformed_bytes(s.skip(n)),
{
    assert forall|i: int| 0 <= i < s.skip(n).len() && s.skip(n)[i] >= 0x80 implies #[trigger] single_byte_char(
        s.skip(n)[i],
    ) is Some by {
        assert(s.skip(n)[i] == s[i + n]);
    }
}

/// Steps on at least two bytes do not look past the second byte, nor at
/// whether the input is the last one.
proof fn lemma_decode_step_extends(a: Seq<u8>, b: Seq<u8>, l1: bool, l2: bool)
    requires
        a.len() >= 2,
    ensures
        decode_step(a, l1) == decode_step(a + b, l2),
{
    assert((a + b)[0] == a[0]);
    assert((a + b)[1] == a[1]);
}

/// Given three bytes of room per input byte, the UTF-8 decoder's room and the
/// kind of the previous character do not matter, and a non-empty input has at
/// least one byte read.
proof fn lemma_utf8_ample_room(
    s: Seq<u8>,
    r1: int,
    f1: bool,
    r2: int,
    f2: bool,
    last: bool,
)
    requires
        r1 >= 3 * s.len(),
        r2 >= 3 * s.len(),
    ensures
        decode_to_utf8_spec(s, r1, f1, last) == decode_to_utf8_spec(s, r2, f2, last),
        s.len() > 0 ==> decode_to_utf8_spec(s, r1, f1, last).1 >= 1,
    decreases s.len(),
{
    if s.len() > 0 {
        lemma_decode_step_shape(s, last);
        if let DecodeStep::Emit { unit, len } = decode_step(s, last) {
            let e = encode_scalar(unit as u32).len();
            assert(e <= 3);
            lemma_utf8_ample_room(s.skip(len as int), r1 - e, unit >= 0x80, r2 - e, unit >= 0x80, last);
        }
    }
}

/// Given one code unit of room per input byte, the UTF-16 decoder's room does
/// not matter, and a non-empty input has at least one byte read.
proof fn lemma_utf16_ample_room(s: Seq<u8>, r1: int, r2: int, last: bool)
    requires
        r1 >= s.len(),
        r2 >= s.len(),
    ensures
        decode_to_utf16_spec(s, r1, last) == decode_to_utf16_spec(s, r2, last),
        s.len() > 0 ==> decode_to_utf16_spec(s, r1, last).1 >= 1,
    decreases s.len(),
{
    if s.len() > 0 {
        lemma_decode_step_shape(s, last);
        if let DecodeStep::Emit { unit, len } = decode_step(s, last) {
            lemma_utf16_ample_room(s.skip(len as int), r1 - 1, r2 - 1, last);
        }
    }
}

/// Without malformed bytes and with enough room, the UTF-8 decoder reads its
/// whole input, and leaves nothing pending when the input is the last one.
proof fn lemma_utf8_reads_all(s: Seq<u8>, room: int, f: bool, last: bool)
    requires
        no_malformed_bytes(s),
        room >= 3 * s.len(),
    ensures
        decode_to_utf8_spec(s, room, f, last).0 == DecoderResult::InputEmpty,
        decode_to_utf8_spec(s, room, f, last).1 == s.len(),
        last ==> decode_to_utf8_spec(s, room, f, last).3 is None,
    decreases s.len(),
{
    if s.len() > 0 {
        lemma_decode_step_shape(s, last);
        if s[0] >= 0x80 {
            assert(single_byte_char(s[0]) is Some);
        }
        if let DecodeStep::Emit { unit, len } = decode_step(s, last) {
            let e = encode_scalar(unit as u32).len();
            assert(e <= 3);
            lemma_no_malformed_skip(s, len as int);
            lemma_utf8_reads_all(s.skip(len as int), room - e, unit >= 0x80, last);
        }
    }
}

/// The same for the UTF-16 decoder.
proof fn lemma_utf16_reads_all(s: Seq<u8>, room: int, last: bool)
    requires
        no_malformed_bytes(s),
        room >= s.len(),
    ensures
        decode_to_utf16_spec(s, room, last).0 == DecoderResult::InputEmpty,
        decode_to_utf16_spec(s, room, last).1 == s.len(),
        last ==> decode_to_utf16_spec(s, room, last).3 is None,
    decreases s.len(),
{
    if s.len() > 0 {
        lemma_decode_step_shape(s, last);
        if s[0] >= 0x80 {
            assert(single_byte_char(s[0]) is Some);
        }
        if let DecodeStep::Emit { unit, len } = decode_step(s, last) {
            lemma_no_malformed_skip(s, len as int);
            lemma_utf16_reads_all(s.skip(len as int), room - 1, last);
        }
    }
}

/// A non-final UTF-8 call on `a` that reads all of it, followed by a final
/// call on the held byte and `b`, together do what one final call on `a + b`
/// does.
proof fn lemma_utf8_chunks(
    a: Seq<u8>,
    b: Seq<u8>,
    r1: int,
    f1: bool,
    r2: int,
    f2: bool,
    r3: int,
    f3: bool,
)
    requires
        r1 >= 3 * a.len(),
        r2 >= 3 * (b.len() + 1),
        r3 >= 3 * (a.len() + b.len()),
    ensures
        ({
            let run1 = decode_to_utf8_spec(a, r1, f1, false);
            let h = held_after(None, run1.1, run1.3);
            let run2 = decode_to_utf8_spec(held_input(h, b), r2, f2, true);
            let run = decode_to_utf8_spec(a + b, r3, f3, true);
            run1.0 == DecoderResult::InputEmpty ==> {
                &&& run1.1 == a.len()
                &&& run2.1 >= held_len(h)
                &&& run == (run2.0, run1.1 + run2.1 - held_len(h), run1.2 + run2.2, run2.3)
            }
        }),
    decreases a.len(),
{
    let run1 = decode_to_utf8_spec(a, r1, f1, false);
    if a.len() == 0 {
        assert(a + b =~= b);
        lemma_utf8_ample_room(b, r2, f2, r3, f3, true);
        assert(run1.2 + decode_to_utf8_spec(b, r2, f2, true).2 =~= decode_to_utf8_spec(
            b,
            r2,
            f2,
            true,
        ).2);
    } else if a.len() == 1 {
        lemma_decode_step_shape(a, false);
        if a[0] >= 0x80 || starts_pair(a[0]) {
            assert(decode_step(a, false) == DecodeStep::Pending);
            assert(held_input(Some(a[0]), b) =~= a + b);
            lemma_utf8_ample_room(a + b, r2, f2, r3, f3, true);
            assert(run1.2 + decode_to_utf8_spec(a + b, r2, f2, true).2 =~= decode_to_utf8_spec(
                a + b,
                r2,
                f2,
                true,
            ).2);
        } else {
            assert((a + b)[0] == a[0]);
            if b.len() > 0 {
                assert((a + b)[1] == b[0]);
                assert(!(pair_char(a[0], b[0]) is Some));
            }
            assert(decode_step(a, false) == DecodeStep::Emit { unit: a[0] as u16, len: 1 });
            assert(decode_step(a + b, true) == decode_step(a, false));
            assert((a + b).skip(1) =~= a.skip(1) + b);
            lemma_utf8_chunks(a.skip(1), b, r1 - 1, false, r2, f2, r3 - 1, false);
            let rest1 = decode_to_utf8_spec(a.skip(1), r1 - 1, false, false);
            let rest2 = decode_to_utf8_spec(b, r2, f2, true);
            assert(encode_scalar(a[0] as u16 as u32) + rest1.2 + rest2.2 =~= encode_scalar(
                a[0] as u16 as u32,
            ) + (rest1.2 + rest2.2));
        }
    } else {
        lemma_decode_step_extends(a, b, false, true);
        lemma_decode_step_shape(a, false);
        if let DecodeStep::Emit { unit, len } = decode_step(a, false) {
            let e = encode_scalar(unit as u32).len();
            assert(e <= 3);
            assert((a + b).skip(len as int) =~= a.skip(len as int) + b);
            lemma_utf8_chunks(a.skip(len as int), b, r1 - e, unit >= 0x80, r2, f2, r3 - e, unit >= 0x80);
            let rest1 = decode_to_utf8_spec(a.skip(len as int), r1 - e, unit >= 0x80, false);
            let h = held_after(None, rest1.1, rest1.3);
            let rest2 = decode_to_utf8_spec(held_input(h, b), r2, f2, true);
            assert(encode_scalar(unit as u32) + rest1.2 + rest2.2 =~= encode_scalar(unit as u32) + (
            rest1.2 + rest2.2));
        }
    }
}

/// The same for the UTF-16 decoder.
proof fn lemma_utf16_chunks(a: Seq<u8>, b: Seq<u8>, r1: int, r2: int, r3: int)
    requires
        r1 >= a.len(),
        r2 >= b.len() + 1,
        r3 >= a.len() + b.len(),
    ensures
        ({
            let run1 = decode_to_utf16_spec(a, r1, false);
            let h = held_after(None, run1.1, run1.3);
            let run2 = decode_to_utf16_spec(held_input(h, b), r2, true);
            let run = decode_to_utf16_spec(a + b, r3, true);
            run1.0 == DecoderResult::InputEmpty ==> {
                &&& run1.1 == a.len()
                &&& run2.1 >= held_len(h)
                &&& run == (run2.0, run1.1 + run2.1 - held_len(h), run1.2 + run2.2, run2.3)
            }
        }),
    decreases a.len(),
{
    let run1 = decode_to_utf16_spec(a, r1, false);
    if a.len() == 0 {
        assert(a + b =~= b);
        lemma_utf16_ample_room(b, r2, r3, true);
        assert(run1.2 + decode_to_utf16_spec(b, r2, true).2 =~= decode_to_utf16_spec(b, r2, true).2);
    } else if a.len() == 1 {
        lemma_decode_step_shape(a, false);
        if a[0] >= 0x80 || starts_pair(a[0]) {
            assert(decode_step(a, false) == DecodeStep::Pending);
            assert(held_input(Some(a[0]), b) =~= a + b);
            lemma_utf16_ample_room(a + b, r2, r3, true);
            assert(run1.2 + decode_to_utf16_spec(a + b, r2, true).2 =~= decode_to_utf16_spec(
                a + b,
                r2,
                true,
            ).2);
        } else {
            assert((a + b)[0] == a[0]);
            if b.len() > 0 {
                assert((a + b)[1] == b[0]);
                assert(!(pair_char(a[0], b[0]) is Some));
            }
            assert(decode_step(a, false) == DecodeStep::Emit { unit: a[0] as u16, len: 1 });
            assert(decode_step(a + b, true) == decode_step(a, false));
            assert((a + b).skip(1) =~= a.skip(1) + b);
            lemma_utf16_chunks(a.skip(1), b, r1 - 1, r2, r3 - 1);
            let rest1 = decode_to_utf16_spec(a.skip(1), r1 - 1, false);
            let rest2 = decode_to_utf16_spec(b, r2, true);
            assert(seq![a[0] as u16] + rest1.2 + rest2.2 =~= seq![a[0] as u16] + (rest1.2
                + rest2.2));
        }
    } else {
        lemma_decode_step_extends(a, b, false, true);
        lemma_decode_step_shape(a, false);
        if let DecodeStep::Emit { unit, len } = decode_step(a, false) {
            assert((a + b).skip(len as int) =~= a.skip(len as int) + b);
            lemma_utf16_chunks(a.skip(len as int), b, r1 - 1, r2, r3 - 1);
            let rest1 = decode_to_utf16_spec(a.skip(len as int), r1 - 1, false);
            let h = held_after(None, rest1.1, rest1.3);
            let rest2 = decode_to_utf16_spec(held_input(h, b), r2, true);
            assert(seq![unit] + rest1.2 + rest2.2 =~= seq![unit] + (rest1.2 + rest2.2));
        }
    }
}

proof fn lemma_no_malformed_split(a: Seq<u8>, b: Seq<u8>)
    requires
        no_malformed_bytes(a + b),
    ensures
        no_malformed_bytes(a),
{
    assert forall|i: int| 0 <= i < a.len() && a[i] >= 0x80 implies #[trigger] single_byte_char(
        a[i],
    ) is Some by {
        assert((a + b)[i] == a[i]);
    }
}

/// Decoding to UTF-8 in two calls, the first not final, gives what one final
/// call on the joined input gives, for an input without malformed bytes and
/// with buffers of three bytes per byte (one more byte for a held one): both
/// ways read everything, the outputs of the two calls join to the output of
/// the one call, and no byte is left held.
pub proof fn lemma_utf8_chunked_decoding(a: Seq<u8>, b: Seq<u8>, room1: int, room2: int, room: int)
    requires
        no_malformed_bytes(a + b),
        room1 >= 3 * a.len(),
        room2 >= 3 * (b.len() + 1),
        room >= 3 * (a + b).len(),
    ensures
        ({
            let first = decode_to_utf8_spec(held_input(None, a), room1, false, false);
            let held = held_after(None, first.1, first.3);
            let second = decode_to_utf8_spec(held_input(held, b), room2, false, true);
            let once = decode_to_utf8_spec(a + b, room, false, true);
            &&& first.0 == DecoderResult::InputEmpty
            &&& own_bytes_read(None, first.1) == a.len()
            &&& second.0 == DecoderResult::InputEmpty
            &&& own_bytes_read(held, second.1) == b.len()
            &&& held_after(held, second.1, second.3) is None
            &&& once.0 == DecoderResult::InputEmpty
            &&& once.1 == (a + b).len()
            &&& first.2 + second.2 == once.2
        }),
{
    lemma_no_malformed_split(a, b);
    lemma_utf8_reads_all(a, room1, false, false);
    lemma_utf8_reads_all(a + b, room, false, true);
    lemma_utf8_chunks(a, b, room1, false, room2, false, room, false);
}

/// The same for decoding to UTF-16, with one code unit of room per byte.
pub proof fn lemma_utf16_chunked_decoding(a: Seq<u8>, b: Seq<u8>, room1: int, room2: int, room: int)
    requires
        no_malformed_bytes(a + b),
        room1 >= a.len(),
        room2 >= b.len() + 1,
        room >= (a + b).len(),
    ensures
        ({
            let first = decode_to_utf16_spec(held_input(None, a), room1, false);
            let held = held_after(None, first.1, first.3);
            let second = decode_to_utf16_spec(held_input(held, b), room2, true);
            let once = decode_to_utf16_spec(a + b, room, true);
            &&& first.0 == DecoderResult::InputEmpty
            &&& own_bytes_read(None, first.1) == a.len()
            &&& second.0 == DecoderResult::InputEmpty
            &&& own_bytes_read(held, second.1) == b.len()
            &&& held_after(held, second.1, second.3) is None
            &&& once.0 == DecoderResult::InputEmpty
            &&& once.1 == (a + b).len()
            &&& first.2 + second.2 == once.2
        }),
{
    lemma_no_malformed_split(a, b);
    lemma_utf16_reads_all(a, room1, false);
    lemma_utf16_reads_all(a + b, room, true);
    lemma_utf16_chunks(a, b, room1, room2, room);
}

/// The number of input bytes whose decoding a run has written: the bytes
/// read, less a last byte that was malformed or is held.
pub open spec fn decoded_len(result: DecoderResult, read: int, pending: Option<u8>) -> int {
    if result is Malformed || pending is Some {
        read - 1
    } else {
        read
    }
}

/// What the UTF-8 decoder writes is the decoding, as final input, of the
/// bytes it has decoded: the bytes it read, less a malformed or held last
/// byte. That prefix decodes completely.
pub proof fn lemma_utf8_writes_decoding_of_prefix(s: Seq<u8>, room: int, f: bool, last: bool)
    ensures
        ({
            let run = decode_to_utf8_spec(s, room, f, last);
            let k = decoded_len(run.0, run.1, run.3);
            &&& 0 <= k <= s.len()
            &&& decode_to_utf8_spec(s.take(k), 3 * k, f, true) == (
                DecoderResult::InputEmpty,
                k,
                run.2,
                None::<u8>,
            )
        }),
    decreases s.len(),
{
    let run = decode_to_utf8_spec(s, room, f, last);
    if s.len() == 0 {
        assert(s.take(0) =~= s);
    } else {
        lemma_decode_step_shape(s, last);
        let step = decode_step(s, last);
        if room < crate::decoder::utf8_room_needed(step, f) {
            assert(s.take(0) =~= Seq::<u8>::empty());
        } else {
            match step {
                DecodeStep::Emit { unit, len } => {
                    let e = encode_scalar(unit as u32).len();
                    assert(e <= 3);
                    let rest_s = s.skip(len as int);
                    lemma_utf8_writes_decoding_of_prefix(rest_s, room - e, unit >= 0x80, last);
                    let rest = decode_to_utf8_spec(rest_s, room - e, unit >= 0x80, last);
                    let k2 = decoded_len(rest.0, rest.1, rest.3);
                    let k = k2 + len;
                    let p = s.take(k);
                    assert(p[0] == s[0]);
                    if p.len() >= 2 {
                        assert(p[1] == s[1]);
                    }
                    assert(decode_step(p, true) == step);
                    assert(p.skip(len as int) =~= rest_s.take(k2));
                    lemma_utf8_ample_room(rest_s.take(k2), 3 * k - e, unit >= 0x80, 3 * k2, unit >= 0x80, true);
                },
                _ => {
                    assert(s.take(0) =~= Seq::<u8>::empty());
                },
            }
        }
    }
}

/// An upper-half byte that stands for nothing.
pub open spec fn is_unmapped(b: u8) -> bool {
    b >= 0x80 && single_byte_char(b) is None
}

proof fn lemma_utf8_malformed_at(s: Seq<u8>, j: int, room: int, f: bool, last: bool)
    requires
        0 <= j < s.len(),
        is_unmapped(s[j]),
        forall|i: int| 0 <= i < j ==> !is_unmapped(#[trigger] s[i]),
        last || j + 1 < s.len(),
        room >= 3 * s.len(),
    ensures
        decode_to_utf8_spec(s, room, f, last).0 == DecoderResult::Malformed(1, 0),
        decode_to_utf8_spec(s, room, f, last).1 == j + 1,
        decode_to_utf8_spec(s, room, f, last).3 is None,
    decreases s.len(),
{
    lemma_decode_step_shape(s, last);
    if s.len() >= 2 {
        lemma_pair_first_single_or_ascii(s[0], s[1]);
        lemma_pair_second_single(s[0], s[1]);
    }
    if j > 0 {
        assert(!is_unmapped(s[0]));
        if let DecodeStep::Emit { unit, len } = decode_step(s, last) {
            let e = encode_scalar(unit as u32).len();
            assert(e <= 3);
            let rest = s.skip(len as int);
            assert forall|i: int| 0 <= i < j - len implies !is_unmapped(#[trigger] rest[i]) by {
                assert(rest[i] == s[i + len]);
            }
            assert(rest[j - len] == s[j]);
            lemma_utf8_malformed_at(rest, j - len, room - e, unit >= 0x80, last);
        }
    }
}

/// The UTF-8 decoder stops at the first upper-half byte that stands for
/// nothing (unless it ends a non-final input), with `Malformed(1, 0)` after
/// reading it, having written the decoding of the bytes before it.
pub proof fn lemma_utf8_stops_at_first_unmapped(
    s: Seq<u8>,
    j: int,
    room: int,
    f: bool,
    last: bool,
)
    requires
        0 <= j < s.len(),
        is_unmapped(s[j]),
        forall|i: int| 0 <= i < j ==> !is_unmapped(#[trigger] s[i]),
        last || j + 1 < s.len(),
        room >= 3 * s.len(),
    ensures
        ({
            let run = decode_to_utf8_spec(s, room, f, last);
            &&& run.0 == DecoderResult::Malformed(1, 0)
            &&& run.1 == j + 1
            &&& run.3 is None
            &&& run.2 == decode_to_utf8_spec(s.take(j), 3 * j, f, true).2
        }),
{
    lemma_utf8_malformed_at(s, j, room, f, last);
    lemma_utf8_writes_decoding_of_prefix(s, room, f, last);
}

proof fn lemma_reencode_chars(b: Seq<u8>, room: int, f: bool, eroom: int) -> (cs: Seq<char>)
    requires
        no_malformed_bytes(b),
        room >= 3 * b.len(),
        eroom >= b.len(),
    ensures
        encode_utf8(cs) == decode_to_utf8_spec(b, room, f, true).2,
        encode_chars_spec(cs, eroom) == (EncoderResult::InputEmpty, cs.len() as int, b),
    decreases b.len(),
{
    if b.len() == 0 {
        let cs = Seq::<char>::empty();
        assert(encode_utf8(cs) =~= Seq::<u8>::empty());
        cs
    } else {
        lemma_decode_step_shape(b, true);
        if b[0] >= 0x80 {
            assert(single_byte_char(b[0]) is Some);
        }
        let step = decode_step(b, true);
        let unit = step->unit;
        let len = step->len;
        let v = unit as u32;
        let c = v as char;
        assert(c as u32 == v);
        if b.len() >= 2 {
            lemma_decoded_in_table(b[0], b[1]);
        } else {
            lemma_decoded_in_table(b[0], 0);
        }
        assert(tcvn3_bytes_of(c as u32) == Some(b.take(len as int)));
        let e = encode_scalar(v).len();
        assert(e <= 3);
        lemma_no_malformed_skip(b, len as int);
        let rest = lemma_reencode_chars(b.skip(len as int), room - e, unit >= 0x80, eroom - len);
        let cs = seq![c] + rest;
        assert(cs.drop_first() =~= rest);
        assert(cs[0] == c);
        assert(b.take(len as int) + b.skip(len as int) =~= b);
        cs
    }
}

/// Encoding the text that the UTF-8 decoder makes of TCVN3 bytes without
/// malformed bytes gives back the same bytes, with one byte of room per byte.
pub proof fn lemma_utf8_decoded_reencodes(b: Seq<u8>, room: int, eroom: int)
    requires
        no_malformed_bytes(b),
        room >= 3 * b.len(),
        eroom >= b.len(),
    ensures
        ({
            let d = decode_to_utf8_spec(b, room, false, true);
            let text = decode_utf8(d.2);
            &&& d.0 == DecoderResult::InputEmpty
            &&& d.1 == b.len()
            &&& encode_chars_spec(text, eroom) == (EncoderResult::InputEmpty, text.len() as int, b)
        }),
{
    lemma_utf8_reads_all(b, room, false, true);
    let cs = lemma_reencode_chars(b, room, false, eroom);
    encode_utf8_decode_utf8(cs);
}

/// The UTF-16 code units of one character.
pub open spec fn char_units(c: char) -> Seq<u16> {
    let v = c as u32;
    if v < 0x10000 {
        seq![v as u16]
    } else {
        seq![(0xD800 + (v - 0x10000) / 0x400) as u16, (0xDC00 + (v - 0x10000) % 0x400) as u16]
    }
}

/// The UTF-16 code units of a text.
pub open spec fn utf16_units(s: Seq<char>) -> Seq<u16>
    decreases s.len(),
{
    if s.len() == 0 {
        seq![]
    } else {
        char_units(s[0]) + utf16_units(s.drop_first())
    }
}

/// Reading the UTF-16 form of a text gives its first character.
proof fn lemma_utf16_first_of_units(s: Seq<char>)
    requires
        s.len() > 0,
    ensures
        utf16_first(utf16_units(s)) == (s[0] as u32, char_units(s[0]).len() as int),
        utf16_units(s).skip(char_units(s[0]).len() as int) == utf16_units(s.drop_first()),
{
    let c = s[0];
    let v = c as u32;
    char_is_scalar(c);
    let u = utf16_units(s);
    assert(u == char_units(c) + utf16_units(s.drop_first()));
    if v >= 0x10000 {
        let x = v - 0x10000;
        assert(0 <= x < 0x100000);
        let hi = x / 0x400;
        let lo = x % 0x400;
        assert(0 <= hi < 0x400 && 0 <= lo < 0x400 && hi * 0x400 + lo == x) by (nonlinear_arith)
            requires
                0 <= x < 0x100000,
                hi == x / 0x400,
                lo == x % 0x400,
        ;
        assert(u[0] == (0xD800 + hi) as u16);
        assert(u[1] == (0xDC00 + lo) as u16);
    }
    assert(u.skip(char_units(c).len() as int) =~= utf16_units(s.drop_first()));
}

/// Encoding a text from UTF-8 and from UTF-16 gives the same result and the
/// same bytes, and reads the same characters: the code units read are those
/// of the characters read.
pub proof fn lemma_encoders_agree(s: Seq<char>, room: int)
    ensures
        ({
            let e8 = encode_chars_spec(s, room);
            let e16 = encode_utf16_spec(utf16_units(s), room);
            &&& e16.0 == e8.0
            &&& e16.2 == e8.2
            &&& e16.1 == utf16_units(s.take(e8.1)).len()
            &&& 0 <= e8.1 <= s.len()
        }),
    decreases s.len(),
{
    let e8 = encode_chars_spec(s, room);
    if s.len() == 0 {
        assert(s.take(0) =~= s);
    } else {
        lemma_utf16_first_of_units(s);
        let c = s[0];
        let v = c as u32;
        char_u32_cast(c, v);
        let w = char_units(c).len();
        assert(s.take(1).drop_first() =~= Seq::<char>::empty());
        assert(s.take(1)[0] == c);
        assert(utf16_units(s.take(1).drop_first()) =~= Seq::<u16>::empty());
        assert(utf16_units(s.take(1)) =~= char_units(c));
        assert(s.take(0) =~= Seq::<char>::empty());
        if room >= 1 {
            if let Some(b) = tcvn3_bytes_of(v) {
                if room >= b.len() {
                    let rest = s.drop_first();
                    lemma_encoders_agree(rest, room - b.len());
                    let n = encode_chars_spec(rest, room - b.len()).1;
                    assert(s.take(n + 1)[0] == c);
                    assert(s.take(n + 1).drop_first() =~= rest.take(n));
                }
            }
        }
    }
}

/// What the UTF-16 decoder writes is the decoding, as final input, of the
/// bytes it has decoded: the bytes it read, less a malformed or held last
/// byte. That prefix decodes completely.
pub proof fn lemma_utf16_writes_decoding_of_prefix(s: Seq<u8>, room: int, last: bool)
    ensures
        ({
            let run = decode_to_utf16_spec(s, room, last);
            let k = decoded_len(run.0, run.1, run.3);
            &&& 0 <= k <= s.len()
            &&& decode_to_utf16_spec(s.take(k), k, true) == (
                DecoderResult::InputEmpty,
                k,
                run.2,
                None::<u8>,
            )
        }),
    decreases s.len(),
{
    if s.len() == 0 {
        assert(s.take(0) =~= s);
    } else if room < 1 {
        assert(s.take(0) =~= Seq::<u8>::empty());
    } else {
        lemma_decode_step_shape(s, last);
        let step = decode_step(s, last);
        match step {
            DecodeStep::Emit { unit, len } => {
                let rest_s = s.skip(len as int);
                lemma_utf16_writes_decoding_of_prefix(rest_s, room - 1, last);
                let rest = decode_to_utf16_spec(rest_s, room - 1, last);
                let k2 = decoded_len(rest.0, rest.1, rest.3);
                let k = k2 + len;
                let p = s.take(k);
                assert(p[0] == s[0]);
                if p.len() >= 2 {
                    assert(p[1] == s[1]);
                }
                assert(decode_step(p, true) == step);
                assert(p.skip(len as int) =~= rest_s.take(k2));
                lemma_utf16_ample_room(rest_s.take(k2), k - 1, k2, true);
            },
            _ => {
                assert(s.take(0) =~= Seq::<u8>::empty());
            },
        }
    }
}

proof fn lemma_utf16_malformed_at(s: Seq<u8>, j: int, room: int, last: bool)
    requires
        0 <= j < s.len(),
        is_unmapped(s[j]),
        forall|i: int| 0 <= i < j ==> !is_unmapped(#[trigger] s[i]),
        last || j + 1 < s.len(),
        room >= s.len(),
    ensures
        decode_to_utf16_spec(s, room, last).0 == DecoderResult::Malformed(1, 0),
        decode_to_utf16_spec(s, room, last).1 == j + 1,
        decode_to_utf16_spec(s, room, last).3 is None,
    decreases s.len(),
{
    lemma_decode_step_shape(s, last);
    if s.len() >= 2 {
        lemma_pair_first_single_or_ascii(s[0], s[1]);
        lemma_pair_second_single(s[0], s[1]);
    }
    if j > 0 {
        assert(!is_unmapped(s[0]));
        if let DecodeStep::Emit { unit, len } = decode_step(s, last) {
            let rest = s.skip(len as int);
            assert forall|i: int| 0 <= i < j - len implies !is_unmapped(#[trigger] rest[i]) by {
                assert(rest[i] == s[i + len]);
            }
            assert(rest[j - len] == s[j]);
            lemma_utf16_malformed_at(rest, j - len, room - 1, last);
        }
    }
}

/// The UTF-16 decoder stops at the first upper-half byte that stands for
/// nothing (unless it ends a non-final input), with `Malformed(1, 0)` after
/// reading exactly the bytes up to and including it, having written the
/// decoding of the bytes before it; the bytes after it stay unread.
pub proof fn lemma_utf16_stops_at_first_unmapped(s: Seq<u8>, j: int, room: int, last: bool)
    requires
        0 <= j < s.len(),
        is_unmapped(s[j]),
        forall|i: int| 0 <= i < j ==> !is_unmapped(#[trigger] s[i]),
        last || j + 1 < s.len(),
        room >= s.len(),
    ensures
        ({
            let run = decode_to_utf16_spec(s, room, last);
            &&& run.0 == DecoderResult::Malformed(1, 0)
            &&& run.1 == j + 1
            &&& run.3 is None
            &&& run.2 == decode_to_utf16_spec(s.take(j), j, true).2
        }),
{
    lemma_utf16_malformed_at(s, j, room, last);
    lemma_utf16_writes_decoding_of_prefix(s, room, last);
}

/// A malformed stop reads one byte past what was decoded, and that byte is an
/// upper-half byte that stands for nothing; the UTF-8 and UTF-16 decoders
/// read the same bytes and find the same result.
pub proof fn lemma_malformed_byte_is_last_read(s: Seq<u8>, room8: int, f: bool, room16: int, last: bool)
    requires
        room8 >= 3 * s.len(),
        room16 >= s.len(),
    ensures
        ({
            let r8 = decode_to_utf8_spec(s, room8, f, last);
            let r16 = decode_to_utf16_spec(s, room16, last);
            &&& r8.0 == r16.0
            &&& r8.1 == r16.1
            &&& r8.3 == r16.3
            &&& r16.0 is Malformed ==> 1 <= r16.1 <= s.len() && is_unmapped(s[r16.1 - 1])
        }),
    decreases s.len(),
{
    if s.len() > 0 {
        lemma_decode_step_shape(s, last);
        if s.len() >= 2 {
            lemma_pair_first_single_or_ascii(s[0], s[1]);
        }
        if let DecodeStep::Emit { unit, len } = decode_step(s, last) {
            let e = encode_scalar(unit as u32).len();
            assert(e <= 3);
            lemma_malformed_byte_is_last_read(s.skip(len as int), room8 - e, unit >= 0x80, room16 - 1, last);
            let r16 = decode_to_utf16_spec(s.skip(len as int), room16 - 1, last);
            if r16.0 is Malformed {
                assert(s.skip(len as int)[r16.1 - 1] == s[r16.1 + len - 1]);
            }
        }
    }
}

/// Decoding to UTF-16 with too little room writes a prefix of what ample room
/// gives and stops only when the buffer is full; decoding the unread rest
/// then completes that same decoding. Splitting the output buffer never
/// changes the decoded text.
pub proof fn lemma_utf16_room_split(s: Seq<u8>, room: int, big: int, last: bool)
    requires
        room >= 0,
        big >= s.len(),
    ensures
        ({
            let run = decode_to_utf16_spec(s, room, last);
            let full = decode_to_utf16_spec(s, big, last);
            &&& 0 <= run.1 <= s.len()
            &&& run.0 != DecoderResult::OutputFull ==> run == full
            &&& run.0 == DecoderResult::OutputFull ==> {
                let rest = decode_to_utf16_spec(s.skip(run.1), big, last);
                &&& run.2.len() == room
                &&& full == (rest.0, run.1 + rest.1, run.2 + rest.2, rest.3)
            }
        }),
    decreases s.len(),
{
    let run = decode_to_utf16_spec(s, room, last);
    if s.len() == 0 {
    } else if room < 1 {
        assert(s.skip(0) =~= s);
        assert(run.2 + decode_to_utf16_spec(s, big, last).2 =~= decode_to_utf16_spec(s, big, last).2);
    } else {
        lemma_decode_step_shape(s, last);
        if let DecodeStep::Emit { unit, len } = decode_step(s, last) {
            let rest_s = s.skip(len as int);
            lemma_utf16_room_split(rest_s, room - 1, big - 1, last);
            let rr = decode_to_utf16_spec(rest_s, room - 1, last);
            if rr.0 == DecoderResult::OutputFull {
                assert(rest_s.skip(rr.1) =~= s.skip(rr.1 + len));
                lemma_utf16_ample_room(s.skip(rr.1 + len), big - 1, big, last);
                let rest = decode_to_utf16_spec(s.skip(rr.1 + len), big, last);
                assert(seq![unit] + rr.2 + rest.2 =~= seq![unit] + (rr.2 + rest.2));
            }
        }
    }
}

/// Decoding to UTF-8 with too little room writes a prefix of what ample room
/// gives and stops only when less room is left than a character may need;
/// decoding the unread rest, in a new call, then completes that same
/// decoding. Splitting the output buffer never changes the decoded text.
pub proof fn lemma_utf8_room_split(s: Seq<u8>, room: int, big: int, f: bool, last: bool)
    requires
        room >= 0,
        big >= 3 * s.len(),
    ensures
        ({
            let run = decode_to_utf8_spec(s, room, f, last);
            let full = decode_to_utf8_spec(s, big, f, last);
            &&& 0 <= run.1 <= s.len()
            &&& run.0 != DecoderResult::OutputFull ==> run == full
            &&& run.0 == DecoderResult::OutputFull ==> {
                let rest = decode_to_utf8_spec(s.skip(run.1), big, false, last);
                &&& room - 3 < run.2.len() <= room
                &&& full == (rest.0, run.1 + rest.1, run.2 + rest.2, rest.3)
            }
        }),
    decreases s.len(),
{
    let run = decode_to_utf8_spec(s, room, f, last);
    if s.len() > 0 {
        lemma_decode_step_shape(s, last);
        let step = decode_step(s, last);
        if room < crate::decoder::utf8_room_needed(step, f) {
            assert(s.skip(0) =~= s);
            lemma_utf8_ample_room(s, big, f, big, false, last);
            assert(run.2 + decode_to_utf8_spec(s, big, f, last).2 =~= decode_to_utf8_spec(
                s,
                big,
                f,
                last,
            ).2);
        } else if let DecodeStep::Emit { unit, len } = step {
            let e = encode_scalar(unit as u32).len();
            assert(e <= 3);
            let rest_s = s.skip(len as int);
            lemma_utf8_room_split(rest_s, room - e, big - e, unit >= 0x80, last);
            let rr = decode_to_utf8_spec(rest_s, room - e, unit >= 0x80, last);
            if rr.0 == DecoderResult::OutputFull {
                assert(rest_s.skip(rr.1) =~= s.skip(rr.1 + len));
                lemma_utf8_ample_room(s.skip(rr.1 + len), big - e, false, big, false, last);
                let rest = decode_to_utf8_spec(s.skip(rr.1 + len), big, false, last);
                assert(encode_scalar(unit as u32) + rr.2 + rest.2 =~= encode_scalar(unit as u32) + (
                rr.2 + rest.2));
            }
        }
    }
}

/// What the encoder does with any room: it writes the TCVN3 bytes of the
/// first `k` characters (all mappable) and then either has read everything,
/// or stops at character `k`: as unmappable (reading it), for want of any room
/// (not reading it), or because it needs two bytes and one is left (reading
/// it). `k` is returned.
pub proof fn lemma_encode_writes_prefix(s: Seq<char>, room: int) -> (k: int)
    requires
        room >= 0,
    ensures
        ({
            let run = encode_chars_spec(s, room);
            &&& 0 <= k <= run.1 <= s.len()
            &&& run.1 <= k + 1
            &&& text_is_mappable(s.take(k))
            &&& run.2 == tcvn3_text(s.take(k))
            &&& run.2.len() <= room
            &&& run.0 == EncoderResult::InputEmpty ==> k == s.len()
            &&& run.0 is Unmappable ==> {
                &&& run.1 == k + 1
                &&& run.0 == EncoderResult::Unmappable(s[k])
                &&& tcvn3_bytes_of(s[k] as u32) is None
            }
            &&& run.0 == EncoderResult::OutputFull ==> {
                ||| run.1 == k && room - run.2.len() == 0
                ||| run.1 == k + 1 && tcvn3_bytes_of(s[k] as u32) is Some && char_bytes(s[k]).len()
                    == 2 && room - run.2.len() == 1
            }
        }),
    decreases s.len(),
{
    let run = encode_chars_spec(s, room);
    if s.len() == 0 || room < 1 {
        assert(s.take(0) =~= Seq::<char>::empty());
        assert(tcvn3_text(s.take(0)) =~= Seq::<u8>::empty());
        0
    } else {
        let c = s[0];
        let v = c as u32;
        match tcvn3_bytes_of(v) {
            None => {
                assert(s.take(0) =~= Seq::<char>::empty());
                assert(tcvn3_text(s.take(0)) =~= Seq::<u8>::empty());
                0
            },
            Some(b) => {
                lemma_char_bytes_shape(v);
                if room < b.len() {
                    assert(s.take(0) =~= Seq::<char>::empty());
                    assert(tcvn3_text(s.take(0)) =~= Seq::<u8>::empty());
                    0
                } else {
                    let rest = s.drop_first();
                    let k2 = lemma_encode_writes_prefix(rest, room - b.len());
                    let k = k2 + 1;
                    let t = s.take(k);
                    assert(t.drop_first() =~= rest.take(k2));
                    assert(t[0] == c);
                    assert forall|i: int| 0 <= i < t.len() implies #[trigger] tcvn3_bytes_of(
                        t[i] as u32,
                    ) is Some by {
                        if i > 0 {
                            assert(t[i] == rest.take(k2)[i - 1]);
                        }
                    }
                    assert(char_bytes(c) == b);
                    if k2 < rest.len() {
                        assert(s[k] == rest[k2]);
                    }
                    k
                }
            },
        }
    }
}

/// An unpaired surrogate in UTF-16 input, after the code units of a mappable
/// text, stops the encoder as the unmappable U+FFFD, after reading exactly the
/// units up to and including it, having written the TCVN3 bytes of the text.
pub proof fn lemma_utf16_lone_surrogate(t: Seq<char>, x: u16, rest: Seq<u16>, room: int)
    requires
        text_is_mappable(t),
        0xD800 <= x <= 0xDFFF,
        x <= 0xDBFF ==> rest.len() == 0 || !(0xDC00 <= rest[0] <= 0xDFFF),
        room >= 2 * t.len() + 1,
    ensures
        encode_utf16_spec(utf16_units(t) + seq![x] + rest, room) == (
            EncoderResult::Unmappable('\u{FFFD}'),
            utf16_units(t).len() + 1int,
            tcvn3_text(t),
        ),
    decreases t.len(),
{
    let u = utf16_units(t) + seq![x] + rest;
    if t.len() == 0 {
        assert(utf16_units(t) =~= Seq::<u16>::empty());
        assert(u =~= seq![x] + rest);
        assert(u[0] == x);
        if rest.len() > 0 {
            assert(u[1] == rest[0]);
        }
        assert(utf16_first(u) == (0xFFFDu32, 1int));
        assert(tcvn3_mapping(0xFFFD) is None);
        assert((0xFFFDu32 as char) == '\u{FFFD}');
    } else {
        lemma_mappable_rest(t);
        lemma_char_bytes_shape(t[0] as u32);
        lemma_text_len_bound(t);
        lemma_utf16_first_of_units(t);
        let w = char_units(t[0]).len() as int;
        assert(utf16_units(t) == char_units(t[0]) + utf16_units(t.drop_first()));
        assert(u =~= utf16_units(t) + (seq![x] + rest));
        assert(utf16_first(u) == utf16_first(utf16_units(t))) by {
            assert(u[0] == utf16_units(t)[0]);
        }
        assert(u.skip(w) =~= utf16_units(t.drop_first()) + seq![x] + rest);
        lemma_utf16_lone_surrogate(t.drop_first(), x, rest, room - char_bytes(t[0]).len());
    }
}

/// The shape of the UTF-8 form of a BMP scalar: ASCII is one byte below 0x80;
/// anything else is a lead byte from 0xC0 followed by continuation bytes.
proof fn lemma_utf8_bytes_shape(v: u32)
    requires
        v <= 0xFFFF,
        v < 0xD800 || v > 0xDFFF,
    ensures
        ({
            let e = encode_scalar(v);
            &&& 1 <= e.len() <= 3
            &&& v < 0x80 ==> e.len() == 1 && e[0] == v as u8 && e[0] < 0x80
            &&& v >= 0x80 ==> {
                &&& e.len() >= 2
                &&& e[0] >= 0xC0
                &&& forall|i: int| 1 <= i < e.len() ==> 0x80 <= #[trigger] e[i] < 0xC0
            }
        }),
{
    if v < 0x80 {
        assert(v & 0x7F == v) by (bit_vector)
            requires
                v < 0x80,
        ;
    } else if v < 0x800 {
        assert((0xC0 | ((v >> 6) & 0x1F) as u8) >= 0xC0) by (bit_vector);
        assert(0x80 <= (0x80 | (v & 0x3F) as u8) && (0x80 | (v & 0x3F) as u8) < 0xC0) by (bit_vector);
    } else {
        assert((0xE0 | ((v >> 12) & 0x0F) as u8) >= 0xC0) by (bit_vector);
        assert(0x80 <= (0x80 | ((v >> 6) & 0x3F) as u8) && (0x80 | ((v >> 6) & 0x3F) as u8) < 0xC0) by (bit_vector);
        assert(0x80 <= (0x80 | (v & 0x3F) as u8) && (0x80 | (v & 0x3F) as u8) < 0xC0) by (bit_vector);
    }
}

/// Whether the UTF-8 decoder asked for three bytes of room before writing the
/// character that starts at byte `p` of its output `out`: a non-ASCII
/// character, or ASCII right after non-ASCII output (`after_non_ascii` stands
/// for the output before the call).
pub open spec fn asked_for_three(out: Seq<u8>, p: int, after_non_ascii: bool) -> bool {
    ||| out[p] >= 0xC0
    ||| out[p] < 0x80 && (if p == 0 {
        after_non_ascii
    } else {
        out[p - 1] >= 0x80
    })
}

/// The UTF-8 decoder writes a non-ASCII character, or ASCII right after
/// non-ASCII, only where at least three bytes of room were left.
pub proof fn lemma_utf8_asks_three_bytes(s: Seq<u8>, room: int, f: bool, last: bool)
    ensures
        ({
            let out = decode_to_utf8_spec(s, room, f, last).2;
            forall|p: int|
                0 <= p < out.len() && #[trigger] asked_for_three(out, p, f) ==> room >= p + 3
        }),
    decreases s.len(),
{
    let run = decode_to_utf8_spec(s, room, f, last);
    if s.len() > 0 {
        lemma_decode_step_shape(s, last);
        let step = decode_step(s, last);
        if room >= crate::decoder::utf8_room_needed(step, f) {
            if let DecodeStep::Emit { unit, len } = step {
                let v = unit as u32;
                let e = encode_scalar(v);
                lemma_utf8_bytes_shape(v);
                let g = unit >= 0x80;
                lemma_utf8_asks_three_bytes(s.skip(len as int), room - e.len(), g, last);
                let rest = decode_to_utf8_spec(s.skip(len as int), room - e.len(), g, last);
                let out = run.2;
                assert(out == e + rest.2);
                assert forall|p: int| 0 <= p < out.len() && #[trigger] asked_for_three(out, p, f) implies room
                    >= p + 3 by {
                    if p < e.len() {
                        if p > 0 {
                            assert(out[p] == e[p]);
                        }
                    } else {
                        let q = p - e.len();
                        assert(out[p] == rest.2[q]);
                        if q == 0 {
                            assert(out[p - 1] == e[e.len() - 1]);
                        } else {
                            assert(out[p - 1] == rest.2[q - 1]);
                        }
                        assert(asked_for_three(rest.2, q, g));
                    }
                }
            }
        }
    }
}

/// The UTF-8 decoder stops for want of room only with fewer than three bytes
/// left, and with one or two left only where the next character, as an ample
/// buffer would take it, is not plain ASCII or follows non-ASCII output.
pub proof fn lemma_utf8_stops_for_room(s: Seq<u8>, room: int, big: int, f: bool, last: bool)
    requires
        room >= 0,
        big >= 3 * s.len(),
    ensures
        ({
            let run = decode_to_utf8_spec(s, room, f, last);
            let left = room - run.2.len();
            let next = decode_to_utf8_spec(s.skip(run.1), big, false, last).2;
            let after = if run.2.len() == 0 {
                f
            } else {
                run.2.last() >= 0x80
            };
            run.0 == DecoderResult::OutputFull ==> {
                &&& 0 <= left < 3
                &&& left >= 1 ==> after || next.len() == 0 || next[0] >= 0x80
            }
        }),
    decreases s.len(),
{
    let run = decode_to_utf8_spec(s, room, f, last);
    lemma_utf8_room_split(s, room, big, f, last);
    if s.len() > 0 {
        lemma_decode_step_shape(s, last);
        let step = decode_step(s, last);
        if room < crate::decoder::utf8_room_needed(step, f) {
            assert(s.skip(0) =~= s);
            if let DecodeStep::Emit { unit, len } = step {
                lemma_utf8_bytes_shape(unit as u32);
                lemma_utf8_ample_room(s, big, false, big, f, last);
                let full = decode_to_utf8_spec(s, big, false, last);
                let rest = decode_to_utf8_spec(
                    s.skip(len as int),
                    big - encode_scalar(unit as u32).len(),
                    unit >= 0x80,
                    last,
                );
                assert(full.2 == encode_scalar(unit as u32) + rest.2);
                assert(full.2[0] == encode_scalar(unit as u32)[0]);
            }
        } else if let DecodeStep::Emit { unit, len } = step {
            let v = unit as u32;
            let e = encode_scalar(v);
            lemma_utf8_bytes_shape(v);
            let rest_s = s.skip(len as int);
            lemma_utf8_stops_for_room(rest_s, room - e.len(), big, unit >= 0x80, last);
            lemma_utf8_room_split(rest_s, room - e.len(), big, unit >= 0x80, last);
            let rr = decode_to_utf8_spec(rest_s, room - e.len(), unit >= 0x80, last);
            assert(rest_s.skip(rr.1) =~= s.skip(rr.1 + len));
            assert(run.2 == e + rr.2);
            if rr.2.len() > 0 {
                assert(run.2.last() == rr.2.last());
            } else {
                assert(run.2.last() == e[e.len() - 1]);
            }
        }
    }
}

/// The held byte and input after `read` bytes of them were read, as the next
/// call sees them: the new held byte and the unread rest of the input.
proof fn lemma_resume_input(h: Option<u8>, b: Seq<u8>, read: int, pending: Option<u8>)
    requires
        0 <= read <= held_input(h, b).len(),
        read > 0 ==> pending is None,
    ensures
        held_input(held_after(h, read, pending), b.skip(own_bytes_read(h, read))) == held_input(
            h,
            b,
        ).skip(read),
{
    if read == 0 {
        assert(b.skip(0) =~= b);
        assert(held_input(h, b).skip(0) =~= held_input(h, b));
    } else if h is Some {
        assert(held_input(h, b).skip(read) =~= b.skip(read - 1));
    } else {
        assert(held_input(h, b).skip(read) =~= b.skip(read));
    }
}

/// After a UTF-8 call that stops for want of room, the next call, given the
/// byte it leaves held and the unread rest of the input and ample room,
/// writes exactly what an ample first call would have written after it.
pub proof fn lemma_utf8_resume_after_full(h: Option<u8>, b: Seq<u8>, room: int, big: int, last: bool)
    requires
        room >= 0,
        big >= 3 * (b.len() + 1),
    ensures
        ({
            let run = decode_to_utf8_spec(held_input(h, b), room, false, last);
            let next = decode_to_utf8_spec(
                held_input(held_after(h, run.1, run.3), b.skip(own_bytes_read(h, run.1))),
                big,
                false,
                last,
            );
            let full = decode_to_utf8_spec(held_input(h, b), big, false, last);
            run.0 == DecoderResult::OutputFull ==> {
                &&& full.0 == next.0
                &&& full.2 == run.2 + next.2
                &&& full.3 == next.3
                &&& full.1 == run.1 + next.1
            }
        }),
{
    let t = held_input(h, b);
    lemma_utf8_room_split(t, room, big, false, last);
    lemma_utf8_pending_only_at_end(t, room, false, last);
    let run = decode_to_utf8_spec(t, room, false, last);
    if run.0 == DecoderResult::OutputFull {
        lemma_resume_input(h, b, run.1, run.3);
    }
}

/// After a UTF-16 call that stops for want of room, the next call, given the
/// byte it leaves held and the unread rest of the input and ample room,
/// writes exactly what an ample first call would have written after it.
pub proof fn lemma_utf16_resume_after_full(h: Option<u8>, b: Seq<u8>, room: int, big: int, last: bool)
    requires
        room >= 0,
        big >= b.len() + 1,
    ensures
        ({
            let run = decode_to_utf16_spec(held_input(h, b), room, last);
            let next = decode_to_utf16_spec(
                held_input(held_after(h, run.1, run.3), b.skip(own_bytes_read(h, run.1))),
                big,
                last,
            );
            let full = decode_to_utf16_spec(held_input(h, b), big, last);
            run.0 == DecoderResult::OutputFull ==> {
                &&& full.0 == next.0
                &&& full.2 == run.2 + next.2
                &&& full.3 == next.3
                &&& full.1 == run.1 + next.1
            }
        }),
{
    let t = held_input(h, b);
    lemma_utf16_room_split(t, room, big, last);
    lemma_utf16_pending_only_at_end(t, room, last);
    let run = decode_to_utf16_spec(t, room, last);
    if run.0 == DecoderResult::OutputFull {
        lemma_resume_input(h, b, run.1, run.3);
    }
}

} // verus!
