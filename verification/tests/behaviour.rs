use tcvn3::{
    DecoderResult, Encoding, EncoderResult, Tcvn3Decoder, Tcvn3Encoder, VariantDecoder,
    VariantEncoder,
};

fn new_decoder() -> Tcvn3Decoder {
    match Tcvn3Decoder::new() {
        VariantDecoder::Tcvn3(d) => d,
    }
}

fn utf16(s: &str) -> Vec<u16> {
    s.encode_utf16().collect()
}

#[test]
fn new_decoder_is_neutral() {
    let dec = new_decoder();
    assert!(dec.in_neutral_state());
}

#[test]
fn buffer_length_bounds() {
    let dec = new_decoder();
    assert_eq!(dec.max_utf16_buffer_length(10), Some(10));
    assert_eq!(dec.max_utf8_buffer_length(10), Some(40));
    assert_eq!(dec.max_utf8_buffer_length_without_replacement(7), Some(28));
    assert_eq!(dec.max_utf8_buffer_length(usize::MAX / 2), None);
    assert_eq!(dec.max_utf8_buffer_length_without_replacement(usize::MAX), None);
    let enc = Tcvn3Encoder;
    assert_eq!(enc.max_buffer_length_from_utf8_if_no_unmappables(9), Some(18));
    assert_eq!(enc.max_buffer_length_from_utf16_if_no_unmappables(5), Some(10));
    assert_eq!(enc.max_buffer_length_from_utf8_if_no_unmappables(usize::MAX), None);
    assert_eq!(enc.max_buffer_length_from_utf16_if_no_unmappables(usize::MAX / 2 + 1), None);
}

#[test]
fn encoder_new_keeps_encoding() {
    let encoding: &'static Encoding = Box::leak(Box::new(Encoding { name: "TCVN3" }));
    let encoder = Tcvn3Encoder::new(encoding);
    assert!(std::ptr::eq(encoder.encoding, encoding));
    assert_eq!(encoder.encoding.name, "TCVN3");
    assert!(matches!(encoder.variant, VariantEncoder::Tcvn3(_)));
}

#[test]
fn decode_malformed_byte() {
    let mut dec = new_decoder();
    let mut out = [0u8; 8];
    assert_eq!(dec.decode_to_utf8_raw(b"\x80", &mut out, true), (DecoderResult::Malformed(1, 0), 1, 0));
    assert_eq!(dec.decode_to_utf8_raw(b"a\xFFb", &mut out, true), (DecoderResult::Malformed(1, 0), 2, 1));
    assert_eq!(out[0], b'a');
    let mut out16 = [0u16; 8];
    assert_eq!(dec.decode_to_utf16_raw(b"\xA0", &mut out16, true), (DecoderResult::Malformed(1, 0), 1, 0));
}

#[test]
fn decode_pending_byte_at_end_of_non_final_input() {
    let mut dec = new_decoder();
    let mut out = [0u8; 8];
    assert_eq!(dec.decode_to_utf8_raw(b"x\xA2", &mut out, false), (DecoderResult::InputEmpty, 2, 1));
    assert_eq!(out[0], b'x');
    assert!(!dec.in_neutral_state());

    let mut dec = new_decoder();
    let mut out16 = [0u16; 8];
    assert_eq!(dec.decode_to_utf16_raw(b"\xB5", &mut out16, false), (DecoderResult::InputEmpty, 1, 0));
    assert!(!dec.in_neutral_state());
}

#[test]
fn decode_final_input_leaves_no_pending_byte() {
    let mut dec = new_decoder();
    let mut out = [0u8; 8];
    assert_eq!(dec.decode_to_utf8_raw(b"x\xA2", &mut out, true), (DecoderResult::InputEmpty, 2, 3));
    assert_eq!(&out[..3], "xÂ".as_bytes());
    assert!(dec.in_neutral_state());
}

#[test]
fn decode_held_base_letter_pairs_with_next_input() {
    let mut dec = new_decoder();
    let mut out = [0u8; 8];
    assert_eq!(dec.decode_to_utf8_raw(b"A", &mut out, false), (DecoderResult::InputEmpty, 1, 0));
    assert!(!dec.in_neutral_state());
    assert_eq!(dec.decode_to_utf8_raw(b"\xB5", &mut out, true), (DecoderResult::InputEmpty, 1, 2));
    assert_eq!(&out[..2], "À".as_bytes());
    assert!(dec.in_neutral_state());
}

#[test]
fn decode_held_upper_half_byte_pairs_with_next_input() {
    let mut dec = new_decoder();
    let mut out = [0u8; 8];
    assert_eq!(dec.decode_to_utf8_raw(&[0xA2], &mut out, false), (DecoderResult::InputEmpty, 1, 0));
    assert!(!dec.in_neutral_state());
    let mut dst = [0u8; 8];
    assert_eq!(dec.decode_to_utf8_raw(&[0xCA], &mut dst, true), (DecoderResult::InputEmpty, 1, 3));
    assert_eq!(&dst[..3], "Ấ".as_bytes());
    assert!(dec.in_neutral_state());
}

#[test]
fn decode_held_byte_alone_on_empty_final_input() {
    let mut dec = new_decoder();
    let mut out16 = [0u16; 4];
    assert_eq!(dec.decode_to_utf16_raw(b"\xB5", &mut out16, false), (DecoderResult::InputEmpty, 1, 0));
    assert_eq!(dec.decode_to_utf16_raw(b"", &mut out16, true), (DecoderResult::InputEmpty, 0, 1));
    assert_eq!(out16[0], 0x00E0);
    assert!(dec.in_neutral_state());
}

#[test]
fn decode_held_byte_then_malformed_byte() {
    let mut dec = new_decoder();
    let mut out = [0u8; 8];
    assert_eq!(dec.decode_to_utf8_raw(b"\xB5", &mut out, false), (DecoderResult::InputEmpty, 1, 0));
    assert_eq!(dec.decode_to_utf8_raw(b"\xFFa", &mut out, true), (DecoderResult::Malformed(1, 0), 1, 2));
    assert_eq!(&out[..2], "à".as_bytes());
    assert!(dec.in_neutral_state());
}

#[test]
fn decode_held_byte_kept_when_output_is_full() {
    let mut dec = new_decoder();
    let mut out = [0u8; 8];
    assert_eq!(dec.decode_to_utf8_raw(&[0xA2], &mut out, false), (DecoderResult::InputEmpty, 1, 0));
    let mut none = [0u8; 0];
    assert_eq!(dec.decode_to_utf8_raw(&[0xCA], &mut none, true), (DecoderResult::OutputFull, 0, 0));
    assert!(!dec.in_neutral_state());
    assert_eq!(dec.decode_to_utf8_raw(&[0xCA], &mut out, true), (DecoderResult::InputEmpty, 1, 3));
    assert_eq!(&out[..3], "Ấ".as_bytes());
}

#[test]
fn decode_in_two_calls_equals_decode_at_once() {
    let text = "Ấp Đại học Quốc gia, Thành phố Hồ Chí Minh: Ặ Ỹ À";
    let mut encoded = [0u8; 128];
    let mut enc = Tcvn3Encoder;
    let (result, _, n) = enc.encode_from_utf8_raw(text, &mut encoded, true);
    assert_eq!(result, EncoderResult::InputEmpty);
    let bytes = &encoded[..n];
    for split in 0..=n {
        let mut dec = new_decoder();
        let mut out1 = vec![0u8; 4 * split + 4];
        let (r1, read1, w1) = dec.decode_to_utf8_raw(&bytes[..split], &mut out1, false);
        let mut out2 = vec![0u8; 4 * (n - split) + 4];
        let (r2, read2, w2) = dec.decode_to_utf8_raw(&bytes[split..], &mut out2, true);
        assert_eq!((r1, r2), (DecoderResult::InputEmpty, DecoderResult::InputEmpty));
        assert_eq!(read1 + read2, n);
        let mut joined = out1[..w1].to_vec();
        joined.extend_from_slice(&out2[..w2]);
        assert_eq!(core::str::from_utf8(&joined).unwrap(), text);
        assert!(dec.in_neutral_state());

        let mut dec = new_decoder();
        let mut u1 = vec![0u16; split + 1];
        let (_, _, w1) = dec.decode_to_utf16_raw(&bytes[..split], &mut u1, false);
        let mut u2 = vec![0u16; n - split + 1];
        let (_, _, w2) = dec.decode_to_utf16_raw(&bytes[split..], &mut u2, true);
        let mut units = u1[..w1].to_vec();
        units.extend_from_slice(&u2[..w2]);
        assert_eq!(units, utf16(text));
    }
}

#[test]
fn decode_stops_at_first_unmapped_byte() {
    let mut dec = new_decoder();
    let mut out = [0u8; 32];
    let (r, read, w) = dec.decode_to_utf8_raw(b"Vi\xD6t \xA0 Nam \xFF", &mut out, true);
    assert_eq!((r, read), (DecoderResult::Malformed(1, 0), 6));
    assert_eq!(core::str::from_utf8(&out[..w]).unwrap(), "Việt ");
}

#[test]
fn decoded_text_encodes_back() {
    let bytes: &[u8] = b"Vi\xD6t Nam, \xA2\xCA \xA7\xB9i h\xE4c A\xB5";
    let mut dec = new_decoder();
    let mut out = [0u8; 128];
    let (r, read, w) = dec.decode_to_utf8_raw(bytes, &mut out, true);
    assert_eq!((r, read), (DecoderResult::InputEmpty, bytes.len()));
    let text = core::str::from_utf8(&out[..w]).unwrap();
    let mut enc = Tcvn3Encoder;
    let mut again = vec![0u8; 2 * w];
    assert_eq!(enc.encode_from_utf8_raw(text, &mut again, true), (EncoderResult::InputEmpty, w, bytes.len()));
    assert_eq!(&again[..bytes.len()], bytes);
}

#[test]
fn utf8_and_utf16_encoders_agree() {
    let texts = ["Việt Nam", "Ấ À ệ", "a€b", "x😀y", "Đại học"];
    for text in texts.iter() {
        for size in 0..12 {
            let mut enc = Tcvn3Encoder;
            let mut d8 = vec![0u8; size];
            let mut d16 = vec![0u8; size];
            let (r8, read8, w8) = enc.encode_from_utf8_raw(text, &mut d8, true);
            let (r16, read16, w16) = enc.encode_from_utf16_raw(&utf16(text), &mut d16, true);
            assert_eq!((r16, w16), (r8, w8));
            assert_eq!(&d16[..w16], &d8[..w8]);
            assert_eq!(read16, text[..read8].encode_utf16().count());
        }
    }
}

#[test]
fn decode_utf8_asks_for_room_of_a_bmp_character() {
    let mut dec = new_decoder();
    // à needs two bytes, but the decoder asks for three.
    let mut out = [0u8; 2];
    assert_eq!(dec.decode_to_utf8_raw(b"\xB5", &mut out, true), (DecoderResult::OutputFull, 0, 0));
    // after a non-ASCII character, even ASCII waits for three bytes of room.
    let mut out = [0u8; 3];
    assert_eq!(dec.decode_to_utf8_raw(b"\xB5a", &mut out, true), (DecoderResult::OutputFull, 1, 2));
    assert_eq!(&out[..2], "à".as_bytes());
    // plain ASCII needs one byte.
    let mut out = [0u8; 1];
    assert_eq!(dec.decode_to_utf8_raw(b"ab", &mut out, true), (DecoderResult::OutputFull, 1, 1));
    assert_eq!(out[0], b'a');
}

#[test]
fn decode_leaves_rest_of_buffer_alone() {
    let mut dec = new_decoder();
    let mut out = [0xEEu8; 8];
    assert_eq!(dec.decode_to_utf8_raw(b"A\xB5", &mut out, true), (DecoderResult::InputEmpty, 2, 2));
    assert_eq!(out, [0xC3, 0x80, 0xEE, 0xEE, 0xEE, 0xEE, 0xEE, 0xEE]);
}

#[test]
fn decode_to_utf16_two_byte_and_ascii() {
    let mut dec = new_decoder();
    let mut out = [0u16; 4];
    assert_eq!(dec.decode_to_utf16_raw(b"A\xB5x\xA2\xCA", &mut out, true), (DecoderResult::InputEmpty, 5, 3));
    assert_eq!(&out[..3], &[0x00C0, 0x0078, 0x1EA4]);
    let mut small = [0u16; 1];
    assert_eq!(dec.decode_to_utf16_raw(b"ab", &mut small, true), (DecoderResult::OutputFull, 1, 1));
}

#[test]
fn decode_with_max_buffer_never_fills() {
    let input = b"Vi\xD6t Nam \xA2\xCA\xA7\xB9i h\xE4c \xFF";
    let mut dec = new_decoder();
    let mut out = vec![0u8; dec.max_utf8_buffer_length(input.len()).unwrap()];
    let (result, _, written) = dec.decode_to_utf8_raw(input, &mut out, true);
    assert_eq!(result, DecoderResult::Malformed(1, 0));
    assert!(core::str::from_utf8(&out[..written]).is_ok());
    let mut out16 = vec![0u16; dec.max_utf16_buffer_length(input.len()).unwrap()];
    let (result, read, _) = dec.decode_to_utf16_raw(&input[..input.len() - 1], &mut out16, true);
    assert_eq!(result, DecoderResult::InputEmpty);
    assert_eq!(read, input.len() - 1);
}

#[test]
fn encode_two_byte_character_without_room_counts_it_as_read() {
    let mut enc = Tcvn3Encoder;
    let mut out = [0u8; 1];
    assert_eq!(enc.encode_from_utf8_raw("À", &mut out, true), (EncoderResult::OutputFull, 2, 0));
    let mut out = [0u8; 2];
    assert_eq!(enc.encode_from_utf8_raw("aÀb", &mut out, true), (EncoderResult::OutputFull, 3, 1));
    assert_eq!(out[0], b'a');
    let mut out = [0u8; 1];
    assert_eq!(enc.encode_from_utf16_raw(&utf16("Ấ"), &mut out, true), (EncoderResult::OutputFull, 1, 0));
}

#[test]
fn encode_stops_at_unmappable_character() {
    let mut enc = Tcvn3Encoder;
    let mut out = [0u8; 8];
    assert_eq!(enc.encode_from_utf8_raw("ab€c", &mut out, true), (EncoderResult::Unmappable('€'), 5, 2));
    assert_eq!(&out[..2], b"ab");
    assert_eq!(enc.encode_from_utf8_raw("😀", &mut out, true), (EncoderResult::Unmappable('😀'), 4, 0));
}

#[test]
fn encode_utf16_unmappable_characters() {
    let mut enc = Tcvn3Encoder;
    let mut out = [0u8; 8];
    assert_eq!(enc.encode_from_utf16_raw(&utf16("a中"), &mut out, true), (EncoderResult::Unmappable('中'), 2, 1));
    assert_eq!(enc.encode_from_utf16_raw(&[0xD83D, 0xDE00], &mut out, true), (EncoderResult::Unmappable('😀'), 2, 0));
    assert_eq!(enc.encode_from_utf16_raw(&[0xD800], &mut out, true), (EncoderResult::Unmappable('\u{FFFD}'), 1, 0));
    assert_eq!(enc.encode_from_utf16_raw(&[0xDC00, 0x41], &mut out, true), (EncoderResult::Unmappable('\u{FFFD}'), 1, 0));
    assert_eq!(enc.encode_from_utf16_raw(&[0xD800, 0x41], &mut out, true), (EncoderResult::Unmappable('\u{FFFD}'), 1, 0));
}

#[test]
fn encode_utf16_text() {
    let mut enc = Tcvn3Encoder;
    let mut out = [0u8; 16];
    let src = utf16("Việt Ấ");
    assert_eq!(enc.encode_from_utf16_raw(&src, &mut out, true), (EncoderResult::InputEmpty, 6, 7));
    assert_eq!(&out[..7], &[0x56, 0x69, 0xD6, 0x74, 0x20, 0xA2, 0xCA]);
    let mut small = [0u8; 3];
    assert_eq!(enc.encode_from_utf16_raw(&src, &mut small, true), (EncoderResult::OutputFull, 3, 3));
}

#[test]
fn round_trip_through_utf16() {
    let text = "Thành phố Hồ Chí Minh, Đại học Quốc gia";
    let src = utf16(text);
    let mut enc = Tcvn3Encoder;
    let mut encoded = vec![0u8; enc.max_buffer_length_from_utf16_if_no_unmappables(src.len()).unwrap()];
    let (result, read, written) = enc.encode_from_utf16_raw(&src, &mut encoded, true);
    assert_eq!((result, read), (EncoderResult::InputEmpty, src.len()));
    let mut dec = new_decoder();
    let mut decoded = vec![0u16; dec.max_utf16_buffer_length(written).unwrap()];
    let (result, read, n) = dec.decode_to_utf16_raw(&encoded[..written], &mut decoded, true);
    assert_eq!((result, read), (DecoderResult::InputEmpty, written));
    assert_eq!(&decoded[..n], &src[..]);
}

#[test]
fn round_trip_needs_clean_joins() {
    // 'A' followed by 'à' is written as the bytes of 'À'.
    let mut enc = Tcvn3Encoder;
    let mut out = [0u8; 4];
    assert_eq!(enc.encode_from_utf8_raw("Aà", &mut out, true), (EncoderResult::InputEmpty, 3, 2));
    assert_eq!(&out[..2], &[0x41, 0xB5]);
    let mut dec = new_decoder();
    let mut decoded = [0u8; 8];
    let (result, read, n) = dec.decode_to_utf8_raw(&out[..2], &mut decoded, true);
    assert_eq!((result, read), (DecoderResult::InputEmpty, 2));
    assert_eq!(&decoded[..n], "À".as_bytes());
}
