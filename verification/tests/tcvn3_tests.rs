use tcvn3::{DecoderResult, EncoderResult, Tcvn3Decoder, Tcvn3Encoder, VariantDecoder};

#[test]
fn test_tcvn3_decode_single_byte() {
    let mut decoder = Tcvn3Decoder::new();
    if let VariantDecoder::Tcvn3(ref mut dec) = decoder {
        let input = b"\xA2"; // Â
        let mut output = [0u8; 8];
        let (result, read, written) = dec.decode_to_utf8_raw(input, &mut output, true);
        assert_eq!(result, DecoderResult::InputEmpty);
        assert_eq!(read, 1);
        // UTF-8 encoding of Â
        let expected = "Â".as_bytes();
        assert_eq!(&output[..written], expected);
    }
}

#[test]
fn test_tcvn3_decode_two_byte() {
    let mut decoder = Tcvn3Decoder::new();
    if let VariantDecoder::Tcvn3(ref mut dec) = decoder {
        let input = b"A\xB5"; // À
        let mut output = [0u8; 8];
        let (result, read, written) = dec.decode_to_utf8_raw(input, &mut output, true);
        assert_eq!(result, DecoderResult::InputEmpty);
        assert_eq!(read, 2);
        // UTF-8 encoding of À
        let expected = "À".as_bytes();
        assert_eq!(&output[..written], expected);
    }
}

#[test]
fn test_tcvn3_encode_basic() {
    let input = "Â";
    let mut output = [0u8; 8];
    let mut encoder = Tcvn3Encoder;
    let (result, read, written) = encoder.encode_from_utf8_raw(input, &mut output, true);
    assert_eq!(result, EncoderResult::InputEmpty);
    assert_eq!(read, input.len());
    assert_eq!(written, 1);
    assert_eq!(output[0], 0xA2);
}

#[test]
fn test_tcvn3_vietnamese_text() {
    let vietnamese_text = "Việt Nam";

    let mut encoded = [0u8; 32];
    let mut encoder = Tcvn3Encoder;
    let (_encode_result, _encode_read, encode_written) =
        encoder.encode_from_utf8_raw(vietnamese_text, &mut encoded, true);

    let mut decoder = Tcvn3Decoder::new();
    if let VariantDecoder::Tcvn3(ref mut dec) = decoder {
        let mut decoded = [0u8; 32];
        let (decode_result, _decode_read, decode_written) =
            dec.decode_to_utf8_raw(&encoded[..encode_written], &mut decoded, true);
        let _decoded_text = core::str::from_utf8(&decoded[..decode_written]).unwrap();

        assert_eq!(decode_result, DecoderResult::InputEmpty);
        assert!(decode_written > 0);
    }
}

#[test]
fn test_tcvn3_complete_vietnamese_sentence() {
    let sentence = "Chào bạn!";

    let mut encoded = [0u8; 64];
    let mut encoder = Tcvn3Encoder;
    let (_encode_result, _encode_read, encode_written) =
        encoder.encode_from_utf8_raw(sentence, &mut encoded, true);

    assert!(encode_written > 0, "Should encode at least some characters");
}

fn check_round_trip(test_cases: &[(&str, &[u8])]) {
    for (input, expected) in test_cases.iter() {
        let mut output = [0u8; 8];
        let mut encoder = Tcvn3Encoder;
        let (result, _read, written) = encoder.encode_from_utf8_raw(input, &mut output, true);

        assert_eq!(result, EncoderResult::InputEmpty, "Failed to encode '{}'", input);
        assert_eq!(&output[..written], *expected, "Wrong encoding for '{}'", input);

        let mut decoder = Tcvn3Decoder::new();
        if let VariantDecoder::Tcvn3(ref mut dec) = decoder {
            let mut decoded = [0u8; 8];
            let (decode_result, _, decode_written) =
                dec.decode_to_utf8_raw(expected, &mut decoded, true);
            assert_eq!(decode_result, DecoderResult::InputEmpty, "Failed to decode for '{}'", input);
            let decoded_str = core::str::from_utf8(&decoded[..decode_written]).unwrap();
            assert_eq!(decoded_str, *input, "Decode mismatch for '{}'", input);
        }
    }
}

#[test]
fn test_tcvn3_all_vietnamese_vowels_uppercase() {
    let test_cases = [
        ("À", &[0x41u8, 0xB5][..]),
        ("Á", &[0x41u8, 0xB8][..]),
        ("Â", &[0xA2u8][..]),
        ("Ã", &[0x41u8, 0xB7][..]),
        ("Ă", &[0xA1u8][..]),
        ("È", &[0x45u8, 0xCC][..]),
        ("É", &[0x45u8, 0xD0][..]),
        ("Ê", &[0xA3u8][..]),
        ("Ì", &[0x49u8, 0xD7][..]),
        ("Í", &[0x49u8, 0xDD][..]),
        ("Ĩ", &[0x49u8, 0xDC][..]),
        ("Ò", &[0x4Fu8, 0xDF][..]),
        ("Ó", &[0x4Fu8, 0xE3][..]),
        ("Ô", &[0xA4u8][..]),
        ("Õ", &[0x4Fu8, 0xE2][..]),
        ("Ơ", &[0xA5u8][..]),
        ("Ù", &[0x55u8, 0xEF][..]),
        ("Ú", &[0x55u8, 0xF3][..]),
        ("Ũ", &[0x55u8, 0xF2][..]),
        ("Ư", &[0xA6u8][..]),
        ("Ý", &[0x59u8, 0xFD][..]),
        ("Đ", &[0xA7u8][..]),
    ];
    check_round_trip(&test_cases);
}

#[test]
fn test_tcvn3_all_vietnamese_vowels_lowercase() {
    let test_cases = [
        ("à", &[0xB5u8][..]),
        ("á", &[0xB8u8][..]),
        ("â", &[0xA9u8][..]),
        ("ã", &[0xB7u8][..]),
        ("ă", &[0xA8u8][..]),
        ("è", &[0xCCu8][..]),
        ("é", &[0xD0u8][..]),
        ("ê", &[0xAAu8][..]),
        ("ì", &[0xD7u8][..]),
        ("í", &[0xDDu8][..]),
        ("ĩ", &[0xDCu8][..]),
        ("ò", &[0xDFu8][..]),
        ("ó", &[0xE3u8][..]),
        ("ô", &[0xABu8][..]),
        ("õ", &[0xE2u8][..]),
        ("ơ", &[0xACu8][..]),
        ("ù", &[0xEFu8][..]),
        ("ú", &[0xF3u8][..]),
        ("ũ", &[0xF2u8][..]),
        ("ư", &[0xADu8][..]),
        ("ý", &[0xFDu8][..]),
        ("đ", &[0xAEu8][..]),
    ];
    check_round_trip(&test_cases);
}

#[test]
fn test_tcvn3_vietnamese_extended_characters_uppercase() {
    let test_cases = [
        ("Ạ", &[0x41u8, 0xB9][..]),
        ("Ả", &[0x41u8, 0xB6][..]),
        ("Ấ", &[0xA2u8, 0xCA][..]),
        ("Ầ", &[0xA2u8, 0xC7][..]),
        ("Ẩ", &[0xA2u8, 0xC8][..]),
        ("Ẫ", &[0xA2u8, 0xC9][..]),
        ("Ậ", &[0xA2u8, 0xCB][..]),
        ("Ắ", &[0xA1u8, 0xBE][..]),
        ("Ằ", &[0xA1u8, 0xBB][..]),
        ("Ẳ", &[0xA1u8, 0xBC][..]),
        ("Ẵ", &[0xA1u8, 0xBD][..]),
        ("Ặ", &[0xA1u8, 0xC6][..]),
        ("Ẹ", &[0x45u8, 0xD1][..]),
        ("Ẻ", &[0x45u8, 0xCE][..]),
        ("Ẽ", &[0x45u8, 0xCF][..]),
        ("Ế", &[0xA3u8, 0xD5][..]),
        ("Ề", &[0xA3u8, 0xD2][..]),
        ("Ể", &[0xA3u8, 0xD3][..]),
        ("Ễ", &[0xA3u8, 0xD4][..]),
        ("Ệ", &[0xA3u8, 0xD6][..]),
        ("Ỉ", &[0x49u8, 0xD8][..]),
        ("Ị", &[0x49u8, 0xDE][..]),
        ("Ọ", &[0x4Fu8, 0xE4][..]),
        ("Ỏ", &[0x4Fu8, 0xE1][..]),
        ("Ố", &[0xA4u8, 0xE8][..]),
        ("Ồ", &[0xA4u8, 0xE5][..]),
        ("Ổ", &[0xA4u8, 0xE6][..]),
        ("Ỗ", &[0xA4u8, 0xE7][..]),
        ("Ộ", &[0xA4u8, 0xE9][..]),
        ("Ớ", &[0xA5u8, 0xED][..]),
        ("Ờ", &[0xA5u8, 0xEA][..]),
        ("Ở", &[0xA5u8, 0xEB][..]),
        ("Ỡ", &[0xA5u8, 0xEC][..]),
        ("Ợ", &[0xA5u8, 0xEE][..]),
        ("Ụ", &[0x55u8, 0xF4][..]),
        ("Ủ", &[0x55u8, 0xF1][..]),
        ("Ứ", &[0xA6u8, 0xF8][..]),
        ("Ừ", &[0xA6u8, 0xF5][..]),
        ("Ử", &[0xA6u8, 0xF6][..]),
        ("Ữ", &[0xA6u8, 0xF7][..]),
        ("Ự", &[0xA6u8, 0xF9][..]),
        ("Ỳ", &[0x59u8, 0xFA][..]),
        ("Ỵ", &[0x59u8, 0xFE][..]),
        ("Ỷ", &[0x59u8, 0xFB][..]),
        ("Ỹ", &[0x59u8, 0xFC][..]),
    ];
    check_round_trip(&test_cases);
}

#[test]
fn test_tcvn3_vietnamese_extended_characters_lowercase() {
    let test_cases = [
        ("ạ", &[0xB9u8][..]),
        ("ả", &[0xB6u8][..]),
        ("ấ", &[0xCAu8][..]),
        ("ầ", &[0xC7u8][..]),
        ("ẩ", &[0xC8u8][..]),
        ("ẫ", &[0xC9u8][..]),
        ("ậ", &[0xCBu8][..]),
        ("ắ", &[0xBEu8][..]),
        ("ằ", &[0xBBu8][..]),
        ("ẳ", &[0xBCu8][..]),
        ("ẵ", &[0xBDu8][..]),
        ("ặ", &[0xC6u8][..]),
        ("ẹ", &[0xD1u8][..]),
        ("ẻ", &[0xCEu8][..]),
        ("ẽ", &[0xCFu8][..]),
        ("ế", &[0xD5u8][..]),
        ("ề", &[0xD2u8][..]),
        ("ể", &[0xD3u8][..]),
        ("ễ", &[0xD4u8][..]),
        ("ệ", &[0xD6u8][..]),
        ("ỉ", &[0xD8u8][..]),
        ("ị", &[0xDEu8][..]),
        ("ọ", &[0xE4u8][..]),
        ("ỏ", &[0xE1u8][..]),
        ("ố", &[0xE8u8][..]),
        ("ồ", &[0xE5u8][..]),
        ("ổ", &[0xE6u8][..]),
        ("ỗ", &[0xE7u8][..]),
        ("ộ", &[0xE9u8][..]),
        ("ớ", &[0xEDu8][..]),
        ("ờ", &[0xEAu8][..]),
        ("ở", &[0xEBu8][..]),
        ("ỡ", &[0xECu8][..]),
        ("ợ", &[0xEEu8][..]),
        ("ụ", &[0xF4u8][..]),
        ("ủ", &[0xF1u8][..]),
        ("ứ", &[0xF8u8][..]),
        ("ừ", &[0xF5u8][..]),
        ("ử", &[0xF6u8][..]),
        ("ữ", &[0xF7u8][..]),
        ("ự", &[0xF9u8][..]),
        ("ỳ", &[0xFAu8][..]),
        ("ỵ", &[0xFEu8][..]),
        ("ỷ", &[0xFBu8][..]),
        ("ỹ", &[0xFCu8][..]),
    ];
    check_round_trip(&test_cases);
}

#[test]
fn test_tcvn3_complete_vietnamese_sentences() {
    let test_sentences = [
        "Xin chào",
        "Việt Nam",
        "Tiếng Việt",
        "Hà Nội",
        "Thành phố Hồ Chí Minh",
        "Đại học Quốc gia",
        "Tôi yêu Việt Nam",
    ];

    for sentence in test_sentences.iter() {
        let mut encoded = [0u8; 256];
        let mut encoder = Tcvn3Encoder;
        let (encode_result, encode_read, encode_written) =
            encoder.encode_from_utf8_raw(sentence, &mut encoded, true);

        assert!(encode_written > 0, "Should encode at least some characters in '{}'", sentence);
        assert!(encode_read > 0, "Should read at least some characters from '{}'", sentence);

        if encode_result == EncoderResult::InputEmpty {
            let mut decoder = Tcvn3Decoder::new();
            if let VariantDecoder::Tcvn3(ref mut dec) = decoder {
                let mut decoded = [0u8; 256];
                let (decode_result, _, decode_written) =
                    dec.decode_to_utf8_raw(&encoded[..encode_written], &mut decoded, true);
                assert_eq!(
                    decode_result,
                    DecoderResult::InputEmpty,
                    "Failed to decode sentence '{}'",
                    sentence
                );
                let decoded_str = core::str::from_utf8(&decoded[..decode_written]).unwrap();
                assert_eq!(decoded_str, *sentence, "Decode mismatch for sentence '{}'", sentence);
            }
        }
    }
}

#[test]
fn test_tcvn3_ascii_passthrough() {
    let ascii_text = "Hello World 123!@#$%^&*()";
    let mut encoded = [0u8; 64];
    let mut encoder = Tcvn3Encoder;
    let (result, read, written) = encoder.encode_from_utf8_raw(ascii_text, &mut encoded, true);

    assert_eq!(result, EncoderResult::InputEmpty);
    assert_eq!(read, ascii_text.len());
    assert_eq!(written, ascii_text.len());
    assert_eq!(&encoded[..written], ascii_text.as_bytes());

    let mut decoder = Tcvn3Decoder::new();
    if let VariantDecoder::Tcvn3(ref mut dec) = decoder {
        let mut decoded = [0u8; 64];
        let (decode_result, _, decode_written) =
            dec.decode_to_utf8_raw(&encoded[..written], &mut decoded, true);
        assert_eq!(decode_result, DecoderResult::InputEmpty);
        let decoded_str = core::str::from_utf8(&decoded[..decode_written]).unwrap();
        assert_eq!(decoded_str, ascii_text);
    }
}

#[test]
fn test_tcvn3_unmappable_characters() {
    let unmappable_chars = ["中", "日", "한", "😀", "€"];

    for ch in unmappable_chars.iter() {
        let mut output = [0u8; 8];
        let mut encoder = Tcvn3Encoder;
        let (result, _read, _written) = encoder.encode_from_utf8_raw(ch, &mut output, true);

        match result {
            EncoderResult::Unmappable(_) => {}
            _ => panic!("Expected Unmappable error for character '{}'", ch),
        }
    }
}

#[test]
fn test_tcvn3_buffer_overflow() {
    let text = "Việt Nam";
    let mut small_buffer = [0u8; 2];

    let mut encoder = Tcvn3Encoder;
    let (result, _read, _written) = encoder.encode_from_utf8_raw(text, &mut small_buffer, true);

    assert_eq!(result, EncoderResult::OutputFull);
}

#[test]
fn test_tcvn3_mixed_content() {
    let mixed_text = "Hello Việt Nam 123";
    let mut encoded = [0u8; 64];
    let mut encoder = Tcvn3Encoder;
    let (result, read, written) = encoder.encode_from_utf8_raw(mixed_text, &mut encoded, true);

    assert_eq!(result, EncoderResult::InputEmpty);
    assert_eq!(read, mixed_text.len());
    assert!(written > 0);

    let mut decoder = Tcvn3Decoder::new();
    if let VariantDecoder::Tcvn3(ref mut dec) = decoder {
        let mut decoded = [0u8; 64];
        let (decode_result, _, decode_written) =
            dec.decode_to_utf8_raw(&encoded[..written], &mut decoded, true);
        assert_eq!(decode_result, DecoderResult::InputEmpty);
        let decoded_str = core::str::from_utf8(&decoded[..decode_written]).unwrap();
        assert_eq!(decoded_str, mixed_text);
    }
}
