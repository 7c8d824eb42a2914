//! The TCVN3 character table and the per-character conversions.
//!
//! TCVN3 represents each Vietnamese letter either by one byte in the upper
//! half (mostly lower-case letters) or by two bytes: an ASCII capital vowel or
//! one of the bytes 0xA1..=0xA6 followed by a tone-mark byte.
use vstd::prelude::*;

verus! {

/// The TCVN3 byte sequence of one character.
#[derive(Clone, Copy, Debug, PartialEq, Eq)]
pub enum Tcvn3Bytes {
    One(u8),
    Two(u8, u8),
}

impl Tcvn3Bytes {
    /// The bytes as a sequence.
    pub open spec fn bytes(self) -> Seq<u8> {
        match self {
            Tcvn3Bytes::One(a) => seq![a],
            Tcvn3Bytes::Two(a, b) => seq![a, b],
        }
    }
}

/// The TCVN3 table: the byte sequence assigned to each non-ASCII BMP code
/// point that the encoding can represent.
pub open spec fn tcvn3_mapping(cp: u16) -> Option<Tcvn3Bytes> {
    match cp {
        0x00C0 => Some(Tcvn3Bytes::Two(0x41, 0xB5)), // À
        0x00C1 => Some(Tcvn3Bytes::Two(0x41, 0xB8)), // Á
        0x00C2 => Some(Tcvn3Bytes::One(0xA2)), // Â
        0x00C3 => Some(Tcvn3Bytes::Two(0x41, 0xB7)), // Ã
        0x00C8 => Some(Tcvn3Bytes::Two(0x45, 0xCC)), // È
        0x00C9 => Some(Tcvn3Bytes::Two(0x45, 0xD0)), // É
        0x00CA => Some(Tcvn3Bytes::One(0xA3)), // Ê
        0x00CC => Some(Tcvn3Bytes::Two(0x49, 0xD7)), // Ì
        0x00CD => Some(Tcvn3Bytes::Two(0x49, 0xDD)), // Í
        0x00D2 => Some(Tcvn3Bytes::Two(0x4F, 0xDF)), // Ò
        0x00D3 => Some(Tcvn3Bytes::Two(0x4F, 0xE3)), // Ó
        0x00D4 => Some(Tcvn3Bytes::One(0xA4)), // Ô
        0x00D5 => Some(Tcvn3Bytes::Two(0x4F, 0xE2)), // Õ
        0x00D9 => Some(Tcvn3Bytes::Two(0x55, 0xEF)), // Ù
        0x00DA => Some(Tcvn3Bytes::Two(0x55, 0xF3)), // Ú
        0x00DD => Some(Tcvn3Bytes::Two(0x59, 0xFD)), // Ý
        0x00E0 => Some(Tcvn3Bytes::One(0xB5)), // à
        0x00E1 => Some(Tcvn3Bytes::One(0xB8)), // á
        0x00E2 => Some(Tcvn3Bytes::One(0xA9)), // â
        0x00E3 => Some(Tcvn3Bytes::One(0xB7)), // ã
        0x00E8 => Some(Tcvn3Bytes::One(0xCC)), // è
        0x00E9 => Some(Tcvn3Bytes::One(0xD0)), // é
        0x00EA => Some(Tcvn3Bytes::One(0xAA)), // ê
        0x00EC => Some(Tcvn3Bytes::One(0xD7)), // ì
        0x00ED => Some(Tcvn3Bytes::One(0xDD)), // í
        0x00F2 => Some(Tcvn3Bytes::One(0xDF)), // ò
        0x00F3 => Some(Tcvn3Bytes::One(0xE3)), // ó
        0x00F4 => Some(Tcvn3Bytes::One(0xAB)), // ô
        0x00F5 => Some(Tcvn3Bytes::One(0xE2)), // õ
        0x00F9 => Some(Tcvn3Bytes::One(0xEF)), // ù
        0x00FA => Some(Tcvn3Bytes::One(0xF3)), // ú
        0x00FD => Some(Tcvn3Bytes::One(0xFD)), // ý
        0x0102 => Some(Tcvn3Bytes::One(0xA1)), // Ă
        0x0103 => Some(Tcvn3Bytes::One(0xA8)), // ă
        0x0110 => Some(Tcvn3Bytes::One(0xA7)), // Đ
        0x0111 => Some(Tcvn3Bytes::One(0xAE)), // đ
        0x0128 => Some(Tcvn3Bytes::Two(0x49, 0xDC)), // Ĩ
        0x0129 => Some(Tcvn3Bytes::One(0xDC)), // ĩ
        0x0168 => Some(Tcvn3Bytes::Two(0x55, 0xF2)), // Ũ
        0x0169 => Some(Tcvn3Bytes::One(0xF2)), // ũ
        0x01A0 => Some(Tcvn3Bytes::One(0xA5)), // Ơ
        0x01A1 => Some(Tcvn3Bytes::One(0xAC)), // ơ
        0x01AF => Some(Tcvn3Bytes::One(0xA6)), // Ư
        0x01B0 => Some(Tcvn3Bytes::One(0xAD)), // ư
        0x1EA0 => Some(Tcvn3Bytes::Two(0x41, 0xB9)), // Ạ
        0x1EA1 => Some(Tcvn3Bytes::One(0xB9)), // ạ
        0x1EA2 => Some(Tcvn3Bytes::Two(0x41, 0xB6)), // Ả
        0x1EA3 => Some(Tcvn3Bytes::One(0xB6)), // ả
        0x1EA4 => Some(Tcvn3Bytes::Two(0xA2, 0xCA)), // Ấ
        0x1EA5 => Some(Tcvn3Bytes::One(0xCA)), // ấ
        0x1EA6 => Some(Tcvn3Bytes::Two(0xA2, 0xC7)), // Ầ
        0x1EA7 => Some(Tcvn3Bytes::One(0xC7)), // ầ
        0x1EA8 => Some(Tcvn3Bytes::Two(0xA2, 0xC8)), // Ẩ
        0x1EA9 => Some(Tcvn3Bytes::One(0xC8)), // ẩ
        0x1EAA => Some(Tcvn3Bytes::Two(0xA2, 0xC9)), // Ẫ
        0x1EAB => Some(Tcvn3Bytes::One(0xC9)), // ẫ
        0x1EAC => Some(Tcvn3Bytes::Two(0xA2, 0xCB)), // Ậ
        0x1EAD => Some(Tcvn3Bytes::One(0xCB)), // ậ
        0x1EAE => Some(Tcvn3Bytes::Two(0xA1, 0xBE)), // Ắ
        0x1EAF => Some(Tcvn3Bytes::One(0xBE)), // ắ
        0x1EB0 => Some(Tcvn3Bytes::Two(0xA1, 0xBB)), // Ằ
        0x1EB1 => Some(Tcvn3Bytes::One(0xBB)), // ằ
        0x1EB2 => Some(Tcvn3Bytes::Two(0xA1, 0xBC)), // Ẳ
        0x1EB3 => Some(Tcvn3Bytes::One(0xBC)), // ẳ
        0x1EB4 => Some(Tcvn3Bytes::Two(0xA1, 0xBD)), // Ẵ
        0x1EB5 => Some(Tcvn3Bytes::One(0xBD)), // ẵ
        0x1EB6 => Some(Tcvn3Bytes::Two(0xA1, 0xC6)), // Ặ
        0x1EB7 => Some(Tcvn3Bytes::One(0xC6)), // ặ
        0x1EB8 => Some(Tcvn3Bytes::Two(0x45, 0xD1)), // Ẹ
        0x1EB9 => Some(Tcvn3Bytes::One(0xD1)), // ẹ
        0x1EBA => Some(Tcvn3Bytes::Two(0x45, 0xCE)), // Ẻ
        0x1EBB => Some(Tcvn3Bytes::One(0xCE)), // ẻ
        0x1EBC => Some(Tcvn3Bytes::Two(0x45, 0xCF)), // Ẽ
        0x1EBD => Some(Tcvn3Bytes::One(0xCF)), // ẽ
        0x1EBE => Some(Tcvn3Bytes::Two(0xA3, 0xD5)), // Ế
        0x1EBF => Some(Tcvn3Bytes::One(0xD5)), // ế
        0x1EC0 => Some(Tcvn3Bytes::Two(0xA3, 0xD2)), // Ề
        0x1EC1 => Some(Tcvn3Bytes::One(0xD2)), // ề
        0x1EC2 => Some(Tcvn3Bytes::Two(0xA3, 0xD3)), // Ể
        0x1EC3 => Some(Tcvn3Bytes::One(0xD3)), // ể
        0x1EC4 => Some(Tcvn3Bytes::Two(0xA3, 0xD4)), // Ễ
        0x1EC5 => Some(Tcvn3Bytes::One(0xD4)), // ễ
        0x1EC6 => Some(Tcvn3Bytes::Two(0xA3, 0xD6)), // Ệ
        0x1EC7 => Some(Tcvn3Bytes::One(0xD6)), // ệ
        0x1EC8 => Some(Tcvn3Bytes::Two(0x49, 0xD8)), // Ỉ
        0x1EC9 => Some(Tcvn3Bytes::One(0xD8)), // ỉ
        0x1ECA => Some(Tcvn3Bytes::Two(0x49, 0xDE)), // Ị
        0x1ECB => Some(Tcvn3Bytes::One(0xDE)), // ị
        0x1ECC => Some(Tcvn3Bytes::Two(0x4F, 0xE4)), // Ọ
        0x1ECD => Some(Tcvn3Bytes::One(0xE4)), // ọ
        0x1ECE => Some(Tcvn3Bytes::Two(0x4F, 0xE1)), // Ỏ
        0x1ECF => Some(Tcvn3Bytes::One(0xE1)), // ỏ
        0x1ED0 => Some(Tcvn3Bytes::Two(0xA4, 0xE8)), // Ố
        0x1ED1 => Some(Tcvn3Bytes::One(0xE8)), // ố
        0x1ED2 => Some(Tcvn3Bytes::Two(0xA4, 0xE5)), // Ồ
        0x1ED3 => Some(Tcvn3Bytes::One(0xE5)), // ồ
        0x1ED4 => Some(Tcvn3Bytes::Two(0xA4, 0xE6)), // Ổ
        0x1ED5 => Some(Tcvn3Bytes::One(0xE6)), // ổ
        0x1ED6 => Some(Tcvn3Bytes::Two(0xA4, 0xE7)), // Ỗ
        0x1ED7 => Some(Tcvn3Bytes::One(0xE7)), // ỗ
        0x1ED8 => Some(Tcvn3Bytes::Two(0xA4, 0xE9)), // Ộ
        0x1ED9 => Some(Tcvn3Bytes::One(0xE9)), // ộ
        0x1EDA => Some(Tcvn3Bytes::Two(0xA5, 0xED)), // Ớ
        0x1EDB => Some(Tcvn3Bytes::One(0xED)), // ớ
        0x1EDC => Some(Tcvn3Bytes::Two(0xA5, 0xEA)), // Ờ
        0x1EDD => Some(Tcvn3Bytes::One(0xEA)), // ờ
        0x1EDE => Some(Tcvn3Bytes::Two(0xA5, 0xEB)), // Ở
        0x1EDF => Some(Tcvn3Bytes::One(0xEB)), // ở
        0x1EE0 => Some(Tcvn3Bytes::Two(0xA5, 0xEC)), // Ỡ
        0x1EE1 => Some(Tcvn3Bytes::One(0xEC)), // ỡ
        0x1EE2 => Some(Tcvn3Bytes::Two(0xA5, 0xEE)), // Ợ
        0x1EE3 => Some(Tcvn3Bytes::One(0xEE)), // ợ
        0x1EE4 => Some(Tcvn3Bytes::Two(0x55, 0xF4)), // Ụ
        0x1EE5 => Some(Tcvn3Bytes::One(0xF4)), // ụ
        0x1EE6 => Some(Tcvn3Bytes::Two(0x55, 0xF1)), // Ủ
        0x1EE7 => Some(Tcvn3Bytes::One(0xF1)), // ủ
        0x1EE8 => Some(Tcvn3Bytes::Two(0xA6, 0xF8)), // Ứ
        0x1EE9 => Some(Tcvn3Bytes::One(0xF8)), // ứ
        0x1EEA => Some(Tcvn3Bytes::Two(0xA6, 0xF5)), // Ừ
        0x1EEB => Some(Tcvn3Bytes::One(0xF5)), // ừ
        0x1EEC => Some(Tcvn3Bytes::Two(0xA6, 0xF6)), // Ử
        0x1EED => Some(Tcvn3Bytes::One(0xF6)), // ử
        0x1EEE => Some(Tcvn3Bytes::Two(0xA6, 0xF7)), // Ữ
        0x1EEF => Some(Tcvn3Bytes::One(0xF7)), // ữ
        0x1EF0 => Some(Tcvn3Bytes::Two(0xA6, 0xF9)), // Ự
        0x1EF1 => Some(Tcvn3Bytes::One(0xF9)), // ự
        0x1EF2 => Some(Tcvn3Bytes::Two(0x59, 0xFA)), // Ỳ
        0x1EF3 => Some(Tcvn3Bytes::One(0xFA)), // ỳ
        0x1EF4 => Some(Tcvn3Bytes::Two(0x59, 0xFE)), // Ỵ
        0x1EF5 => Some(Tcvn3Bytes::One(0xFE)), // ỵ
        0x1EF6 => Some(Tcvn3Bytes::Two(0x59, 0xFB)), // Ỷ
        0x1EF7 => Some(Tcvn3Bytes::One(0xFB)), // ỷ
        0x1EF8 => Some(Tcvn3Bytes::Two(0x59, 0xFC)), // Ỹ
        0x1EF9 => Some(Tcvn3Bytes::One(0xFC)), // ỹ
        _ => None,
    }
}

/// `r` is the decoding of the single byte `b`: `r` is `Some(cp)` exactly for
/// the code point whose table entry is that byte, and `None` when no entry is.
pub open spec fn decodes_single(b: u8, r: Option<u16>) -> bool {
    forall|cp: u16| #[trigger] tcvn3_mapping(cp) == Some(Tcvn3Bytes::One(b)) <==> r == Some(cp)
}

/// `r` is the decoding of the byte pair `(a, b)`, in the same sense.
pub open spec fn decodes_pair(a: u8, b: u8, r: Option<u16>) -> bool {
    forall|cp: u16| #[trigger] tcvn3_mapping(cp) == Some(Tcvn3Bytes::Two(a, b)) <==> r == Some(cp)
}

/// The code point that the single byte `b` stands for, if any.
#[verifier::opaque]
pub open spec fn single_byte_char(b: u8) -> Option<u16> {
    if exists|cp: u16| tcvn3_mapping(cp) == Some(Tcvn3Bytes::One(b)) {
        Some(choose|cp: u16| tcvn3_mapping(cp) == Some(Tcvn3Bytes::One(b)))
    } else {
        None
    }
}

/// The code point that the byte pair `(a, b)` stands for, if any.
#[verifier::opaque]
pub open spec fn pair_char(a: u8, b: u8) -> Option<u16> {
    if exists|cp: u16| tcvn3_mapping(cp) == Some(Tcvn3Bytes::Two(a, b)) {
        Some(choose|cp: u16| tcvn3_mapping(cp) == Some(Tcvn3Bytes::Two(a, b)))
    } else {
        None
    }
}

proof fn lemma_decodes_single_is_function(b: u8, r: Option<u16>)
    requires
        decodes_single(b, r),
    ensures
        r == single_byte_char(b),
{
    reveal(single_byte_char);
    if let Some(x) = r {
        assert(tcvn3_mapping(x) == Some(Tcvn3Bytes::One(b)));
    }
}

proof fn lemma_decodes_pair_is_function(a: u8, b: u8, r: Option<u16>)
    requires
        decodes_pair(a, b, r),
    ensures
        r == pair_char(a, b),
{
    reveal(pair_char);
    if let Some(x) = r {
        assert(tcvn3_mapping(x) == Some(Tcvn3Bytes::Two(a, b)));
    }
}

/// No two code points share a byte sequence in the table.
pub proof fn lemma_mapping_injective(c1: u16, c2: u16)
    requires
        tcvn3_mapping(c1) is Some,
        tcvn3_mapping(c1) == tcvn3_mapping(c2),
    ensures
        c1 == c2,
{
}

/// Decoding the table entry of a code point gives that code point back.
pub proof fn lemma_mapping_decodes(cp: u16)
    ensures
        tcvn3_mapping(cp) matches Some(Tcvn3Bytes::One(b)) ==> single_byte_char(b) == Some(cp),
        tcvn3_mapping(cp) matches Some(Tcvn3Bytes::Two(a, b)) ==> pair_char(a, b) == Some(cp),
{
    reveal(single_byte_char);
    reveal(pair_char);
    match tcvn3_mapping(cp) {
        Some(t) => {
            let c = match t {
                Tcvn3Bytes::One(b) => single_byte_char(b)->0,
                Tcvn3Bytes::Two(a, b) => pair_char(a, b)->0,
            };
            lemma_mapping_injective(c, cp);
        },
        None => {},
    }
}

/// Every code point of the table lies in `0xC0..=0x1EF9`.
pub proof fn lemma_mapping_range(cp: u16)
    ensures
        tcvn3_mapping(cp) is Some ==> 0xC0 <= cp <= 0x1EF9,
{
}

/// What a byte or a byte pair decodes to is a code point whose table entry it is.
pub proof fn lemma_decoded_in_table(a: u8, b: u8)
    ensures
        single_byte_char(a) matches Some(cp) ==> tcvn3_mapping(cp) == Some(Tcvn3Bytes::One(a)),
        pair_char(a, b) matches Some(cp) ==> tcvn3_mapping(cp) == Some(Tcvn3Bytes::Two(a, b)),
{
    reveal(single_byte_char);
    reveal(pair_char);
}

/// Tone marks, the second bytes of two-byte sequences, lie in the upper half.
pub proof fn lemma_pair_second_upper(a: u8, b: u8)
    ensures
        pair_char(a, b) is Some ==> b >= 0x80,
{
    lemma_decoded_in_table(a, b);
    if let Some(cp) = pair_char(a, b) {
        assert(tcvn3_mapping(cp) == Some(Tcvn3Bytes::Two(a, b)));
    }
}

/// The bytes that begin some two-byte sequence.
pub open spec fn starts_pair(a: u8) -> bool {
    exists|b: u8| #[trigger] pair_char(a, b) is Some
}

/// The lower-case letter of a two-byte (capital) entry of the table.
pub open spec fn lower_case_of(cp: u16) -> u16 {
    if cp < 0x100 {
        (cp + 0x20) as u16
    } else {
        (cp + 1) as u16
    }
}

/// The second byte of a two-byte entry is the single-byte entry of the same
/// letter in lower case, and the first byte is an ASCII capital vowel or one
/// of 0xA1..=0xA6.
pub proof fn lemma_pair_entries(cp: u16)
    ensures
        tcvn3_mapping(cp) matches Some(Tcvn3Bytes::Two(a, b)) ==> {
            &&& tcvn3_mapping(lower_case_of(cp)) == Some(Tcvn3Bytes::One(b))
            &&& (a == 0x41 || a == 0x45 || a == 0x49 || a == 0x4F || a == 0x55 || a == 0x59 || (
            0xA1 <= a <= 0xA6))
        },
{
}

/// A tone mark, the second byte of a two-byte sequence, also stands alone for
/// a letter.
pub proof fn lemma_pair_second_single(a: u8, b: u8)
    ensures
        pair_char(a, b) is Some ==> single_byte_char(b) is Some,
{
    lemma_decoded_in_table(a, b);
    if let Some(cp) = pair_char(a, b) {
        lemma_pair_entries(cp);
        reveal(single_byte_char);
        assert(tcvn3_mapping(lower_case_of(cp)) == Some(Tcvn3Bytes::One(b)));
    }
}

/// The bytes that begin a two-byte sequence are the ASCII capital vowels
/// A, E, I, O, U, Y and the bytes 0xA1..=0xA6.
pub proof fn lemma_starts_pair(a: u8)
    ensures
        starts_pair(a) <==> (a == 0x41 || a == 0x45 || a == 0x49 || a == 0x4F || a == 0x55 || a
            == 0x59 || (0xA1 <= a <= 0xA6)),
{
    if starts_pair(a) {
        let b = choose|b: u8| #[trigger] pair_char(a, b) is Some;
        lemma_decoded_in_table(a, b);
        lemma_pair_entries(pair_char(a, b)->0);
    }
    let witness: u16 = if a == 0x41 {
        0x00C0
    } else if a == 0x45 {
        0x00C8
    } else if a == 0x49 {
        0x00CC
    } else if a == 0x4F {
        0x00D2
    } else if a == 0x55 {
        0x00D9
    } else if a == 0x59 {
        0x00DD
    } else if a == 0xA1 {
        0x1EAE
    } else if a == 0xA2 {
        0x1EA4
    } else if a == 0xA3 {
        0x1EBE
    } else if a == 0xA4 {
        0x1ED0
    } else if a == 0xA5 {
        0x1EDA
    } else {
        0x1EE8
    };
    lemma_mapping_decodes(witness);
    if let Some(Tcvn3Bytes::Two(x, y)) = tcvn3_mapping(witness) {
        assert(pair_char(x, y) is Some);
    }
}

/// The first byte of a two-byte sequence is ASCII or stands alone for a letter.
pub proof fn lemma_pair_first_single_or_ascii(a: u8, b: u8)
    ensures
        pair_char(a, b) is Some ==> a < 0x80 || single_byte_char(a) is Some,
{
    lemma_decoded_in_table(a, b);
    if let Some(cp) = pair_char(a, b) {
        lemma_pair_entries(cp);
        if a >= 0x80 {
            let alone: u16 = if a == 0xA1 {
                0x0102
            } else if a == 0xA2 {
                0x00C2
            } else if a == 0xA3 {
                0x00CA
            } else if a == 0xA4 {
                0x00D4
            } else if a == 0xA5 {
                0x01A0
            } else {
                0x01AF
            };
            reveal(single_byte_char);
            assert(tcvn3_mapping(alone) == Some(Tcvn3Bytes::One(a)));
        }
    }
}

/// Whether `byte` begins some two-byte sequence.
pub fn tcvn3_starts_pair(byte: u8) -> (r: bool)
    ensures
        r == starts_pair(byte),
{
    proof {
        lemma_starts_pair(byte);
    }
    byte == 0x41 || byte == 0x45 || byte == 0x49 || byte == 0x4F || byte == 0x55 || byte == 0x59
        || (0xA1 <= byte && byte <= 0xA6)
}

/// Decodes one byte of the upper half on its own.
pub fn tcvn3_decode_single_byte(byte: u8) -> (r: Option<u16>)
    ensures
        decodes_single(byte, r),
        r == single_byte_char(byte),
{
    let r = match byte {
        0xA1 => Some(0x0102),
        0xA2 => Some(0x00C2),
        0xA3 => Some(0x00CA),
        0xA4 => Some(0x00D4),
        0xA5 => Some(0x01A0),
        0xA6 => Some(0x01AF),
        0xA7 => Some(0x0110),
        0xA8 => Some(0x0103),
        0xA9 => Some(0x00E2),
        0xAA => Some(0x00EA),
        0xAB => Some(0x00F4),
        0xAC => Some(0x01A1),
        0xAD => Some(0x01B0),
        0xAE => Some(0x0111),
        0xB5 => Some(0x00E0),
        0xB6 => Some(0x1EA3),
        0xB7 => Some(0x00E3),
        0xB8 => Some(0x00E1),
        0xB9 => Some(0x1EA1),
        0xBB => Some(0x1EB1),
        0xBC => Some(0x1EB3),
        0xBD => Some(0x1EB5),
        0xBE => Some(0x1EAF),
        0xC6 => Some(0x1EB7),
        0xC7 => Some(0x1EA7),
        0xC8 => Some(0x1EA9),
        0xC9 => Some(0x1EAB),
        0xCA => Some(0x1EA5),
        0xCB => Some(0x1EAD),
        0xCC => Some(0x00E8),
        0xCE => Some(0x1EBB),
        0xCF => Some(0x1EBD),
        0xD0 => Some(0x00E9),
        0xD1 => Some(0x1EB9),
        0xD2 => Some(0x1EC1),
        0xD3 => Some(0x1EC3),
        0xD4 => Some(0x1EC5),
        0xD5 => Some(0x1EBF),
        0xD6 => Some(0x1EC7),
        0xD7 => Some(0x00EC),
        0xD8 => Some(0x1EC9),
        0xDC => Some(0x0129),
        0xDD => Some(0x00ED),
        0xDE => Some(0x1ECB),
        0xDF => Some(0x00F2),
        0xE1 => Some(0x1ECF),
        0xE2 => Some(0x00F5),
        0xE3 => Some(0x00F3),
        0xE4 => Some(0x1ECD),
        0xE5 => Some(0x1ED3),
        0xE6 => Some(0x1ED5),
        0xE7 => Some(0x1ED7),
        0xE8 => Some(0x1ED1),
        0xE9 => Some(0x1ED9),
        0xEA => Some(0x1EDD),
        0xEB => Some(0x1EDF),
        0xEC => Some(0x1EE1),
        0xED => Some(0x1EDB),
        0xEE => Some(0x1EE3),
        0xEF => Some(0x00F9),
        0xF1 => Some(0x1EE7),
        0xF2 => Some(0x0169),
        0xF3 => Some(0x00FA),
        0xF4 => Some(0x1EE5),
        0xF5 => Some(0x1EEB),
        0xF6 => Some(0x1EED),
        0xF7 => Some(0x1EEF),
        0xF8 => Some(0x1EE9),
        0xF9 => Some(0x1EF1),
        0xFA => Some(0x1EF3),
        0xFB => Some(0x1EF7),
        0xFC => Some(0x1EF9),
        0xFD => Some(0x00FD),
        0xFE => Some(0x1EF5),
        _ => None,
    };
    proof {
        lemma_decodes_single_is_function(byte, r);
    }
    r
}

/// Decodes a two-byte sequence: a base letter followed by a tone mark.
pub fn tcvn3_decode_two_bytes(first: u8, second: u8) -> (r: Option<u16>)
    ensures
        decodes_pair(first, second, r),
        r == pair_char(first, second),
{
    let r = match first {
        0x41 => match second {
            0xB5 => Some(0x00C0),
            0xB6 => Some(0x1EA2),
            0xB7 => Some(0x00C3),
            0xB8 => Some(0x00C1),
            0xB9 => Some(0x1EA0),
            _ => None,
        },
        0x45 => match second {
            0xCC => Some(0x00C8),
            0xCE => Some(0x1EBA),
            0xCF => Some(0x1EBC),
            0xD0 => Some(0x00C9),
            0xD1 => Some(0x1EB8),
            _ => None,
        },
        0x49 => match second {
            0xD7 => Some(0x00CC),
            0xD8 => Some(0x1EC8),
            0xDC => Some(0x0128),
            0xDD => Some(0x00CD),
            0xDE => Some(0x1ECA),
            _ => None,
        },
        0x4F => match second {
            0xDF => Some(0x00D2),
            0xE1 => Some(0x1ECE),
            0xE2 => Some(0x00D5),
            0xE3 => Some(0x00D3),
            0xE4 => Some(0x1ECC),
            _ => None,
        },
        0x55 => match second {
            0xEF => Some(0x00D9),
            0xF1 => Some(0x1EE6),
            0xF2 => Some(0x0168),
            0xF3 => Some(0x00DA),
            0xF4 => Some(0x1EE4),
            _ => None,
        },
        0x59 => match second {
            0xFA => Some(0x1EF2),
            0xFB => Some(0x1EF6),
            0xFC => Some(0x1EF8),
            0xFD => Some(0x00DD),
            0xFE => Some(0x1EF4),
            _ => None,
        },
        0xA1 => match second {
            0xBB => Some(0x1EB0),
            0xBC => Some(0x1EB2),
            0xBD => Some(0x1EB4),
            0xBE => Some(0x1EAE),
            0xC6 => Some(0x1EB6),
            _ => None,
        },
        0xA2 => match second {
            0xC7 => Some(0x1EA6),
            0xC8 => Some(0x1EA8),
            0xC9 => Some(0x1EAA),
            0xCA => Some(0x1EA4),
            0xCB => Some(0x1EAC),
            _ => None,
        },
        0xA3 => match second {
            0xD2 => Some(0x1EC0),
            0xD3 => Some(0x1EC2),
            0xD4 => Some(0x1EC4),
            0xD5 => Some(0x1EBE),
            0xD6 => Some(0x1EC6),
            _ => None,
        },
        0xA4 => match second {
            0xE5 => Some(0x1ED2),
            0xE6 => Some(0x1ED4),
            0xE7 => Some(0x1ED6),
            0xE8 => Some(0x1ED0),
            0xE9 => Some(0x1ED8),
            _ => None,
        },
        0xA5 => match second {
            0xEA => Some(0x1EDC),
            0xEB => Some(0x1EDE),
            0xEC => Some(0x1EE0),
            0xED => Some(0x1EDA),
            0xEE => Some(0x1EE2),
            _ => None,
        },
        0xA6 => match second {
            0xF5 => Some(0x1EEA),
            0xF6 => Some(0x1EEC),
            0xF7 => Some(0x1EEE),
            0xF8 => Some(0x1EE8),
            0xF9 => Some(0x1EF0),
            _ => None,
        },
        _ => None,
    };
    proof {
        lemma_decodes_pair_is_function(first, second, r);
    }
    r
}

/// Encodes one non-ASCII BMP code point.
pub fn tcvn3_encode_bmp(bmp: u16) -> (r: Option<Tcvn3Bytes>)
    ensures
        r == tcvn3_mapping(bmp),
{
    match bmp {
        0x0102 => Some(Tcvn3Bytes::One(0xA1)),
        0x0103 => Some(Tcvn3Bytes::One(0xA8)),
        0x00C2 => Some(Tcvn3Bytes::One(0xA2)),
        0x00E2 => Some(Tcvn3Bytes::One(0xA9)),
        0x00CA => Some(Tcvn3Bytes::One(0xA3)),
        0x00EA => Some(Tcvn3Bytes::One(0xAA)),
        0x00D4 => Some(Tcvn3Bytes::One(0xA4)),
        0x00F4 => Some(Tcvn3Bytes::One(0xAB)),
        0x01A0 => Some(Tcvn3Bytes::One(0xA5)),
        0x01A1 => Some(Tcvn3Bytes::One(0xAC)),
        0x01AF => Some(Tcvn3Bytes::One(0xA6)),
        0x01B0 => Some(Tcvn3Bytes::One(0xAD)),
        0x0110 => Some(Tcvn3Bytes::One(0xA7)),
        0x0111 => Some(Tcvn3Bytes::One(0xAE)),
        0x00E0 => Some(Tcvn3Bytes::One(0xB5)),
        0x00E1 => Some(Tcvn3Bytes::One(0xB8)),
        0x00E3 => Some(Tcvn3Bytes::One(0xB7)),
        0x1EA3 => Some(Tcvn3Bytes::One(0xB6)),
        0x1EA1 => Some(Tcvn3Bytes::One(0xB9)),
        0x00E8 => Some(Tcvn3Bytes::One(0xCC)),
        0x00E9 => Some(Tcvn3Bytes::One(0xD0)),
        0x1EBB => Some(Tcvn3Bytes::One(0xCE)),
        0x1EBD => Some(Tcvn3Bytes::One(0xCF)),
        0x1EB9 => Some(Tcvn3Bytes::One(0xD1)),
        0x00EC => Some(Tcvn3Bytes::One(0xD7)),
        0x00ED => Some(Tcvn3Bytes::One(0xDD)),
        0x1EC9 => Some(Tcvn3Bytes::One(0xD8)),
        0x0129 => Some(Tcvn3Bytes::One(0xDC)),
        0x1ECB => Some(Tcvn3Bytes::One(0xDE)),
        0x00F2 => Some(Tcvn3Bytes::One(0xDF)),
        0x00F3 => Some(Tcvn3Bytes::One(0xE3)),
        0x00F5 => Some(Tcvn3Bytes::One(0xE2)),
        0x1ECF => Some(Tcvn3Bytes::One(0xE1)),
        0x1ECD => Some(Tcvn3Bytes::One(0xE4)),
        0x00F9 => Some(Tcvn3Bytes::One(0xEF)),
        0x00FA => Some(Tcvn3Bytes::One(0xF3)),
        0x1EE7 => Some(Tcvn3Bytes::One(0xF1)),
        0x0169 => Some(Tcvn3Bytes::One(0xF2)),
        0x1EE5 => Some(Tcvn3Bytes::One(0xF4)),
        0x00FD => Some(Tcvn3Bytes::One(0xFD)),
        0x1EF3 => Some(Tcvn3Bytes::One(0xFA)),
        0x1EF7 => Some(Tcvn3Bytes::One(0xFB)),
        0x1EF9 => Some(Tcvn3Bytes::One(0xFC)),
        0x1EF5 => Some(Tcvn3Bytes::One(0xFE)),
        0x00C0 => Some(Tcvn3Bytes::Two(0x41, 0xB5)),
        0x00C1 => Some(Tcvn3Bytes::Two(0x41, 0xB8)),
        0x00C3 => Some(Tcvn3Bytes::Two(0x41, 0xB7)),
        0x1EA2 => Some(Tcvn3Bytes::Two(0x41, 0xB6)),
        0x1EA0 => Some(Tcvn3Bytes::Two(0x41, 0xB9)),
        0x00C8 => Some(Tcvn3Bytes::Two(0x45, 0xCC)),
        0x00C9 => Some(Tcvn3Bytes::Two(0x45, 0xD0)),
        0x1EBA => Some(Tcvn3Bytes::Two(0x45, 0xCE)),
        0x1EBC => Some(Tcvn3Bytes::Two(0x45, 0xCF)),
        0x1EB8 => Some(Tcvn3Bytes::Two(0x45, 0xD1)),
        0x00CC => Some(Tcvn3Bytes::Two(0x49, 0xD7)),
        0x00CD => Some(Tcvn3Bytes::Two(0x49, 0xDD)),
        0x1EC8 => Some(Tcvn3Bytes::Two(0x49, 0xD8)),
        0x0128 => Some(Tcvn3Bytes::Two(0x49, 0xDC)),
        0x1ECA => Some(Tcvn3Bytes::Two(0x49, 0xDE)),
        0x00D2 => Some(Tcvn3Bytes::Two(0x4F, 0xDF)),
        0x00D3 => Some(Tcvn3Bytes::Two(0x4F, 0xE3)),
        0x00D5 => Some(Tcvn3Bytes::Two(0x4F, 0xE2)),
        0x1ECE => Some(Tcvn3Bytes::Two(0x4F, 0xE1)),
        0x1ECC => Some(Tcvn3Bytes::Two(0x4F, 0xE4)),
        0x00D9 => Some(Tcvn3Bytes::Two(0x55, 0xEF)),
        0x00DA => Some(Tcvn3Bytes::Two(0x55, 0xF3)),
        0x1EE6 => Some(Tcvn3Bytes::Two(0x55, 0xF1)),
        0x0168 => Some(Tcvn3Bytes::Two(0x55, 0xF2)),
        0x1EE4 => Some(Tcvn3Bytes::Two(0x55, 0xF4)),
        0x00DD => Some(Tcvn3Bytes::Two(0x59, 0xFD)),
        0x1EF2 => Some(Tcvn3Bytes::Two(0x59, 0xFA)),
        0x1EF6 => Some(Tcvn3Bytes::Two(0x59, 0xFB)),
        0x1EF8 => Some(Tcvn3Bytes::Two(0x59, 0xFC)),
        0x1EF4 => Some(Tcvn3Bytes::Two(0x59, 0xFE)),
        0x1EA5 => Some(Tcvn3Bytes::One(0xCA)),
        0x1EA7 => Some(Tcvn3Bytes::One(0xC7)),
        0x1EA9 => Some(Tcvn3Bytes::One(0xC8)),
        0x1EAB => Some(Tcvn3Bytes::One(0xC9)),
        0x1EAD => Some(Tcvn3Bytes::One(0xCB)),
        0x1EA4 => Some(Tcvn3Bytes::Two(0xA2, 0xCA)),
        0x1EA6 => Some(Tcvn3Bytes::Two(0xA2, 0xC7)),
        0x1EA8 => Some(Tcvn3Bytes::Two(0xA2, 0xC8)),
        0x1EAA => Some(Tcvn3Bytes::Two(0xA2, 0xC9)),
        0x1EAC => Some(Tcvn3Bytes::Two(0xA2, 0xCB)),
        0x1EAF => Some(Tcvn3Bytes::One(0xBE)),
        0x1EB1 => Some(Tcvn3Bytes::One(0xBB)),
        0x1EB3 => Some(Tcvn3Bytes::One(0xBC)),
        0x1EB5 => Some(Tcvn3Bytes::One(0xBD)),
        0x1EB7 => Some(Tcvn3Bytes::One(0xC6)),
        0x1EAE => Some(Tcvn3Bytes::Two(0xA1, 0xBE)),
        0x1EB0 => Some(Tcvn3Bytes::Two(0xA1, 0xBB)),
        0x1EB2 => Some(Tcvn3Bytes::Two(0xA1, 0xBC)),
        0x1EB4 => Some(Tcvn3Bytes::Two(0xA1, 0xBD)),
        0x1EB6 => Some(Tcvn3Bytes::Two(0xA1, 0xC6)),
        0x1EBF => Some(Tcvn3Bytes::One(0xD5)),
        0x1EC1 => Some(Tcvn3Bytes::One(0xD2)),
        0x1EC3 => Some(Tcvn3Bytes::One(0xD3)),
        0x1EC5 => Some(Tcvn3Bytes::One(0xD4)),
        0x1EC7 => Some(Tcvn3Bytes::One(0xD6)),
        0x1EBE => Some(Tcvn3Bytes::Two(0xA3, 0xD5)),
        0x1EC0 => Some(Tcvn3Bytes::Two(0xA3, 0xD2)),
        0x1EC2 => Some(Tcvn3Bytes::Two(0xA3, 0xD3)),
        0x1EC4 => Some(Tcvn3Bytes::Two(0xA3, 0xD4)),
        0x1EC6 => Some(Tcvn3Bytes::Two(0xA3, 0xD6)),
        0x1ED1 => Some(Tcvn3Bytes::One(0xE8)),
        0x1ED3 => Some(Tcvn3Bytes::One(0xE5)),
        0x1ED5 => Some(Tcvn3Bytes::One(0xE6)),
        0x1ED7 => Some(Tcvn3Bytes::One(0xE7)),
        0x1ED9 => Some(Tcvn3Bytes::One(0xE9)),
        0x1ED0 => Some(Tcvn3Bytes::Two(0xA4, 0xE8)),
        0x1ED2 => Some(Tcvn3Bytes::Two(0xA4, 0xE5)),
        0x1ED4 => Some(Tcvn3Bytes::Two(0xA4, 0xE6)),
        0x1ED6 => Some(Tcvn3Bytes::Two(0xA4, 0xE7)),
        0x1ED8 => Some(Tcvn3Bytes::Two(0xA4, 0xE9)),
        0x1EDB => Some(Tcvn3Bytes::One(0xED)),
        0x1EDD => Some(Tcvn3Bytes::One(0xEA)),
        0x1EDF => Some(Tcvn3Bytes::One(0xEB)),
        0x1EE1 => Some(Tcvn3Bytes::One(0xEC)),
        0x1EE3 => Some(Tcvn3Bytes::One(0xEE)),
        0x1EDA => Some(Tcvn3Bytes::Two(0xA5, 0xED)),
        0x1EDC => Some(Tcvn3Bytes::Two(0xA5, 0xEA)),
        0x1EDE => Some(Tcvn3Bytes::Two(0xA5, 0xEB)),
        0x1EE0 => Some(Tcvn3Bytes::Two(0xA5, 0xEC)),
        0x1EE2 => Some(Tcvn3Bytes::Two(0xA5, 0xEE)),
        0x1EE9 => Some(Tcvn3Bytes::One(0xF8)),
        0x1EEB => Some(Tcvn3Bytes::One(0xF5)),
        0x1EED => Some(Tcvn3Bytes::One(0xF6)),
        0x1EEF => Some(Tcvn3Bytes::One(0xF7)),
        0x1EF1 => Some(Tcvn3Bytes::One(0xF9)),
        0x1EE8 => Some(Tcvn3Bytes::Two(0xA6, 0xF8)),
        0x1EEA => Some(Tcvn3Bytes::Two(0xA6, 0xF5)),
        0x1EEC => Some(Tcvn3Bytes::Two(0xA6, 0xF6)),
        0x1EEE => Some(Tcvn3Bytes::Two(0xA6, 0xF7)),
        0x1EF0 => Some(Tcvn3Bytes::Two(0xA6, 0xF9)),
        _ => None,
    }
}

} // verus!
