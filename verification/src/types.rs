//! Result types shared by the decoder and the encoder, and the handles that
//! carry a TCVN3 decoder or encoder.
use vstd::prelude::*;

use crate::decoder::Tcvn3Decoder;
use crate::encoder::Tcvn3Encoder;

verus! {

/// Why a decoding call returned.
#[derive(Clone, Copy, Debug, PartialEq, Eq, Structural)]
pub enum DecoderResult {
    /// The whole input was read.
    InputEmpty,
    /// The output buffer has no room for the next character.
    OutputFull,
    /// A malformed sequence was found: the number of bytes it spans that were
    /// read, and the number of bytes read after it.
    Malformed(u8, u8),
}

/// Why an encoding call returned.
#[derive(Clone, Copy, Debug, PartialEq, Eq, Structural)]
pub enum EncoderResult {
    /// The whole input was read.
    InputEmpty,
    /// The output buffer has no room for the next character.
    OutputFull,
    /// The character has no TCVN3 representation.
    Unmappable(char),
}

/// An encoding, known by its name.
pub struct Encoding {
    pub name: &'static str,
}

/// The decoder of some encoding.
pub enum VariantDecoder {
    Tcvn3(Tcvn3Decoder),
}

/// The encoder of some encoding.
pub enum VariantEncoder {
    Tcvn3(Tcvn3Encoder),
}

/// An encoder, together with the encoding it encodes to.
pub struct Encoder {
    pub encoding: &'static Encoding,
    pub variant: VariantEncoder,
}

impl Encoder {
    /// Pairs an encoding with its encoder.
    pub fn new(encoding: &'static Encoding, variant: VariantEncoder) -> (r: Encoder)
        ensures
            r.encoding == encoding,
            r.variant == variant,
    {
        Encoder { encoding, variant }
    }
}

} // verus!
