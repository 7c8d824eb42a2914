//! TCVN3 (Vietnamese legacy encoding) decoder and encoder.
//!
//! TCVN3 is a multi-byte character encoding for Vietnamese text: ASCII stands
//! for itself, and each Vietnamese letter is one byte of the upper half or a
//! base letter followed by a tone mark. The decoder turns TCVN3 bytes into
//! UTF-8 or UTF-16; the encoder turns UTF-8 or UTF-16 text into TCVN3 bytes.
//! Both work on caller-provided buffers and report how far they got.
pub mod decoder;
pub mod encoder;
pub mod laws;
pub mod table;
pub mod types;

pub use decoder::Tcvn3Decoder;
pub use encoder::Tcvn3Encoder;
pub use types::{DecoderResult, Encoder, EncoderResult, Encoding, VariantDecoder, VariantEncoder};
