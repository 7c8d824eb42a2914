# tcvn3

A decoder and an encoder for TCVN3, the legacy Vietnamese character encoding,
written in Verus and verified against their contracts.

- `src/table.rs`: the TCVN3 table as a specification, and the per-character
  conversions proved to agree with it (the decoding functions are its inverse).
- `src/decoder.rs`: `Tcvn3Decoder`, decoding TCVN3 bytes into UTF-8 or UTF-16
  buffers; the contracts state the result, the counts and the bytes written.
- `src/encoder.rs`: `Tcvn3Encoder`, encoding UTF-8 or UTF-16 text into TCVN3.
- `src/types.rs`: the result types and the decoder/encoder handles.
- `src/laws.rs`: properties proved of both together: round trips, decoding
  in two calls equal to decoding at once, where decoding stops on a malformed
  byte, re-encoding decoded bytes, agreement of the UTF-8 and UTF-16 encoders,
  buffer sizes that always suffice, well-formed UTF-8 output, ASCII
  pass-through.
