# c8y_oms_parser_service

A verified decoder for wireless M-Bus / OMS meter telegrams, written in Verus.

* `src/` is the library. Every function there is proved against its contract:
  the data-link-layer header, the M-Bus record stream (DIF/DIFE, VIF/VIFE, BCD,
  binary and date fields), OMS security modes 5 and 7, the manufacturer drivers
  and their registry, the request handling of the parse service (key decoding,
  key masking, status codes), and the first-generation endpoint with its own
  record evaluation and candidate-key decryption.
* `src/laws.rs` states properties that span several functions: decoding what
  was encoded, what key masking can reveal, the shape of every service answer,
  filler stripping, driver precedence and routing (with the standard OMS
  fallback last), bounded record counts, signed readings, and agreement of
  the two record decoders.
* AES, CMAC, Base64, the `hex` crate, `chrono` and `String::push` are called
  through small trusted functions in `src/crypto.rs`, `src/encoding.rs` and
  `src/text.rs`; their contracts are the only unproved statements.
* `app/` is the Axum/Tokio HTTP server: JSON (de)serialisation, audit logging,
  and rendering of decoded values as decimal numbers.
* `tests/` exercises the library on sample telegrams.
