# blf_lib

A library for the Blam! engine's BLF file family, written in Verus. Every
function in `src/` carries a contract that Verus proves, except a handful of
small trusted wrappers around outside code whose contracts are believed, not
proved: zlib decompression and compression (flate2), LZMA decompression
(lzma-rs), the first whole-string match of a regular expression (regex),
UTF-8 validation (`String::from_utf8`) and `String::push`. Each states in its
doc comment what it claims of the code it calls.

## Layout

- `src/io/` — the bit stream (reader and writer of bit-packed integers,
  booleans, strings and indices), fixed-width integers as bytes, and
  character/byte string conversions.
- `src/blam/common/` — runtime-data compression (zlib) and the data-mine
  records (headers, event headers, parameters) as bytes.
- `src/blam/halo3/`, `src/blam/haloreach/`, `src/blam/haloreach_mcc/` —
  per-build encodings: content-item metadata (Reach and Halo 2
  Anniversary), loadout and survival traits, map-variant quotas,
  boundaries, object properties and Halo 4 / Halo 2 Anniversary variant
  object slots, simulation positions as quantized points, Megalo condition
  and game-mode numbering, Forge palette resolution, the stringID and tag
  tables, and cache-file LZMA section decompression.
- `src/blf/` — the hooks and title/build traits chunk types implement.
- `src/title_storage/` — the title-storage folder and file layout and the
  hopper identifiers of hopper folders.
- `src/scan.rs`, `src/search.rs`, `src/text.rs` — line scanning, record
  grouping and decimal text, shared by the above.
- `app/` — ordinary Rust around the library: palette and table loading
  from disk, and the floating-point vector math, bit counts and
  quantization that turn positions into the integer points the library
  reads and writes.
- `tests/` — the test suite.

The round-trip laws (decoding what was encoded gives the value back) are
public proof functions beside the codecs they speak of.
