# crc32c_fast

CRC32C (Castagnoli) checksums in Verus. Every backend is proved to return
`crc_model::crc32c_spec` of its input, a bit-level model of the reflected CRC
register (polynomial 0x82F63B78, initial register and final inversion
0xFFFFFFFF).

- `src/crc_model.rs`: the model and the lemmas that relate bit steps, byte
  steps, and the eight-bytes-at-a-time table update.
- `src/tables.rs`: construction of the eight 256-entry tables.
- `src/portable.rs`: the table-driven backend behind `crc32c`; inputs below
  512 bytes are folded a byte at a time.
- `src/instructions.rs`: software models of the x86_64 and AArch64 CRC32C
  instructions and of little-endian loads.
- `src/x86_64.rs`, `src/aarch64.rs`: the instruction-sequence backends.
- `src/bits.rs`: the register update seen one data bit at a time.
- `src/properties.rs`: linearity; forgeability (after any prefix exactly one
  four-byte suffix reaches any checksum); detection of any change confined
  to one byte or to 32 consecutive bits.
