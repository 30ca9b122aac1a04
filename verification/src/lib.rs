//! CRC32C (Castagnoli) checksums, proved against a bit-level model of the
//! reflected CRC register.
//!
//! The crate exposes [`crc32c`]; the backends it is built from are public as
//! well and each carries the same contract: it returns
//! [`crc_model::crc32c_spec`] of its input.
//!
//! | Module | Shape |
//! | --- | --- |
//! | [`portable`] | eight bytes per iteration through eight table lookups |
//! | [`x86_64`] | the SSE4.2 `crc32` sequence: 8-byte words, then a 4/2/1-byte tail |
//! | [`aarch64`] | the CRC-extension sequence: 8-byte words, then a 4/2/1-byte tail |
//!
//! The word-level CRC instructions are modelled in software in
//! [`instructions`], so every backend runs on any target.
//!
//! CRC32C detects accidental corruption: every burst of at most 32 bits is
//! caught. It is linear and offers no security against a deliberate attacker:
//! four appended bytes reach any chosen checksum. These facts are proved in
//! [`properties`].

pub mod crc_model;
pub mod tables;
pub mod portable;
pub mod instructions;
pub mod x86_64;
pub mod aarch64;
pub mod bits;
pub mod properties;

use vstd::prelude::*;

verus! {

/// Computes the CRC32C checksum of `data`.
///
/// Runs the [`portable`] backend, which retires eight bytes per iteration
/// through table lookups once the input is long enough to repay building the
/// tables.
pub fn crc32c(data: &[u8]) -> (checksum: u32)
    ensures
        checksum == crc_model::crc32c_spec(data@),
{
    portable::crc32c_u32(data)
}

} // verus!
