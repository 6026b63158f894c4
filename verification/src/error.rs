//! The failures a load can end in.

use vstd::prelude::*;

verus! {

/// Why a load was rejected.
///
/// Every stage returns its failure immediately; no ROM or payload is ever
/// produced alongside an error.
#[derive(Debug, Clone, Copy, PartialEq, Eq)]
pub enum ElfError {
    /// Invalid magic, unsupported word size or program-header entry size,
    /// or wrong machine type in the container header.
    Format,
    /// A loadable segment's declared offsets or sizes are inconsistent with
    /// the actual container length or with each other.
    Truncated,
    /// A writable segment falls outside the RAM window; carries the
    /// offending address and length.
    OutOfBounds { addr: u64, len: u64 },
    /// Two segments classified into the same bucket overlap.
    Overlap,
    /// The declared entry address resolves inside no executable segment.
    EntryPoint { entry: u64 },
    /// An executable segment's length is not a whole number of instruction
    /// words; carries the offending address and length.
    Misaligned { addr: u64, len: u64 },
}

impl ElfError {
    /// A short human-readable description of the failure, fixed per
    /// variant.
    pub fn describe(&self) -> (r: &'static str)
        ensures
            self is Format ==> r@ == "invalid container header"@,
            self is Truncated ==> r@ == "segment exceeds container bounds"@,
            self is OutOfBounds ==> r@ == "writable segment outside the RAM window"@,
            self is Overlap ==> r@ == "segments in one bucket overlap"@,
            self is EntryPoint ==> r@ == "entry point inside no executable segment"@,
            self is Misaligned ==> r@ == "executable segment length not a whole number of words"@,
            r@.len() > 0,
    {
        let s: &'static str = match self {
            ElfError::Format => "invalid container header",
            ElfError::Truncated => "segment exceeds container bounds",
            ElfError::OutOfBounds { .. } => "writable segment outside the RAM window",
            ElfError::Overlap => "segments in one bucket overlap",
            ElfError::EntryPoint { .. } => "entry point inside no executable segment",
            ElfError::Misaligned { .. } => "executable segment length not a whole number of words",
        };
        proof {
            reveal_strlit("invalid container header");
            reveal_strlit("segment exceeds container bounds");
            reveal_strlit("writable segment outside the RAM window");
            reveal_strlit("segments in one bucket overlap");
            reveal_strlit("entry point inside no executable segment");
            reveal_strlit("executable segment length not a whole number of words");
        }
        s
    }
}

} // verus!
