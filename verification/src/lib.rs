//! Counts how many characters of a text belong to a set of target
//! characters, comparing by exact Unicode scalar value.
//!
//! The library has two pieces: building a target character set from
//! user-supplied tokens, and scanning a text to tally how many of its
//! characters are members of that set.  The scan may be split into
//! character-boundary-aligned chunks that are counted independently and
//! summed; the chunk counts are combined by plain addition, so the total
//! is independent of how the text is partitioned.

pub mod counter;
pub mod target;
