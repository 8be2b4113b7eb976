//! Input clipping.
//!
//! Inputs longer than a capability-specific character threshold are
//! clipped to a larger character ceiling before transmission: never
//! silently truncated below the threshold, never sent unbounded.  The
//! thresholds and ceilings differ per capability and batch size.

use vstd::prelude::*;

verus! {

/// Clip threshold for a single dense embedding input.
pub const DENSE_SINGLE_CLIP_THRESHOLD: usize = 7000;

/// Clip ceiling for a single dense embedding input.
pub const DENSE_SINGLE_CLIP_CEILING: usize = 20000;

/// Clip threshold for each input of a batched dense embedding call.
pub const DENSE_BATCH_CLIP_THRESHOLD: usize = 5000;

/// Clip ceiling for each input of a batched dense embedding call.
pub const DENSE_BATCH_CLIP_CEILING: usize = 12000;

/// Clip threshold for a single sparse embedding input.
pub const SPARSE_SINGLE_CLIP_THRESHOLD: usize = 5000;

/// Clip ceiling for a single sparse embedding input.
pub const SPARSE_SINGLE_CLIP_CEILING: usize = 128000;

/// Clip threshold for each input of a batched sparse embedding call.
pub const SPARSE_BATCH_CLIP_THRESHOLD: usize = 5000;

/// Clip ceiling for each input of a batched sparse embedding call.
pub const SPARSE_BATCH_CLIP_CEILING: usize = 50000;

/// The clipped form of a text: unchanged while within the threshold,
/// otherwise cut down to at most `ceiling` characters.
pub open spec fn spec_clipped(s: Seq<char>, threshold: int, ceiling: int) -> Seq<char> {
    if s.len() > threshold {
        if s.len() > ceiling {
            s.take(ceiling)
        } else {
            s
        }
    } else {
        s
    }
}

/// Clip a text to the given character threshold and ceiling.
pub fn clip_chars(s: &str, threshold: usize, ceiling: usize) -> (r: String)
    ensures
        r@ == spec_clipped(s@, threshold as int, ceiling as int),
{
    let n = s.unicode_len();
    if n > threshold && n > ceiling {
        let clipped = s.substring_char(0, ceiling);
        String::from_str(clipped)
    } else {
        proof {
            assert(s@.subrange(0, s@.len() as int) =~= s@);
        }
        String::from_str(s)
    }
}

} // verus!
