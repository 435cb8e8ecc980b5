//! How long to wait before trying again.
//!
//! The jitter is no ornament: when the media server restarts everyone drops at the same
//! instant, and without it all would come back together against a server that just rose.
//! Spreading the attempts is what makes the way back work.

use vstd::prelude::*;

use crate::chance::{gen_below, thread_rng};

verus! {

/// After this the app gives up and tells whoever looks at the screen.
pub const MAX_ATTEMPTS: u32 = 8;

pub const FIRST_MS: u64 = 1000;

pub const CEILING_MS: u64 = 10000;

#[derive(Debug)]
pub struct Backoff {
    pub attempt: u32,
}

/// The longest wait of an attempt: the first one doubled per attempt, up to the ceiling.
pub open spec fn spec_ceiling(attempt: u32) -> u64 {
    if attempt == 0 {
        1000
    } else if attempt == 1 {
        2000
    } else if attempt == 2 {
        4000
    } else if attempt == 3 {
        8000
    } else {
        10000
    }
}

impl Default for Backoff {
    fn default() -> (backoff: Self)
        ensures
            backoff.attempt == 0,
    {
        Backoff { attempt: 0 }
    }
}

impl Backoff {
    /// The wait before the next attempt, in milliseconds; `None` when trying is no longer
    /// worth it. Half of it is fixed and half drawn: a minimum wait, and still spread.
    pub fn next_delay(&mut self) -> (delay: Option<u64>)
        ensures
            old(self).attempt >= MAX_ATTEMPTS ==> delay is None && final(self).attempt == old(self).attempt,
            old(self).attempt < MAX_ATTEMPTS ==> (delay matches Some(wait) && spec_ceiling(old(self).attempt) / 2 <= wait
                <= spec_ceiling(old(self).attempt)),
            old(self).attempt < MAX_ATTEMPTS ==> final(self).attempt == old(self).attempt + 1,
    {
        if self.attempt >= MAX_ATTEMPTS {
            return None;
        }

        let ceiling: u64 = if self.attempt >= 4 {
            CEILING_MS
        } else {
            let shift = self.attempt;
            proof {
                assert((shift == 0u32 ==> (1u64 << shift) == 1u64) && (shift == 1u32 ==> (1u64 << shift) == 2u64) && (shift
                    == 2u32 ==> (1u64 << shift) == 4u64) && (shift == 3u32 ==> (1u64 << shift) == 8u64)) by (bit_vector);
            }
            let doubled: u64 = FIRST_MS * (1u64 << shift);
            if doubled < CEILING_MS { doubled } else { CEILING_MS }
        };
        let half = ceiling / 2;

        self.attempt = self.attempt + 1;

        let mut rng = thread_rng();
        let drawn = gen_below(&mut rng, (half + 1) as usize);

        Some(half + drawn as u64)
    }

    /// A connection that worked resets the count.
    pub fn succeeded(&mut self)
        ensures
            final(self).attempt == 0,
    {
        self.attempt = 0;
    }
}

/// The waits never pass the ceiling, never fall under half the first one, and after
/// `MAX_ATTEMPTS` of them the backoff gives up.
pub proof fn law_waits_stay_under_the_ceiling(attempt: u32)
    ensures
        FIRST_MS / 2 <= spec_ceiling(attempt) / 2,
        spec_ceiling(attempt) <= CEILING_MS,
{
}

} // verus!
