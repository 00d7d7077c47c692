//! The settings of one run.

use vstd::prelude::*;
use crate::paths::ImagePath;

verus! {

/// The score that stands for a confidence of 1: scores and thresholds are
/// fixed-point numbers with 62 fractional bits.
pub const SCORE_ONE: u64 = 0x4000_0000_0000_0000;

/// The settings that the tagger works from.
#[derive(Debug)]
pub struct Config {
    pub input_dir: ImagePath,
    pub output_dir: ImagePath,
    pub device_id: i32,
    pub batch_size: usize,
    pub general_threshold: u64,
    pub general_mcut_enabled: bool,
    pub character_threshold: u64,
    pub character_mcut_enabled: bool,
}

impl Config {
    /// A batch holds at least one image, and both thresholds lie between 0
    /// and 1.
    pub open spec fn valid(self) -> bool {
        &&& self.batch_size >= 1
        &&& self.general_threshold <= SCORE_ONE
        &&& self.character_threshold <= SCORE_ONE
    }

    /// Tells whether the settings are ones a run can work from.
    pub fn is_valid(&self) -> (ok: bool)
        ensures
            ok == self.valid(),
    {
        self.batch_size >= 1 && self.general_threshold <= SCORE_ONE && self.character_threshold
            <= SCORE_ONE
    }
}

} // verus!
