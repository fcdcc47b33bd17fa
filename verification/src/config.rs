//! Engine-wide constants and the small mode enumerations.

use vstd::prelude::*;

verus! {

/// Engine sample rate in Hz.
pub const SR: usize = 48_000;
/// Frames rendered per processing block.
pub const BLOCK: usize = 128;
/// Number of grain voices in the grain pool.
pub const MAX_GRAINS: usize = 102400;
/// Length of the grain window lookup table.
pub const WIN_TAB: usize = 2048;
/// Number of delay lines in the feedback delay network.
pub const FDN_LINES: usize = 24;
/// FFT length used by the impulse-response worker.
pub const FFT_SIZE: usize = 4096;
/// Number of taps in the convolution head.
pub const CONV_HEAD_TAPS: usize = 1024;

/// How grains pick their spawn position in the source sample.
#[derive(Clone, Copy, PartialEq, Eq, Debug, Structural)]
pub enum NavigationMode {
    /// Grains spawn around one random point.
    Static,
    /// A slow LFO scans through the sample.
    Scan,
    /// Grains jump randomly across the whole sample.
    Jump,
}

impl NavigationMode {
    /// The numeric code of the mode: Static 0, Scan 1, Jump 2.
    pub open spec fn spec_code(self) -> u8 {
        match self {
            NavigationMode::Static => 0,
            NavigationMode::Scan => 1,
            NavigationMode::Jump => 2,
        }
    }

    /// Numeric code of the mode (Static 0, Scan 1, Jump 2).
    pub fn code(&self) -> (c: u8)
        ensures
            c == self.spec_code(),
    {
        match self {
            NavigationMode::Static => 0,
            NavigationMode::Scan => 1,
            NavigationMode::Jump => 2,
        }
    }

    /// The mode a selector step names: 0 is Static, 1 is Scan, any other value is Jump.
    pub open spec fn spec_from_code(n: i32) -> NavigationMode {
        if n == 0 {
            NavigationMode::Static
        } else if n == 1 {
            NavigationMode::Scan
        } else {
            NavigationMode::Jump
        }
    }

    /// Mode for a selector step: 0 is Static, 1 is Scan, any other value is Jump.
    pub fn from_code(n: i32) -> (m: NavigationMode)
        ensures
            m == Self::spec_from_code(n),
    {
        match n {
            0 => NavigationMode::Static,
            1 => NavigationMode::Scan,
            _ => NavigationMode::Jump,
        }
    }

    /// Display name of the mode.
    pub fn name(&self) -> (s: &'static str)
        ensures
            *self == NavigationMode::Static ==> s@ == "Static"@,
            *self == NavigationMode::Scan ==> s@ == "Scan"@,
            *self == NavigationMode::Jump ==> s@ == "Jump"@,
    {
        match self {
            NavigationMode::Static => "Static",
            NavigationMode::Scan => "Scan",
            NavigationMode::Jump => "Jump",
        }
    }
}

/// Reading a mode's code back gives the same mode.
pub proof fn lemma_navigation_code_roundtrip(m: NavigationMode)
    ensures
        NavigationMode::spec_from_code(m.spec_code() as i32) == m,
{
}

/// How a slew limiter moves toward its target.
#[derive(Clone, Copy, PartialEq, Eq, Debug, Structural)]
pub enum SlewMode {
    /// Constant rate in value units per second.
    Linear,
    /// Constant rate in octaves per second.
    Logarithmic,
}

} // verus!
