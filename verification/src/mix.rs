//! The per-sample mixing arithmetic of the engine.
//!
//! Samples are 16-bit integer PCM values; gains are non-negative integer
//! factors. An output sample is the gain-weighted sum of the active sources
//! divided by a fixed 3, whether or not all three sources are active — a
//! deliberate simplification kept from the engine's design. Output samples are
//! wide integers; scaling them back to the backend's unit range is the
//! caller's business.

use vstd::prelude::*;

verus! {

/// Gain factors for the three sources: microphone, line-in and the loaded
/// track. The three values are independent; the control side overwrites them
/// at will (last write wins) and the engine reads them once per cycle.
pub struct GainLevels {
    pub mic: u32,
    pub line: u32,
    pub track: u32,
}

impl GainLevels {
    /// All sources silent, the startup setting.
    pub fn new() -> (r: GainLevels)
        ensures
            r == (GainLevels { mic: 0, line: 0, track: 0 }),
    {
        GainLevels { mic: 0, line: 0, track: 0 }
    }

    /// Sets the microphone gain; the other gains are untouched.
    pub fn set_mic_volume(&mut self, value: u32)
        ensures
            *final(self) == (GainLevels { mic: value, ..*old(self) }),
    {
        self.mic = value;
    }

    /// Sets the line-in gain; the other gains are untouched.
    pub fn set_line_volume(&mut self, value: u32)
        ensures
            *final(self) == (GainLevels { line: value, ..*old(self) }),
    {
        self.line = value;
    }

    /// Sets the track gain; the other gains are untouched.
    pub fn set_song_volume(&mut self, value: u32)
        ensures
            *final(self) == (GainLevels { track: value, ..*old(self) }),
    {
        self.track = value;
    }
}

/// Division by 3 truncating toward zero, the way the output scaling divides.
pub open spec fn div3_toward_zero(x: int) -> int {
    if x >= 0 {
        x / 3
    } else {
        -((-x) / 3)
    }
}

/// The output sample while a track sample is available:
/// `(micGain*mic + lineGain*line + trackGain*track) / 3`.
pub open spec fn spec_mix3(g: GainLevels, m: int, l: int, s: int) -> int {
    div3_toward_zero(g.mic * m + g.line * l + g.track * s)
}

/// The output sample with no track source: `(micGain*mic + lineGain*line) / 3`.
pub open spec fn spec_mix2(g: GainLevels, m: int, l: int) -> int {
    div3_toward_zero(g.mic * m + g.line * l)
}

/// A gain-weighted 16-bit sample stays well inside the 64-bit range.
proof fn lemma_gain_product_bounds(g: int, s: int)
    requires
        0 <= g <= u32::MAX,
        i16::MIN <= s <= i16::MAX,
    ensures
        -0x8000_0000_0000 <= g * s <= 0x8000_0000_0000,
{
    assert(-0x8000_0000_0000 <= g * s <= 0x8000_0000_0000) by (nonlinear_arith)
        requires
            0 <= g < 0x1_0000_0000,
            -0x8000 <= s < 0x8000,
    ;
}

/// Mixes one sample of all three sources.
pub fn mix3(g: &GainLevels, m: i16, l: i16, s: i16) -> (r: i64)
    ensures
        r == spec_mix3(*g, m as int, l as int, s as int),
{
    proof {
        lemma_gain_product_bounds(g.mic as int, m as int);
        lemma_gain_product_bounds(g.line as int, l as int);
        lemma_gain_product_bounds(g.track as int, s as int);
    }
    let sum: i64 = (g.mic as i64) * (m as i64) + (g.line as i64) * (l as i64) + (g.track as i64)
        * (s as i64);
    sum / 3
}

/// Mixes one sample of the two live sources, used while the track is paused or
/// exhausted.
pub fn mix2(g: &GainLevels, m: i16, l: i16) -> (r: i64)
    ensures
        r == spec_mix2(*g, m as int, l as int),
{
    proof {
        lemma_gain_product_bounds(g.mic as int, m as int);
        lemma_gain_product_bounds(g.line as int, l as int);
    }
    let sum: i64 = (g.mic as i64) * (m as i64) + (g.line as i64) * (l as i64);
    sum / 3
}

} // verus!
