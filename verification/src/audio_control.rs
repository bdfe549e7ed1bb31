//! Decisions of the voice capture path that do not touch samples: the audio
//! processing modes and how they are stored, when captured audio is sent,
//! and how long the speaking indicator stays on after speech stops.

use vstd::prelude::*;

use crate::text::str_eq;

verus! {

/// Noise suppression of captured audio.
#[derive(Debug, Clone, Copy, PartialEq, Eq, Structural)]
pub enum NoiseSuppressionMode {
    Off,
    Nnnoiseless,
}

/// Automatic gain control of captured audio.
#[derive(Debug, Clone, Copy, PartialEq, Eq, Structural)]
pub enum AgcMode {
    Off,
    Auto,
}

/// Input mode: transmit on voice activity.
pub const INPUT_MODE_VA: u8 = 0;
/// Input mode: transmit while the push-to-talk key is held.
pub const INPUT_MODE_PTT: u8 = 1;
/// Frames the speaking indicator stays on after voice activity drops (~300 ms).
pub const VAD_HANGOVER_FRAMES: u32 = 15;

fn stored_off(stored: &Option<String>) -> (r: bool)
    ensures
        r == (stored matches Some(s) && s@ == "off"@),
{
    proof {
        reveal_strlit("off");
    }
    match stored {
        Some(s) => str_eq(s.as_str(), "off"),
        None => false,
    }
}

impl NoiseSuppressionMode {
    /// The mode a control byte stands for: 0 is off, anything else suppresses.
    pub fn from_u8(v: u8) -> (m: NoiseSuppressionMode)
        ensures
            m == if v == 0 { NoiseSuppressionMode::Off } else { NoiseSuppressionMode::Nnnoiseless },
    {
        if v == 0 { NoiseSuppressionMode::Off } else { NoiseSuppressionMode::Nnnoiseless }
    }

    /// The control byte of the mode.
    pub fn to_u8(self) -> (v: u8)
        ensures
            v == match self {
                NoiseSuppressionMode::Off => 0u8,
                NoiseSuppressionMode::Nnnoiseless => 1u8,
            },
    {
        match self {
            NoiseSuppressionMode::Off => 0,
            NoiseSuppressionMode::Nnnoiseless => 1,
        }
    }

    /// The mode a stored setting selects: off only when stored as `"off"`.
    pub fn from_setting(stored: &Option<String>) -> (m: NoiseSuppressionMode)
        ensures
            m == if stored matches Some(s) && s@ == "off"@ { NoiseSuppressionMode::Off } else { NoiseSuppressionMode::Nnnoiseless },
    {
        if stored_off(stored) { NoiseSuppressionMode::Off } else { NoiseSuppressionMode::Nnnoiseless }
    }
}

impl AgcMode {
    /// The mode a control byte stands for: 0 is off, anything else is automatic.
    pub fn from_u8(v: u8) -> (m: AgcMode)
        ensures
            m == if v == 0 { AgcMode::Off } else { AgcMode::Auto },
    {
        if v == 0 { AgcMode::Off } else { AgcMode::Auto }
    }

    /// The control byte of the mode.
    pub fn to_u8(self) -> (v: u8)
        ensures
            v == match self {
                AgcMode::Off => 0u8,
                AgcMode::Auto => 1u8,
            },
    {
        match self {
            AgcMode::Off => 0,
            AgcMode::Auto => 1,
        }
    }

    /// The mode a stored setting selects: off only when stored as `"off"`.
    pub fn from_setting(stored: &Option<String>) -> (m: AgcMode)
        ensures
            m == if stored matches Some(s) && s@ == "off"@ { AgcMode::Off } else { AgcMode::Auto },
    {
        if stored_off(stored) { AgcMode::Off } else { AgcMode::Auto }
    }
}

/// Whether a captured frame is sent: never while muted; in voice-activity
/// mode always, otherwise only while the push-to-talk key is held.
pub fn should_transmit(muted: bool, input_mode: u8, ptt_active: bool) -> (t: bool)
    ensures
        t == (!muted && (input_mode == INPUT_MODE_VA || ptt_active)),
{
    !muted && (input_mode == INPUT_MODE_VA || ptt_active)
}

/// The speaking indicator after a transmitted frame, with the hangover
/// counter carried to the next frame: always on in push-to-talk mode;
/// otherwise voice activity above the threshold restarts the hangover, and
/// without it the hangover counts down, the indicator staying on while it lasts.
pub fn speaking_after_frame(input_mode: u8, voice_above_threshold: bool, hangover: u32) -> (r: (u32, bool))
    ensures
        r == if input_mode == INPUT_MODE_PTT {
            (hangover, true)
        } else if voice_above_threshold {
            (VAD_HANGOVER_FRAMES, true)
        } else if hangover > 0 {
            ((hangover - 1) as u32, hangover - 1 > 0)
        } else {
            (0u32, false)
        },
{
    if input_mode == INPUT_MODE_PTT {
        return (hangover, true);
    }
    let h = if voice_above_threshold {
        VAD_HANGOVER_FRAMES
    } else if hangover > 0 {
        hangover - 1
    } else {
        hangover
    };
    (h, h > 0)
}

} // verus!
