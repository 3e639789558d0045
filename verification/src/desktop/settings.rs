//! Persisted user preferences.
//!
//! Nothing here is irreplaceable: these are choices that the user can make
//! again. So a malformed file is not fatal. It is moved aside, and defaults take
//! over, with the old contents left for anyone who wants to look.

use crate::audio::codec::DEFAULT_BITRATE;
use crate::audio::vad::GateMode;
use crate::text;
use vstd::prelude::*;

verus! {

#[derive(Debug)]
pub enum SettingsError {
    Io { path: String, source: String },
}

impl SettingsError {
    pub fn message(&self) -> (s: String)
        ensures
            s@ == match *self {
                SettingsError::Io { path, source } => "writing settings "@ + path@ + ": "@ + source@,
            },
    {
        match self {
            SettingsError::Io { path, source } => {
                let mut s: String = text::join("writing settings ", path.as_str());
                s.append(": ");
                s.append(source.as_str());
                s
            },
        }
    }
}

/// How the microphone is gated, as it is stored. The signal path has no business
/// carrying a storage format.
#[derive(Debug, Clone, Copy, PartialEq, Eq, Structural)]
pub enum StoredGateMode {
    VoiceActivity,
    PushToTalk,
    Continuous,
}

impl Default for StoredGateMode {
    fn default() -> (m: Self)
        ensures
            m == StoredGateMode::VoiceActivity,
    {
        StoredGateMode::VoiceActivity
    }
}

/// The voice gate mode that a stored one stands for.
pub open spec fn gate_of(mode: StoredGateMode) -> GateMode {
    match mode {
        StoredGateMode::VoiceActivity => GateMode::VoiceActivity,
        StoredGateMode::PushToTalk => GateMode::PushToTalk,
        StoredGateMode::Continuous => GateMode::Continuous,
    }
}

impl From<StoredGateMode> for GateMode {
    fn from(mode: StoredGateMode) -> (g: Self) {
        match mode {
            StoredGateMode::VoiceActivity => GateMode::VoiceActivity,
            StoredGateMode::PushToTalk => GateMode::PushToTalk,
            StoredGateMode::Continuous => GateMode::Continuous,
        }
    }
}

impl vstd::std_specs::convert::FromSpecImpl<StoredGateMode> for GateMode {
    open spec fn obeys_from_spec() -> bool {
        true
    }

    open spec fn from_spec(mode: StoredGateMode) -> Self {
        gate_of(mode)
    }
}

#[derive(Debug, Clone, PartialEq, Eq)]
pub struct AudioSettings {
    /// Device name, or `None` for the system default.
    pub input_device: Option<String>,
    pub output_device: Option<String>,
    pub bitrate: u32,
    pub gate_mode: StoredGateMode,
}

impl Default for AudioSettings {
    fn default() -> (s: Self)
        ensures
            s.input_device is None,
            s.output_device is None,
            s.bitrate == DEFAULT_BITRATE,
            s.gate_mode == StoredGateMode::VoiceActivity,
    {
        AudioSettings {
            input_device: None,
            output_device: None,
            bitrate: DEFAULT_BITRATE,
            gate_mode: StoredGateMode::default(),
        }
    }
}

/// A device choice as a sequence of characters.
pub open spec fn choice(name: Option<String>) -> Option<Seq<char>> {
    match name {
        Some(n) => Some(n@),
        None => None,
    }
}

/// Whether two device choices are the same.
pub fn same_choice(a: &Option<String>, b: &Option<String>) -> (r: bool)
    ensures
        r == (choice(*a) == choice(*b)),
{
    match (a, b) {
        (Some(x), Some(y)) => text::same(x.as_str(), y.as_str()),
        (None, None) => true,
        _ => false,
    }
}

/// Whether moving from one to the other means rebuilding the engine.
pub open spec fn restarts(from: AudioSettings, to: AudioSettings) -> bool {
    choice(from.input_device) != choice(to.input_device) || choice(from.output_device) != choice(
        to.output_device,
    ) || from.bitrate != to.bitrate
}

impl AudioSettings {
    /// Whether moving to `next` means rebuilding the engine. The voice gate mode does
    /// not: the engine changes it in place.
    pub fn needs_restart(&self, next: &Self) -> (r: bool)
        ensures
            r == restarts(*self, *next),
    {
        !same_choice(&self.input_device, &next.input_device) || !same_choice(
            &self.output_device,
            &next.output_device,
        ) || self.bitrate != next.bitrate
    }
}

/// Accelerators for the actions that are worth a key; `None` is unbound.
#[derive(Debug, Clone, PartialEq, Eq)]
pub struct Keybinds {
    pub push_to_talk: Option<String>,
    pub toggle_mute: Option<String>,
    pub toggle_deafen: Option<String>,
}

impl Default for Keybinds {
    fn default() -> (k: Self)
        ensures
            k.push_to_talk is None,
            k.toggle_mute is None,
            k.toggle_deafen is None,
    {
        Keybinds { push_to_talk: None, toggle_mute: None, toggle_deafen: None }
    }
}

#[derive(Debug, Clone, PartialEq, Eq)]
pub struct Settings {
    pub audio: AudioSettings,
    pub keybinds: Keybinds,
}

/// Settings that nobody has touched.
pub open spec fn untouched(s: Settings) -> bool {
    &&& s.audio.input_device is None
    &&& s.audio.output_device is None
    &&& s.audio.bitrate == DEFAULT_BITRATE
    &&& s.audio.gate_mode == StoredGateMode::VoiceActivity
    &&& s.keybinds.push_to_talk is None
    &&& s.keybinds.toggle_mute is None
    &&& s.keybinds.toggle_deafen is None
}

impl Default for Settings {
    fn default() -> (s: Self)
        ensures
            untouched(s),
    {
        Settings { audio: AudioSettings::default(), keybinds: Keybinds::default() }
    }
}

/// What was found where settings are kept.
#[derive(Debug)]
pub enum SettingsFile {
    Missing,
    /// There, but it could not be read.
    Unreadable,
    /// Read, but it does not hold settings.
    Malformed,
    Read(Settings),
}

impl Settings {
    /// The settings to go by, and whether the file is to be moved aside: a
    /// malformed one must not be overwritten by the next save.
    pub fn load(file: SettingsFile) -> (r: (Self, bool))
        ensures
            file matches SettingsFile::Read(s) ==> r == (s, false),
            !(file is Read) ==> untouched(r.0),
            r.1 == (file is Malformed),
    {
        match file {
            SettingsFile::Missing => (Settings::default(), false),
            SettingsFile::Unreadable => (Settings::default(), false),
            SettingsFile::Malformed => (Settings::default(), true),
            SettingsFile::Read(s) => (s, false),
        }
    }
}

/// The voice gate mode alone never restarts the engine.
pub proof fn law_the_gate_mode_changes_in_place(a: AudioSettings, mode: StoredGateMode)
    ensures
        !restarts(a, AudioSettings { gate_mode: mode, ..a }),
{
}


/// A stored mode stands for the mode of the same name.
pub proof fn law_a_stored_mode_keeps_its_meaning(mode: StoredGateMode)
    ensures
        gate_of(mode) is VoiceActivity <==> mode is VoiceActivity,
        gate_of(mode) is PushToTalk <==> mode is PushToTalk,
        gate_of(mode) is Continuous <==> mode is Continuous,
{
}

/// The engine is left running exactly when both devices, by name or by default,
/// and the bitrate stay.
pub proof fn law_when_the_engine_is_rebuilt(from: AudioSettings, to: AudioSettings)
    ensures
        !restarts(from, to) <==> {
            &&& from.input_device is None <==> to.input_device is None
            &&& from.input_device is Some && to.input_device is Some ==> (from.input_device->0)@
                == (to.input_device->0)@
            &&& from.output_device is None <==> to.output_device is None
            &&& from.output_device is Some && to.output_device is Some ==> (
            from.output_device->0)@ == (to.output_device->0)@
            &&& from.bitrate == to.bitrate
        },
        restarts(from, to) == restarts(to, from),
{
}

/// Untouched settings choose no device, bind no key, and open the microphone to
/// voice alone.
pub proof fn law_untouched_settings_choose_nothing(s: Settings)
    requires
        untouched(s),
    ensures
        choice(s.audio.input_device) is None,
        choice(s.audio.output_device) is None,
        s.audio.bitrate == 32_000,
        gate_of(s.audio.gate_mode) is VoiceActivity,
        choice(s.keybinds.push_to_talk) is None,
        choice(s.keybinds.toggle_mute) is None,
        choice(s.keybinds.toggle_deafen) is None,
{
}
} // verus!
