use pickle::audio::codec::DEFAULT_BITRATE;
use pickle::audio::vad::GateMode;
use pickle::desktop::settings::{
    same_choice, AudioSettings, Settings, SettingsError, SettingsFile, StoredGateMode,
};

#[test]
fn only_device_and_bitrate_changes_need_a_restart() {
    let base = AudioSettings::default();

    // Gate mode is switchable in place on a running engine.
    let gate_only = AudioSettings {
        gate_mode: StoredGateMode::PushToTalk,
        ..base.clone()
    };
    assert!(!base.needs_restart(&gate_only));

    let device = AudioSettings {
        input_device: Some("Yeti".into()),
        ..base.clone()
    };
    assert!(base.needs_restart(&device));

    let bitrate = AudioSettings {
        bitrate: 16_000,
        ..base.clone()
    };
    assert!(base.needs_restart(&bitrate));
}

#[test]
fn a_missing_file_yields_defaults_without_complaint() {
    let (settings, move_aside) = Settings::load(SettingsFile::Missing);
    assert_eq!(settings.audio.bitrate, DEFAULT_BITRATE);
    assert_eq!(settings.audio.input_device, None);
    assert!(settings.keybinds.push_to_talk.is_none());
    assert!(!move_aside);
}

#[test]
fn a_malformed_file_is_kept_aside_rather_than_lost() {
    let (settings, move_aside) = Settings::load(SettingsFile::Malformed);
    assert_eq!(settings.audio.bitrate, DEFAULT_BITRATE);
    assert!(move_aside, "the original must be preserved");
    let (_, move_aside) = Settings::load(SettingsFile::Unreadable);
    assert!(!move_aside);
}

#[test]
fn what_was_saved_is_what_is_loaded() {
    let mut settings = Settings::default();
    settings.audio.input_device = Some("Yeti".into());
    settings.audio.gate_mode = StoredGateMode::PushToTalk;
    settings.keybinds.push_to_talk = Some("F13".into());
    let (loaded, move_aside) = Settings::load(SettingsFile::Read(settings));
    assert_eq!(loaded.audio.input_device.as_deref(), Some("Yeti"));
    assert_eq!(loaded.audio.gate_mode, StoredGateMode::PushToTalk);
    assert_eq!(loaded.keybinds.push_to_talk.as_deref(), Some("F13"));
    assert!(!move_aside);
}

#[test]
fn a_stored_mode_stands_for_the_mode_of_its_name() {
    assert_eq!(GateMode::from(StoredGateMode::VoiceActivity), GateMode::VoiceActivity);
    assert_eq!(GateMode::from(StoredGateMode::PushToTalk), GateMode::PushToTalk);
    assert_eq!(GateMode::from(StoredGateMode::Continuous), GateMode::Continuous);
}

#[test]
fn the_default_device_is_no_named_one() {
    assert!(same_choice(&None, &None));
    assert!(same_choice(&Some("Yeti".into()), &Some("Yeti".into())));
    assert!(!same_choice(&Some("Yeti".into()), &None));
    assert!(!same_choice(&Some("Yeti".into()), &Some("yeti".into())));
}

#[test]
fn a_failed_write_says_where() {
    let e = SettingsError::Io {
        path: "settings.json".into(),
        source: "disk full".into(),
    };
    assert_eq!(e.message(), "writing settings settings.json: disk full");
}
