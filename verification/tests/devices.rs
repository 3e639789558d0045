use pickle::audio::devices::{
    choose_config, choose_index, list, pick_config, select, ConfigRange, DeviceError, DeviceInfo,
    DeviceKind, FoundDevice, SampleFormat, Selection,
};
use pickle::proto::voice::SAMPLE_RATE;

fn range(channels: u16, min: u32, max: u32, format: SampleFormat) -> ConfigRange {
    ConfigRange {
        channels,
        min_sample_rate: min,
        max_sample_rate: max,
        sample_format: format,
    }
}

/// A machine with one device of every sort.
fn machine() -> Result<Vec<FoundDevice>, String> {
    Ok(vec![
        FoundDevice {
            name: Some("native".into()),
            configs: Some(vec![range(2, 8_000, 192_000, SampleFormat::F32)]),
        },
        FoundDevice {
            name: Some("laptop".into()),
            configs: Some(vec![range(2, 44_100, 44_100, SampleFormat::I16)]),
        },
        FoundDevice {
            name: Some("packed".into()),
            configs: Some(vec![range(2, 48_000, 48_000, SampleFormat::Other)]),
        },
        FoundDevice {
            name: Some("busy".into()),
            configs: None,
        },
        FoundDevice {
            name: None,
            configs: None,
        },
    ])
}

fn default_name() -> Option<String> {
    Some("laptop".into())
}

fn names() -> Result<Vec<Option<String>>, String> {
    machine().map(|found| found.into_iter().map(|d| d.name).collect())
}

#[test]
fn listing_devices_does_not_fail_on_a_machine_without_any() {
    for kind in [DeviceKind::Input, DeviceKind::Output] {
        let devices = list(kind, &default_name(), machine()).unwrap_or_default();
        for device in &devices {
            assert!(!device.name.is_empty());
            assert_eq!(device.kind, kind);
        }
    }
}

#[test]
fn at_most_one_device_of_each_kind_is_the_default() {
    for kind in [DeviceKind::Input, DeviceKind::Output] {
        let devices = list(kind, &default_name(), machine()).unwrap_or_default();
        assert!(devices.iter().filter(|d| d.is_default).count() <= 1);
    }
}

#[test]
fn no_device_is_listed_as_unusable_with_a_rate() {
    // The two fields have to tell the same story, or the UI shows a device
    // greyed out and annotated with the rate it would have used.
    for kind in [DeviceKind::Input, DeviceKind::Output] {
        let Ok(devices) = list(kind, &default_name(), machine()) else { continue };
        for info in &devices {
            assert!(
                info.usable || info.sample_rate.is_none(),
                "{} is unusable but has a rate",
                info.name,
            );
        }
    }
}

#[test]
fn a_forty_four_one_only_device_is_now_selectable() {
    // The whole point: this device used to be greyed out as unsupported.
    let configs = [range(2, 44_100, 44_100, SampleFormat::F32)];
    let (chosen, rate) = choose_config(&configs).expect("44.1 kHz is usable now");
    assert_eq!(rate, 44_100);
    assert_eq!(chosen.channels, 2);
}

#[test]
fn native_rate_wins_over_a_closer_channel_count() {
    // Avoiding the conversion is worth more than avoiding a downmix.
    let configs = [
        range(1, 44_100, 44_100, SampleFormat::F32),
        range(8, 48_000, 48_000, SampleFormat::F32),
    ];
    let (chosen, rate) = choose_config(&configs).unwrap();
    assert_eq!(rate, SAMPLE_RATE);
    assert_eq!(chosen.channels, 8);
}

#[test]
fn the_closest_rate_is_chosen_so_the_conversion_ratio_stays_small() {
    let configs = [
        range(2, 8_000, 8_000, SampleFormat::I16),
        range(2, 44_100, 44_100, SampleFormat::I16),
        range(2, 192_000, 192_000, SampleFormat::I16),
    ];
    assert_eq!(choose_config(&configs).unwrap().1, 44_100);
}

#[test]
fn a_range_spanning_the_native_rate_is_pinned_to_it() {
    let configs = [range(2, 8_000, 192_000, SampleFormat::F32)];
    assert_eq!(choose_config(&configs).unwrap().1, SAMPLE_RATE);
}

#[test]
fn a_range_entirely_above_or_below_is_clamped_to_its_nearest_edge() {
    let above = [range(2, 96_000, 192_000, SampleFormat::F32)];
    assert_eq!(choose_config(&above).unwrap().1, 96_000);

    let below = [range(2, 8_000, 16_000, SampleFormat::F32)];
    assert_eq!(choose_config(&below).unwrap().1, 16_000);
}

#[test]
fn an_equally_distant_pair_prefers_the_higher_rate() {
    // 32 kHz and 64 kHz are both 16 kHz away. Downsampling from 64 keeps
    // the whole voice band; upsampling from 32 cannot put back what the
    // device never captured.
    let configs = [
        range(2, 32_000, 32_000, SampleFormat::F32),
        range(2, 64_000, 64_000, SampleFormat::F32),
    ];
    assert_eq!(choose_config(&configs).unwrap().1, 64_000);
}

#[test]
fn fewer_channels_still_break_a_tie_at_the_same_rate() {
    let configs = [
        range(6, 48_000, 48_000, SampleFormat::F32),
        range(1, 48_000, 48_000, SampleFormat::F32),
    ];
    assert_eq!(choose_config(&configs).unwrap().0.channels, 1);
}

#[test]
fn a_format_we_cannot_read_is_still_refused() {
    // Resampling fixes rates, not sample formats. A device offering only
    // 24-bit packed samples remains genuinely unusable, and the UI should
    // keep saying so.
    let configs = [range(2, 48_000, 48_000, SampleFormat::Other)];
    assert!(choose_config(&configs).is_none());
}

#[test]
fn a_readable_format_is_preferred_over_an_unreadable_one_at_a_better_rate() {
    let configs = [
        range(2, 48_000, 48_000, SampleFormat::Other),
        range(2, 44_100, 44_100, SampleFormat::F32),
    ];
    let (chosen, rate) = choose_config(&configs).unwrap();
    assert_eq!(rate, 44_100);
    assert_eq!(chosen.sample_format, SampleFormat::F32);
}

#[test]
fn a_device_with_nothing_on_offer_is_unusable() {
    assert!(choose_config(&[]).is_none());
}

#[test]
fn only_a_known_non_native_rate_counts_as_resampled() {
    let native = DeviceInfo {
        name: "native".into(),
        kind: DeviceKind::Input,
        is_default: false,
        usable: true,
        sample_rate: Some(SAMPLE_RATE),
    };
    assert!(!native.needs_resampling());

    let converted = DeviceInfo {
        sample_rate: Some(44_100),
        ..native.clone()
    };
    assert!(converted.needs_resampling());

    // Unknown must not be reported as resampled, or every device behind a
    // driver that would not answer gets an annotation nobody can act on.
    let unknown = DeviceInfo {
        sample_rate: None,
        ..native.clone()
    };
    assert!(!unknown.needs_resampling());
}

#[test]
fn asking_for_a_device_that_does_not_exist_is_a_clear_error() {
    let result = select(
        DeviceKind::Input,
        Some("no such microphone, surely"),
        true,
        &names(),
    );
    assert!(matches!(result, Err(DeviceError::NotFound { .. })));
}

#[test]
fn a_listed_device_can_be_reopened_by_name() {
    // Names are the stable handle we persist in settings, so this is the
    // property that matters.
    for info in list(DeviceKind::Output, &None, machine()).unwrap() {
        match select(DeviceKind::Output, Some(&info.name), false, &names()) {
            Ok(Selection::At(i)) => {
                assert_eq!(names().unwrap()[i].as_deref(), Some(info.name.as_str()))
            }
            _ => panic!("{} is not found again", info.name),
        }
    }
}

#[test]
fn a_listed_rate_is_the_rate_the_device_is_actually_opened_at() {
    // The UI shows this number, so it has to be the truth rather than a guess.
    let found = machine().unwrap();
    let listed = list(DeviceKind::Input, &None, machine()).unwrap();
    assert_eq!(listed.len(), 4, "a device without a name is not listed");
    for (info, device) in listed.iter().zip(found) {
        let configs = device.configs.ok_or("busy".to_string());
        match pick_config(&device.name, configs) {
            Ok((_, rate)) => assert_eq!(Some(rate), info.sample_rate),
            Err(DeviceError::UnsupportedFormat { .. }) => assert!(!info.usable),
            Err(DeviceError::Enumeration(_)) => assert!(info.usable && info.sample_rate.is_none()),
            Err(_) => panic!("{} cannot fail so", info.name),
        }
    }
}

#[test]
fn no_name_means_the_system_default() {
    assert!(matches!(
        select(DeviceKind::Input, None, true, &names()),
        Ok(Selection::Default)
    ));
    assert!(matches!(
        select(DeviceKind::Input, None, false, &names()),
        Err(DeviceError::NoDevice(DeviceKind::Input))
    ));
    assert!(matches!(
        select(DeviceKind::Input, Some("x"), false, &Err("no host".into())),
        Err(DeviceError::Enumeration(_))
    ));
    assert!(matches!(
        list(DeviceKind::Input, &None, Err("no host".into())),
        Err(DeviceError::Enumeration(_))
    ));
}

#[test]
fn the_earlier_of_two_equal_configurations_is_chosen() {
    let same = range(2, 48_000, 48_000, SampleFormat::F32);
    assert_eq!(choose_index(&[same, same]), Some(0));
    assert_eq!(choose_index(&[]), None);
}

#[test]
fn device_errors_have_words() {
    assert!(DeviceError::NoDevice(DeviceKind::Input)
        .message()
        .contains(DeviceKind::Input.label()));
    assert!(DeviceError::NotFound {
        kind: DeviceKind::Output,
        name: "Yeti".into()
    }
    .message()
    .contains("Yeti"));
    assert!(DeviceError::UnsupportedFormat { name: "Yeti".into() }
        .message()
        .contains("Yeti"));
    assert!(DeviceError::Enumeration("no host".into())
        .message()
        .contains("no host"));
}

#[test]
fn of_two_devices_with_the_default_name_one_is_the_default() {
    let twin = || FoundDevice {
        name: Some("headset".into()),
        configs: None,
    };
    let listed = list(
        DeviceKind::Output,
        &Some("headset".into()),
        Ok(vec![twin(), twin()]),
    )
    .unwrap();
    assert_eq!(listed.len(), 2);
    assert!(listed[0].is_default);
    assert!(!listed[1].is_default);
}
