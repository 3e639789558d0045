use evdev::{KeyCode, RelativeAxisCode};
use pickle::desktop::mouse_grab::{
    button_code, button_event, capabilities_are_mouse_only, clean_name, conclude, dedupe, identify,
    identify_published, is_mouse_node, outcomes, plan, releases_on_loss, udev_advice, udev_rule,
    GrabOutcome, InputDevice, Reader, MouseDevice, UDEV_RULE_PATH,
};
use pickle::desktop::shortcuts::Action;

#[test]
fn an_active_grab_needs_no_explanation() {
    assert!(GrabOutcome::Active { devices: 1 }.explain().is_none());
    assert!(GrabOutcome::Active { devices: 1 }.is_active());
}

fn a_mouse(vendor: &str, product: &str) -> MouseDevice {
    MouseDevice {
        name: "Test Mouse".into(),
        vendor: vendor.into(),
        product: product.into(),
    }
}

#[test]
fn the_permission_case_names_the_fix() {
    // The whole point of telling this case apart from "no such device".
    let message = GrabOutcome::NoPermission {
        devices: vec![a_mouse("04a5", "800a"), a_mouse("31e3", "1220")],
    }
    .explain()
    .unwrap();
    assert!(message.contains('2'), "says how many: {message}");
    assert!(message.contains("udev"), "points at the fix: {message}");
}

#[test]
fn the_permission_case_does_not_advise_the_input_group() {
    // Joining `input` grants every process this user runs a permanent read
    // on every keyboard on the machine. That advice must not come back.
    let message = GrabOutcome::NoPermission {
        devices: vec![a_mouse("04a5", "800a")],
    }
    .explain()
    .unwrap();
    assert!(!message.contains("usermod"), "{message}");
    assert!(!message.contains("group"), "{message}");
}

#[test]
fn the_rule_grants_one_device_and_never_a_keyboard() {
    let rule = udev_rule(&[a_mouse("04a5", "800a")]);
    assert!(rule.contains(r#"ATTRS{idVendor}=="04a5""#), "{rule}");
    assert!(rule.contains(r#"ATTRS{idProduct}=="800a""#), "{rule}");
    // Without these the rule would also match the keyboard node of a
    // keyboard-and-mouse combo sharing one vendor and product id.
    assert!(rule.contains(r#"ENV{ID_INPUT_MOUSE}=="1""#), "{rule}");
    assert!(rule.contains(r#"ENV{ID_INPUT_KEYBOARD}!="1""#), "{rule}");
    // Session-scoped ACL, not a world-readable node or a new group.
    assert!(rule.contains(r#"TAG+="uaccess""#), "{rule}");
    assert!(!rule.contains("MODE="), "{rule}");
    assert!(!rule.contains("GROUP="), "{rule}");
}

#[test]
fn the_rule_covers_every_device_it_was_given() {
    let rule = udev_rule(&[a_mouse("04a5", "800a"), a_mouse("3434", "d030")]);
    assert_eq!(rule.matches("TAG+=\"uaccess\"").count(), 2, "{rule}");
}

#[test]
fn a_device_name_cannot_smuggle_a_rule_of_its_own() {
    // The name is chosen by whoever made the hardware, and the file it
    // lands in is one the user is about to install as root.
    let hostile = MouseDevice {
        name: "Mouse\nKERNEL==\"event*\", MODE=\"0666\"".into(),
        vendor: "0000".into(),
        product: "0000".into(),
    };
    let rule = udev_rule(std::slice::from_ref(&hostile));
    // The smuggled text may survive as comment prose; what it must not do
    // is reach a line udev will act on.
    for line in rule.lines() {
        if line.is_empty() || line.starts_with('#') {
            continue;
        }
        assert!(
            line.starts_with(r#"SUBSYSTEM=="input", KERNEL=="event*""#)
                && line.ends_with(r#"TAG+="uaccess""#),
            "stray rule line: {line}",
        );
    }
}

#[test]
fn one_mouse_with_several_nodes_is_listed_once() {
    let mut devices = vec![
        a_mouse("04a5", "800a"),
        a_mouse("04a5", "800a"),
        a_mouse("3434", "d030"),
    ];
    dedupe(&mut devices);
    assert_eq!(devices.len(), 2);
}

#[test]
fn every_inactive_outcome_explains_itself() {
    for outcome in [
        GrabOutcome::NoPermission {
            devices: vec![a_mouse("04a5", "800a")],
        },
        GrabOutcome::NoDevice,
        GrabOutcome::Modified,
        GrabOutcome::Unsupported,
    ] {
        assert!(!outcome.is_active());
        let message = outcome.explain().expect("must explain itself");
        assert!(
            message.contains("focused"),
            "must say what still works: {message}",
        );
    }
}

fn accepts(keys: &[KeyCode], axes: &[RelativeAxisCode]) -> bool {
    let keys: Vec<u16> = keys.iter().map(|k| k.0).collect();
    let axes: Vec<u16> = axes.iter().map(|a| a.0).collect();
    capabilities_are_mouse_only(&keys, Some(&axes))
}

/// What every one of the three real mice on the development machine
/// reports: five buttons, relative X and Y, no key codes at all.
const MOUSE_BUTTONS: [KeyCode; 5] = [
    KeyCode::BTN_LEFT,
    KeyCode::BTN_RIGHT,
    KeyCode::BTN_MIDDLE,
    KeyCode::BTN_SIDE,
    KeyCode::BTN_EXTRA,
];
const POINTER_AXES: [RelativeAxisCode; 4] = [
    RelativeAxisCode::REL_X,
    RelativeAxisCode::REL_Y,
    RelativeAxisCode::REL_WHEEL,
    RelativeAxisCode::REL_HWHEEL,
];

#[test]
fn an_ordinary_mouse_is_accepted() {
    assert!(accepts(&MOUSE_BUTTONS, &POINTER_AXES));
}

#[test]
fn a_mouse_with_browser_buttons_is_still_accepted() {
    // Plenty of mice map the side buttons to KEY_BACK and KEY_FORWARD
    // (158 and 159). Those are above the typing block deliberately: a
    // device cannot spell anything with them.
    let mut keys = MOUSE_BUTTONS.to_vec();
    keys.extend([KeyCode::KEY_BACK, KeyCode::KEY_FORWARD]);
    assert!(accepts(&keys, &POINTER_AXES));
}

#[test]
fn a_composite_keyboard_and_pointer_is_rejected() {
    // The case the old BTN_LEFT-only check missed, and the reason the
    // privacy note in the module docs was a stronger claim than the
    // code enforced: a laptop keyboard with a trackpoint, or a combo
    // behind one receiver, reports both on a single node.
    let mut keys = MOUSE_BUTTONS.to_vec();
    keys.extend([KeyCode::KEY_A, KeyCode::KEY_S, KeyCode::KEY_D]);
    assert!(
        !accepts(&keys, &POINTER_AXES),
        "a node that can report KEY_A must never be opened",
    );
}

#[test]
fn every_key_of_the_typing_block_disqualifies_a_device() {
    for code in KeyCode::KEY_1.0..=KeyCode::KEY_SLASH.0 {
        let mut keys = MOUSE_BUTTONS.to_vec();
        keys.push(KeyCode(code));
        assert!(!accepts(&keys, &POINTER_AXES), "key {code} slipped through");
    }
}

#[test]
fn a_plain_keyboard_is_rejected() {
    let keys = [KeyCode::KEY_A, KeyCode::KEY_ENTER, KeyCode::KEY_LEFTSHIFT];
    assert!(!accepts(&keys, &[]));
}

#[test]
fn a_device_that_cannot_move_a_pointer_is_rejected() {
    // A gamepad or a media-key node may claim BTN_LEFT without being
    // anything a person would call a mouse.
    assert!(!accepts(&MOUSE_BUTTONS, &[RelativeAxisCode::REL_WHEEL]));
    assert!(!accepts(&MOUSE_BUTTONS, &[RelativeAxisCode::REL_X]));
    let keys: Vec<u16> = MOUSE_BUTTONS.iter().map(|k| k.0).collect();
    assert!(!capabilities_are_mouse_only(&keys, None));
}

#[test]
fn a_pointer_without_buttons_is_rejected() {
    assert!(!accepts(&[KeyCode::BTN_RIGHT], &POINTER_AXES));
}

#[test]
fn accelerators_map_to_the_expected_buttons() {
    // BTN_SIDE is the rear thumb button. Getting this wrong would bind a
    // different button in a way nobody would think to check.
    assert_eq!(button_code("Mouse4"), Some(KeyCode::BTN_SIDE.0));
    assert_eq!(button_code("Mouse5"), Some(KeyCode::BTN_EXTRA.0));
    assert_eq!(button_code("Mouse3"), Some(KeyCode::BTN_MIDDLE.0));
    assert_eq!(button_code("Mouse2"), Some(KeyCode::BTN_RIGHT.0));
}

#[test]
fn left_click_and_modified_bindings_are_refused() {
    assert_eq!(
        button_code("Mouse1"),
        None,
        "left would key on every click"
    );
    assert_eq!(
        button_code("Shift+Mouse4"),
        None,
        "would require watching a keyboard",
    );
    assert_eq!(button_code("KeyM"), None);
}

fn codes(keys: &[KeyCode]) -> Option<Vec<u16>> {
    Some(keys.iter().map(|k| k.0).collect())
}

fn pointer() -> Option<Vec<u16>> {
    Some(POINTER_AXES.iter().map(|a| a.0).collect())
}

#[test]
fn a_reader_listens_only_on_a_mouse_with_the_button() {
    let mut combo = MOUSE_BUTTONS.to_vec();
    combo.push(KeyCode::KEY_A);
    let devices = [
        InputDevice {
            keys: codes(&combo),
            axes: pointer(),
            identity: a_mouse("0001", "0001"),
        },
        InputDevice {
            keys: codes(&[KeyCode::BTN_LEFT]),
            axes: pointer(),
            identity: a_mouse("0002", "0002"),
        },
        InputDevice {
            keys: codes(&MOUSE_BUTTONS),
            axes: pointer(),
            identity: a_mouse("0003", "0003"),
        },
        InputDevice {
            keys: None,
            axes: pointer(),
            identity: a_mouse("0004", "0004"),
        },
    ];
    let bindings = [("Mouse4".to_string(), Action::PushToTalk)];
    let readers = plan(&bindings, &devices).unwrap();
    assert_eq!(readers.len(), 1);
    assert_eq!(readers[0].device, 2);
    assert_eq!(readers[0].codes, vec![(KeyCode::BTN_SIDE.0, Action::PushToTalk)]);

    assert_eq!(
        conclude(&readers, &[true], &devices, Vec::new()),
        GrabOutcome::Active { devices: 1 }
    );
    assert_eq!(
        conclude(&readers, &[false], &devices, Vec::new()),
        GrabOutcome::NoPermission {
            devices: vec![a_mouse("0003", "0003")]
        }
    );
    assert_eq!(
        conclude(&[], &[], &devices, Vec::new()),
        GrabOutcome::NoDevice
    );
}

#[test]
fn nothing_to_listen_for_is_told_apart() {
    let modified = [("Shift+Mouse4".to_string(), Action::PushToTalk)];
    assert!(matches!(plan(&modified, &[]), Err(GrabOutcome::Modified)));
    let left = [("Mouse1".to_string(), Action::PushToTalk)];
    assert!(matches!(plan(&left, &[]), Err(GrabOutcome::NoDevice)));
}

#[test]
fn a_press_and_a_release_are_told_and_a_repeat_is_not() {
    let bound = [(KeyCode::BTN_SIDE.0, Action::PushToTalk)];
    let side = KeyCode::BTN_SIDE.0;
    assert_eq!(
        button_event(&bound, side, 1),
        Some((Action::PushToTalk, true))
    );
    assert_eq!(
        button_event(&bound, side, 0),
        Some((Action::PushToTalk, false))
    );
    assert_eq!(button_event(&bound, side, 2), None);
    assert_eq!(button_event(&bound, KeyCode::BTN_LEFT.0, 1), None);
    assert!(releases_on_loss(&bound));
    assert!(!releases_on_loss(&[(side, Action::ToggleMute)]));
}

#[test]
fn a_device_is_named_by_four_hex_digits() {
    let named = identify(Some("My\nMouse"), 0x04a5, 0x1);
    assert_eq!(named.vendor, "04a5");
    assert_eq!(named.product, "0001");
    assert_eq!(named.name, clean_name("My\nMouse"));
    assert!(!named.name.contains('\n'));
    assert_eq!(identify(None, 0, 0).name, "unnamed mouse");

    let published = identify_published(Some(" Mouse \n"), Some("04A5\n"), Some("800a")).unwrap();
    assert_eq!(published.name, "Mouse");
    assert_eq!(published.vendor, "04a5");
    assert!(identify_published(Some("Mouse"), Some("\"x"), Some("800a")).is_none());
    assert!(identify_published(Some("Mouse"), None, Some("800a")).is_none());
    assert!(is_mouse_node("usb-Logitech-event-mouse"));
    assert!(!is_mouse_node("usb-Logitech-event-kbd"));
}

#[test]
fn every_control_character_is_cleaned_out_of_a_name() {
    for code in 0..=0x10ffffu32 {
        if let Some(c) = char::from_u32(code) {
            if c.is_control() {
                assert!(!clean_name(&c.to_string()).contains(c), "{code:x}");
            }
        }
    }
    assert_eq!(clean_name("MX Master 3S (Bluetooth)"), "MX Master 3S (Bluetooth)");
}

#[test]
fn advice_is_given_only_where_something_is_unreadable() {
    assert!(udev_advice(Vec::new()).is_none());
    let advice = udev_advice(vec![a_mouse("04a5", "800a"), a_mouse("04a5", "800a")]).unwrap();
    assert_eq!(advice.path, UDEV_RULE_PATH);
    assert_eq!(advice.devices.len(), 1);
    assert_eq!(advice.rule, udev_rule(&advice.devices));
}

#[test]
fn each_binding_is_told_what_the_grab_means_for_it() {
    let bindings = [
        ("Mouse4".to_string(), Action::PushToTalk),
        ("Mouse5".to_string(), Action::ToggleMute),
        ("Shift+Mouse4".to_string(), Action::ToggleDeafen),
        ("Mouse1".to_string(), Action::ToggleDeafen),
    ];
    let device = |product: &str| InputDevice {
        keys: None,
        axes: None,
        identity: a_mouse("0003", product),
    };
    let devices = [device("0001"), device("0002")];
    let side = button_code("Mouse4").unwrap();
    let extra = button_code("Mouse5").unwrap();
    let readers = [
        Reader {
            device: 0,
            codes: vec![(side, Action::PushToTalk)],
        },
        Reader {
            device: 1,
            codes: vec![(extra, Action::ToggleMute)],
        },
    ];
    let active = |devices: usize| GrabOutcome::Active { devices };

    // Everything that can be read is read.
    assert_eq!(
        outcomes(&bindings, &readers, &[true, true], &devices, &[], &active(2)),
        [active(2), active(2), GrabOutcome::Modified, GrabOutcome::NoDevice]
    );
    // A device that was found and could not be read is named.
    assert_eq!(
        outcomes(&bindings, &readers, &[true, false], &devices, &[], &active(1)),
        [
            active(1),
            GrabOutcome::NoPermission {
                devices: vec![a_mouse("0003", "0002")]
            },
            GrabOutcome::Modified,
            GrabOutcome::NoDevice
        ]
    );
    // Without one, no device reports the button; a mouse that could not even be
    // opened may.
    assert_eq!(
        outcomes(&bindings, &readers[..1], &[true], &devices, &[], &active(1))[1],
        GrabOutcome::NoDevice
    );
    assert_eq!(
        outcomes(
            &bindings,
            &readers[..1],
            &[true],
            &devices,
            &[a_mouse("0003", "0009")],
            &active(1)
        )[1],
        GrabOutcome::NoPermission {
            devices: vec![a_mouse("0003", "0009")]
        }
    );
    // Where nothing is read, the one reason holds for every plain button.
    let kept_back = GrabOutcome::NoPermission {
        devices: vec![a_mouse("0003", "0001"), a_mouse("0003", "0002")],
    };
    let told = outcomes(&bindings, &readers, &[false, false], &devices, &[], &kept_back);
    assert_eq!(told[0], kept_back);
    assert_eq!(told[1], kept_back);
    assert_eq!(told[2], GrabOutcome::Modified);
    assert_eq!(
        outcomes(&bindings[2..3], &[], &[], &[], &[], &GrabOutcome::Unsupported),
        [GrabOutcome::Unsupported]
    );
}
