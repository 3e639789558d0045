use pickle::desktop::mouse_grab::GrabOutcome;
use pickle::desktop::settings::Keybinds;
use pickle::desktop::shortcuts::{
    classify, device_note, dispatch, is_mouse, key_status, mouse_status, plan, report, types_a_character,
    wayland_note, Action, Dispatch, KeyGrab, Reach, WindowSystem,
};

#[test]
fn the_session_type_is_believed_when_it_is_stated() {
    assert_eq!(
        classify(Some("wayland"), None, Some(":0")),
        WindowSystem::Wayland,
        "XWayland sets DISPLAY too, so it must not outvote a stated session",
    );
    assert_eq!(classify(Some("x11"), None, Some(":0")), WindowSystem::X11);
    assert_eq!(
        classify(Some(" wayland "), None, None),
        WindowSystem::Wayland,
        "some display managers pad the value",
    );
}

#[test]
fn a_missing_session_type_falls_back_to_the_display_sockets() {
    assert_eq!(
        classify(None, Some("wayland-0"), Some(":0")),
        WindowSystem::Wayland,
        "a Wayland socket beats DISPLAY, which XWayland also sets",
    );
    assert_eq!(classify(None, None, Some(":0")), WindowSystem::X11);
    assert_eq!(classify(None, None, None), WindowSystem::Other);
    assert_eq!(
        classify(Some("tty"), Some(""), Some("")),
        WindowSystem::Other,
        "empty is not set",
    );
}

#[test]
fn a_wayland_grab_is_reported_as_shared_rather_than_exclusive() {
    // The whole point of `Reach`: under Wayland the key is delivered to the
    // focused window as well, so claiming exclusivity would be a lie.
    assert_eq!(WindowSystem::Wayland.reach(), Reach::Shared);
    assert_eq!(WindowSystem::X11.reach(), Reach::Exclusive);
    assert_eq!(WindowSystem::Other.reach(), Reach::Exclusive);
}

#[test]
fn every_reach_but_focused_works_while_another_window_is_in_front() {
    assert!(Reach::Exclusive.is_global());
    assert!(Reach::Shared.is_global());
    assert!(Reach::Device.is_global());
    assert!(!Reach::Focused.is_global());
}

#[test]
fn the_wayland_note_names_the_key_and_both_halves_of_the_caveat() {
    let note = wayland_note("Control+Shift+KeyV");
    assert!(note.contains("Control+Shift+KeyV"), "names the binding");
    // Registering is not the same as being delivered, and being delivered
    // is not the same as being taken away from the focused window. A note
    // that dropped either half would mislead.
    assert!(note.contains("in front"), "says it does reach Pickle");
    assert!(
        note.contains("as well"),
        "says the focused window gets it too"
    );
    assert!(note.contains("focused"), "says what still works regardless");
}

#[test]
fn only_a_key_that_types_is_warned_about_typing() {
    assert!(
        wayland_note("KeyV").contains("characters into whatever"),
        "a bare letter would scatter itself through the focused window",
    );
    assert!(
        !wayland_note("Control+KeyV").contains("characters into whatever"),
        "a modified key types nothing, so the warning would be noise",
    );
    assert!(!wayland_note("F13").contains("characters into whatever"));
}

#[test]
fn keys_that_put_a_character_on_screen_are_told_from_keys_that_do_not() {
    for typing in [
        "KeyA", "Digit1", "Numpad0", "Space", "Enter", "Comma", "Slash",
    ] {
        assert!(types_a_character(typing), "{typing} types something");
    }
    for silent in [
        "F8", "F13", "ArrowUp", "Escape", "Home", "Delete", "PageUp", "Insert",
    ] {
        assert!(!types_a_character(silent), "{silent} types nothing");
    }
    // A modifier is what stops the focused window turning the key into
    // text, so it is the presence of one that decides this, not the key.
    assert!(!types_a_character("Control+KeyA"));
    assert!(!types_a_character("Alt+Space"));
}

#[test]
fn mouse_bindings_are_told_apart_from_keys() {
    assert!(is_mouse("Mouse4"));
    assert!(
        is_mouse("Shift+Mouse4"),
        "a modified mouse binding still counts"
    );
    assert!(!is_mouse("KeyM"));
    assert!(!is_mouse("Control+Shift+KeyM"));
    assert!(!is_mouse(""));
    // The key whose name merely starts the same way must not be caught.
    assert!(!is_mouse("Control+MouseKeyIsNotAThing+KeyM"));
}

fn keybinds() -> Keybinds {
    Keybinds {
        push_to_talk: Some("Mouse4".into()),
        toggle_mute: Some("F8".into()),
        toggle_deafen: Some(String::new()),
    }
}

#[test]
fn each_binding_goes_to_the_layer_that_can_hear_it() {
    let plan = plan(&keybinds());
    assert_eq!(plan.keys.len(), 1, "an empty binding is none");
    assert_eq!(plan.keys[0].0, "F8");
    assert_eq!(plan.keys[0].1, Action::ToggleMute);
    assert_eq!(plan.mice.len(), 1);
    assert_eq!(plan.mice[0].1, Action::PushToTalk);
}

#[test]
fn a_binding_claims_no_more_than_it_has() {
    let key: String = "F8".into();
    let granted = key_status(&key, Action::ToggleMute, WindowSystem::X11, &KeyGrab::Registered);
    assert_eq!(granted.reach, Reach::Exclusive);
    assert_eq!(granted.note, None);
    let shared = key_status(&key, Action::ToggleMute, WindowSystem::Wayland, &KeyGrab::Registered);
    assert_eq!(shared.reach, Reach::Shared);
    assert_eq!(shared.note, Some(wayland_note("F8")));
    let refused = key_status(
        &key,
        Action::ToggleMute,
        WindowSystem::X11,
        &KeyGrab::Refused("taken".into()),
    );
    assert_eq!(refused.reach, Reach::Focused);
    assert!(refused.note.unwrap().contains("taken"));
    let nonsense = key_status(
        &key,
        Action::ToggleMute,
        WindowSystem::X11,
        &KeyGrab::NotUnderstood("no such key".into()),
    );
    assert_eq!(nonsense.reach, Reach::Focused);
    assert!(nonsense.note.is_some());

    let button: String = "Mouse4".into();
    let read = mouse_status(
        &button,
        Action::PushToTalk,
        &GrabOutcome::Active { devices: 1 },
    );
    assert_eq!(read.reach, Reach::Device);
    assert_eq!(read.note, Some(device_note("Mouse4")));
    let unread = mouse_status(&button, Action::PushToTalk, &GrabOutcome::NoDevice);
    assert_eq!(unread.reach, Reach::Focused);
    assert!(unread.note.is_some());
}

#[test]
fn the_report_covers_keys_then_buttons() {
    let plan = plan(&keybinds());
    let report = report(
        &plan,
        WindowSystem::X11,
        &[KeyGrab::Registered],
        &[GrabOutcome::Active { devices: 1 }],
    );
    assert_eq!(report.len(), 2);
    assert_eq!(report[0].accelerator, "F8");
    assert_eq!(report[0].action, Action::ToggleMute.label());
    assert_eq!(report[1].accelerator, "Mouse4");
    assert_eq!(report[1].reach, Reach::Device);
}

#[test]
fn a_toggle_acts_on_the_press_alone() {
    assert_eq!(dispatch(Action::PushToTalk, true), Dispatch::Hold(true));
    assert_eq!(dispatch(Action::PushToTalk, false), Dispatch::Hold(false));
    assert_eq!(dispatch(Action::ToggleMute, true), Dispatch::ToggleMute);
    assert_eq!(dispatch(Action::ToggleMute, false), Dispatch::Nothing);
    assert_eq!(dispatch(Action::ToggleDeafen, true), Dispatch::ToggleDeafen);
    assert_eq!(dispatch(Action::ToggleDeafen, false), Dispatch::Nothing);
}

#[test]
fn each_button_is_reported_by_its_own_outcome() {
    let plan = plan(&Keybinds {
        push_to_talk: Some("Mouse4".into()),
        toggle_mute: Some("Shift+Mouse5".into()),
        toggle_deafen: Some("Mouse5".into()),
    });
    let report = report(
        &plan,
        WindowSystem::Wayland,
        &[],
        &[
            GrabOutcome::Active { devices: 1 },
            GrabOutcome::Modified,
            GrabOutcome::NoDevice,
        ],
    );
    assert_eq!(report[0].reach, Reach::Device);
    assert_eq!(report[1].reach, Reach::Focused);
    assert_eq!(report[1].note, GrabOutcome::Modified.explain());
    assert_eq!(report[2].reach, Reach::Focused);
    assert_eq!(report[2].note, GrabOutcome::NoDevice.explain());
}
