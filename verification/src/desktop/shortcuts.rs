//! Global keyboard shortcuts: what a binding reaches, and what is said of it.
//!
//! Push-to-talk is the reason: the point is to talk while something else is in
//! front. The grab is not guaranteed, and "did it register" is the wrong
//! question. Under X11 a grab is exclusive. Under Wayland it goes through
//! XWayland: the key arrives, but the focused window gets it too, and a
//! compositor may not forward it at all. That spread is why [`Reach`] exists
//! rather than a flag.
//!
//! Mouse buttons are outside the shortcut layer. They are told apart here and
//! handed to [`crate::desktop::mouse_grab`].

use crate::desktop::mouse_grab;
use crate::desktop::mouse_grab::GrabOutcome;
use crate::desktop::settings::Keybinds;
use crate::text;
use vstd::prelude::*;

verus! {

/// Channel on which the window hears of voice state that it did not change.
pub const VOICE_STATE_EVENT: &'static str = "pickle:voice-state";

#[derive(Debug, Clone, Copy, PartialEq, Eq, Structural)]
pub enum Action {
    PushToTalk,
    ToggleMute,
    ToggleDeafen,
}

/// The word for an action.
pub open spec fn action_word(action: Action) -> Seq<char> {
    match action {
        Action::PushToTalk => "pushToTalk"@,
        Action::ToggleMute => "toggleMute"@,
        Action::ToggleDeafen => "toggleDeafen"@,
    }
}

impl Action {
    pub fn label(self) -> (s: &'static str)
        ensures
            s@ == action_word(self),
    {
        match self {
            Action::PushToTalk => "pushToTalk",
            Action::ToggleMute => "toggleMute",
            Action::ToggleDeafen => "toggleDeafen",
        }
    }
}

/// How far a binding reaches.
#[derive(Debug, Clone, Copy, PartialEq, Eq, Structural)]
pub enum Reach {
    /// Taken away from everything else.
    Exclusive,
    /// Delivered while another window is in front, and to that window too.
    Shared,
    /// Read from the input device, below the window system.
    Device,
    /// Only while this app has focus.
    Focused,
}

impl Reach {
    /// Whether the binding does anything while another window is in front.
    pub fn is_global(self) -> (r: bool)
        ensures
            r == (self != Reach::Focused),
    {
        match self {
            Reach::Focused => false,
            _ => true,
        }
    }
}

/// What a binding does, per action.
#[derive(Debug)]
pub struct BindingStatus {
    pub action: String,
    pub accelerator: String,
    pub reach: Reach,
    /// What the user needs to know about this reach; `None` only when the binding
    /// is exclusive, which needs no explanation.
    pub note: Option<String>,
}

/// The window system in play, which decides what a grab can promise.
#[derive(Debug, Clone, Copy, PartialEq, Eq, Structural)]
pub enum WindowSystem {
    /// A grab is exclusive.
    X11,
    /// A grab goes through XWayland and is the compositor's to honour.
    Wayland,
    /// Every other platform, where a grab is native and exclusive.
    Other,
}

/// What a successful keyboard grab reaches.
pub open spec fn grab_reach(system: WindowSystem) -> Reach {
    match system {
        WindowSystem::Wayland => Reach::Shared,
        WindowSystem::X11 => Reach::Exclusive,
        WindowSystem::Other => Reach::Exclusive,
    }
}

impl WindowSystem {
    /// What a successful keyboard grab reaches under this window system.
    pub fn reach(self) -> (r: Reach)
        ensures
            r == grab_reach(self),
    {
        match self {
            WindowSystem::Wayland => Reach::Shared,
            WindowSystem::X11 => Reach::Exclusive,
            WindowSystem::Other => Reach::Exclusive,
        }
    }
}

/// Whether a variable holds anything.
pub open spec fn is_set(value: Option<Seq<char>>) -> bool {
    value is Some && value->0.len() > 0
}

/// The window system that a session's environment tells of. The stated type is
/// believed; without one a Wayland socket counts before `DISPLAY`, which
/// XWayland sets too.
pub open spec fn session_kind(
    session_type: Option<Seq<char>>,
    wayland_display: Option<Seq<char>>,
    display: Option<Seq<char>>,
) -> WindowSystem {
    if session_type is Some && text::trimmed(session_type->0) == "wayland"@ {
        WindowSystem::Wayland
    } else if session_type is Some && text::trimmed(session_type->0) == "x11"@ {
        WindowSystem::X11
    } else if is_set(wayland_display) {
        WindowSystem::Wayland
    } else if is_set(display) {
        WindowSystem::X11
    } else {
        WindowSystem::Other
    }
}

/// The characters of an optional text.
pub open spec fn view_of(s: Option<&str>) -> Option<Seq<char>> {
    match s {
        Some(t) => Some(t@),
        None => None,
    }
}

fn non_empty(value: Option<&str>) -> (r: bool)
    ensures
        r == is_set(view_of(value)),
{
    match value {
        Some(t) => text::chars_of(t).len() > 0,
        None => false,
    }
}

/// Classify the session from the environment that it advertises.
pub fn classify(
    session_type: Option<&str>,
    wayland_display: Option<&str>,
    display: Option<&str>,
) -> (r: WindowSystem)
    ensures
        r == session_kind(view_of(session_type), view_of(wayland_display), view_of(display)),
{
    if let Some(stated) = session_type {
        let stated = text::trim(stated);
        if text::same(stated.as_str(), "wayland") {
            return WindowSystem::Wayland;
        }
        if text::same(stated.as_str(), "x11") {
            return WindowSystem::X11;
        }
    }
    if non_empty(wayland_display) {
        WindowSystem::Wayland
    } else if non_empty(display) {
        WindowSystem::X11
    } else {
        WindowSystem::Other
    }
}

/// Keys that type, apart from letters, digits and the number pad.
pub open spec fn is_typing_name(key: Seq<char>) -> bool {
    key == "Space"@ || key == "Enter"@ || key == "Tab"@ || key == "Minus"@ || key == "Equal"@ || key
        == "Comma"@ || key == "Period"@ || key == "Slash"@ || key == "Semicolon"@ || key
        == "Quote"@ || key == "Backquote"@ || key == "Backslash"@ || key == "BracketLeft"@ || key
        == "BracketRight"@
}

/// Whether an accelerator puts a character on the screen if the focused window
/// gets it too. Only bare keys do.
pub open spec fn types(accelerator: Seq<char>) -> bool {
    !accelerator.contains('+') && (text::begins_with(accelerator, "Key"@) || text::begins_with(
        accelerator,
        "Digit"@,
    ) || text::begins_with(accelerator, "Numpad"@) || is_typing_name(accelerator))
}

pub fn types_a_character(accelerator: &str) -> (r: bool)
    ensures
        r == types(accelerator@),
{
    if text::contains_char(accelerator, '+') {
        return false;
    }
    text::starts_with(accelerator, "Key") || text::starts_with(accelerator, "Digit")
        || text::starts_with(accelerator, "Numpad") || text::same(accelerator, "Space")
        || text::same(accelerator, "Enter") || text::same(accelerator, "Tab") || text::same(
        accelerator,
        "Minus",
    ) || text::same(accelerator, "Equal") || text::same(accelerator, "Comma") || text::same(
        accelerator,
        "Period",
    ) || text::same(accelerator, "Slash") || text::same(accelerator, "Semicolon") || text::same(
        accelerator,
        "Quote",
    ) || text::same(accelerator, "Backquote") || text::same(accelerator, "Backslash")
        || text::same(accelerator, "BracketLeft") || text::same(accelerator, "BracketRight")
}

/// The caveat of a grab made under Wayland: the key arrives, but the window in
/// front gets it too; for a key that types, what that does; and when it does
/// nothing at all.
pub open spec fn wayland_caveat(accelerator: Seq<char>) -> Seq<char> {
    accelerator
        + " was claimed through XWayland, which is the only global keyboard grab Wayland offers an ordinary application. It reaches Pickle while another window is in front, but Wayland still delivers it to that window as well."@
        + (if types(accelerator) {
        " Because it is a key that types, holding it will also put characters into whatever you are looking at — a function key, or a combination with Control or Alt, would not."@
    } else {
        Seq::empty()
    })
        + " Not every compositor forwards to XWayland; if it does nothing while another window is in front, that is why, and it still works while Pickle is focused."@
}

pub fn wayland_note(accelerator: &str) -> (s: String)
    ensures
        s@ == wayland_caveat(accelerator@),
{
    let mut s: String = text::join(
        accelerator,
        " was claimed through XWayland, which is the only global keyboard grab Wayland offers an ordinary application. It reaches Pickle while another window is in front, but Wayland still delivers it to that window as well.",
    );
    if types_a_character(accelerator) {
        s.append(
            " Because it is a key that types, holding it will also put characters into whatever you are looking at — a function key, or a combination with Control or Alt, would not.",
        );
    } else {
        assert(s@ + Seq::<char>::empty() =~= s@);
    }
    s.append(
        " Not every compositor forwards to XWayland; if it does nothing while another window is in front, that is why, and it still works while Pickle is focused.",
    );
    s
}

/// Whether an accelerator names a mouse button: by its last token, so that a
/// modified binding is recognised too.
pub open spec fn names_mouse(accelerator: Seq<char>) -> bool {
    text::begins_with(text::trimmed(text::after_last(accelerator, '+')), "Mouse"@)
}

pub fn is_mouse(accelerator: &str) -> (r: bool)
    ensures
        r == names_mouse(accelerator@),
{
    let token = text::tail_after(accelerator, '+');
    let token = text::trim(token.as_str());
    text::starts_with(token.as_str(), "Mouse")
}

/// What came of asking the shortcut layer for a key.
#[derive(Debug)]
pub enum KeyGrab {
    /// Not a key that it understands; carries why.
    NotUnderstood(String),
    Registered,
    /// Refused; carries why.
    Refused(String),
}

/// What is bound, taken apart.
#[derive(Debug)]
pub struct BindingPlan {
    /// Handed to the shortcut layer.
    pub keys: Vec<(String, Action)>,
    /// Handed to the reader of input devices.
    pub mice: Vec<(String, Action)>,
}

/// The accelerators as they were set, each with its action.
pub open spec fn wanted(keybinds: Keybinds) -> Seq<(Option<String>, Action)> {
    seq![
        (keybinds.push_to_talk, Action::PushToTalk),
        (keybinds.toggle_mute, Action::ToggleMute),
        (keybinds.toggle_deafen, Action::ToggleDeafen),
    ]
}

/// The bindings that are set and are, or are not, of the mouse.
pub open spec fn bound(all: Seq<(Option<String>, Action)>, mouse: bool) -> Seq<(String, Action)>
    decreases all.len(),
{
    if all.len() == 0 {
        Seq::empty()
    } else {
        let before = bound(all.drop_last(), mouse);
        match all.last().0 {
            Some(accelerator) if text::trimmed(accelerator@).len() > 0 && names_mouse(
                accelerator@,
            ) == mouse => before.push((accelerator, all.last().1)),
            _ => before,
        }
    }
}

fn take_one(plan: &mut BindingPlan, accelerator: &Option<String>, action: Action)
    ensures
        ({
            let one = seq![(*accelerator, action)];
            &&& final(plan).keys@ == old(plan).keys@ + bound(one, false)
            &&& final(plan).mice@ == old(plan).mice@ + bound(one, true)
        }),
{
    proof {
        let one = seq![(*accelerator, action)];
        assert(one.drop_last() =~= Seq::empty());
        reveal_with_fuel(bound, 2);
    }
    if let Some(a) = accelerator {
        let trimmed = text::trim(a.as_str());
        if text::chars_of(trimmed.as_str()).len() > 0 {
            // Handing the shortcut layer a mouse button would produce a
            // complaint that reads like a fault rather than a limit.
            if is_mouse(a.as_str()) {
                plan.mice.push((a.clone(), action));
            } else {
                plan.keys.push((a.clone(), action));
            }
        }
    }
    assert(plan.keys@ =~= old(plan).keys@ + bound(seq![(*accelerator, action)], false));
    assert(plan.mice@ =~= old(plan).mice@ + bound(seq![(*accelerator, action)], true));
}

proof fn lemma_bound_splits(a: Seq<(Option<String>, Action)>, last: (Option<String>, Action), mouse: bool)
    ensures
        bound(a.push(last), mouse) == bound(a, mouse) + bound(seq![last], mouse),
{
    assert(a.push(last).drop_last() =~= a);
    assert(seq![last].drop_last() =~= Seq::empty());
    reveal_with_fuel(bound, 2);
    assert(bound(a.push(last), mouse) =~= bound(a, mouse) + bound(seq![last], mouse));
}

/// Take the settings apart: what is unset is left out, and mouse buttons are
/// told from keys.
pub fn plan(keybinds: &Keybinds) -> (p: BindingPlan)
    ensures
        p.keys@ == bound(wanted(*keybinds), false),
        p.mice@ == bound(wanted(*keybinds), true),
{
    let mut p = BindingPlan { keys: Vec::new(), mice: Vec::new() };
    let ghost none = Seq::<(Option<String>, Action)>::empty();
    let ghost one = none.push((keybinds.push_to_talk, Action::PushToTalk));
    let ghost two = one.push((keybinds.toggle_mute, Action::ToggleMute));
    take_one(&mut p, &keybinds.push_to_talk, Action::PushToTalk);
    take_one(&mut p, &keybinds.toggle_mute, Action::ToggleMute);
    take_one(&mut p, &keybinds.toggle_deafen, Action::ToggleDeafen);
    proof {
        lemma_bound_splits(none, (keybinds.push_to_talk, Action::PushToTalk), false);
        lemma_bound_splits(none, (keybinds.push_to_talk, Action::PushToTalk), true);
        lemma_bound_splits(one, (keybinds.toggle_mute, Action::ToggleMute), false);
        lemma_bound_splits(one, (keybinds.toggle_mute, Action::ToggleMute), true);
        lemma_bound_splits(two, (keybinds.toggle_deafen, Action::ToggleDeafen), false);
        lemma_bound_splits(two, (keybinds.toggle_deafen, Action::ToggleDeafen), true);
        assert(wanted(*keybinds) =~= two.push((keybinds.toggle_deafen, Action::ToggleDeafen)));
    }
    p
}

/// What is reported of a key.
pub open spec fn tells_of_key(
    s: BindingStatus,
    binding: (String, Action),
    system: WindowSystem,
    grab: KeyGrab,
) -> bool {
    &&& s.action@ == action_word(binding.1)
    &&& s.accelerator@ == binding.0@
    &&& s.reach == if grab is Registered {
        grab_reach(system)
    } else {
        Reach::Focused
    }
    &&& match grab {
        KeyGrab::NotUnderstood(why) => s.note matches Some(n) && n@ == binding.0@
            + " is not a key this system understands: "@ + why@
            + ". It works while Pickle is focused."@,
        KeyGrab::Registered => if grab_reach(system) == Reach::Shared {
            s.note matches Some(n) && n@ == wayland_caveat(binding.0@)
        } else {
            s.note is None
        },
        KeyGrab::Refused(why) => s.note matches Some(n) && n@ == why@
            + ". It works while Pickle is focused."@,
    }
}

/// The caveat that comes with a button read from its device: the reading is
/// passive, so the window in front gets the button too.
pub open spec fn device_caveat(accelerator: Seq<char>) -> Seq<char> {
    accelerator
        + " is read from the mouse itself, below the window system. It reaches Pickle while another window is in front, and that window still gets the button as well."@
}

pub fn device_note(accelerator: &str) -> (s: String)
    ensures
        s@ == device_caveat(accelerator@),
{
    text::join(
        accelerator,
        " is read from the mouse itself, below the window system. It reaches Pickle while another window is in front, and that window still gets the button as well.",
    )
}

/// What is reported of a mouse button, given what the grab means for it.
pub open spec fn tells_of_mouse(
    s: BindingStatus,
    binding: (String, Action),
    outcome: GrabOutcome,
) -> bool {
    &&& s.action@ == action_word(binding.1)
    &&& s.accelerator@ == binding.0@
    &&& s.reach == if outcome is Active {
        Reach::Device
    } else {
        Reach::Focused
    }
    &&& s.note matches Some(n) && n@ == match mouse_grab::explanation(outcome) {
        Some(why) => why,
        None => device_caveat(binding.0@),
    }
}

pub fn key_status(accelerator: &String, action: Action, system: WindowSystem, grab: &KeyGrab) -> (s:
    BindingStatus)
    ensures
        tells_of_key(s, (*accelerator, action), system, *grab),
{
    let (reach, note) = match grab {
        KeyGrab::NotUnderstood(why) => {
            let mut n: String = text::join(
                accelerator.as_str(),
                " is not a key this system understands: ",
            );
            n.append(why.as_str());
            n.append(". It works while Pickle is focused.");
            (Reach::Focused, Some(n))
        },
        KeyGrab::Registered => {
            let reach = system.reach();
            let note = match reach {
                Reach::Shared => Some(wayland_note(accelerator.as_str())),
                _ => None,
            };
            (reach, note)
        },
        KeyGrab::Refused(why) => (
            Reach::Focused,
            Some(text::join(why.as_str(), ". It works while Pickle is focused.")),
        ),
    };
    BindingStatus {
        action: String::from_str(action.label()),
        accelerator: accelerator.clone(),
        reach,
        note,
    }
}

pub fn mouse_status(accelerator: &String, action: Action, outcome: &GrabOutcome) -> (s:
    BindingStatus)
    ensures
        tells_of_mouse(s, (*accelerator, action), *outcome),
{
    BindingStatus {
        action: String::from_str(action.label()),
        accelerator: accelerator.clone(),
        reach: if outcome.is_active() {
            Reach::Device
        } else {
            Reach::Focused
        },
        note: match outcome.explain() {
            Some(why) => Some(why),
            None => Some(device_note(accelerator.as_str())),
        },
    }
}

/// Report every binding: the keys first, each with what came of its grab, then
/// the mouse buttons, each with what the grab means for it.
pub fn report(
    plan: &BindingPlan,
    system: WindowSystem,
    grabs: &[KeyGrab],
    outcomes: &[GrabOutcome],
) -> (r: Vec<BindingStatus>)
    requires
        grabs@.len() == plan.keys@.len(),
        outcomes@.len() == plan.mice@.len(),
    ensures
        r@.len() == plan.keys@.len() + plan.mice@.len(),
        forall|i: int|
            0 <= i < plan.keys@.len() ==> tells_of_key(
                #[trigger] r@[i],
                plan.keys@[i],
                system,
                grabs@[i],
            ),
        forall|i: int|
            plan.keys@.len() <= i < r@.len() ==> tells_of_mouse(
                #[trigger] r@[i],
                plan.mice@[i - plan.keys@.len()],
                outcomes@[i - plan.keys@.len()],
            ),
{
    let mut r: Vec<BindingStatus> = Vec::new();
    let mut i: usize = 0;
    while i < plan.keys.len()
        invariant
            i <= plan.keys@.len() == grabs@.len(),
            r@.len() == i,
            forall|k: int|
                0 <= k < i ==> tells_of_key(#[trigger] r@[k], plan.keys@[k], system, grabs@[k]),
        decreases plan.keys.len() - i,
    {
        let s = key_status(&plan.keys[i].0, plan.keys[i].1, system, &grabs[i]);
        r.push(s);
        i = i + 1;
    }
    let mut j: usize = 0;
    while j < plan.mice.len()
        invariant
            j <= plan.mice@.len() == outcomes@.len(),
            plan.keys@.len() == grabs@.len(),
            r@.len() == plan.keys@.len() + j,
            forall|k: int|
                0 <= k < plan.keys@.len() ==> tells_of_key(
                    #[trigger] r@[k],
                    plan.keys@[k],
                    system,
                    grabs@[k],
                ),
            forall|k: int|
                plan.keys@.len() <= k < r@.len() ==> tells_of_mouse(
                    #[trigger] r@[k],
                    plan.mice@[k - plan.keys@.len()],
                    outcomes@[k - plan.keys@.len()],
                ),
        decreases plan.mice.len() - j,
    {
        let s = mouse_status(&plan.mice[j].0, plan.mice[j].1, &outcomes[j]);
        r.push(s);
        j = j + 1;
    }
    r
}

/// What a press or a release sets off.
#[derive(Debug, Clone, Copy, PartialEq, Eq, Structural)]
pub enum Dispatch {
    /// Push-to-talk is held, or no longer.
    Hold(bool),
    ToggleMute,
    ToggleDeafen,
    Nothing,
}

/// What an action does. Toggles fire on press only: acting on release too would
/// undo them.
pub fn dispatch(action: Action, pressed: bool) -> (d: Dispatch)
    ensures
        d == match action {
            Action::PushToTalk => Dispatch::Hold(pressed),
            Action::ToggleMute => if pressed {
                Dispatch::ToggleMute
            } else {
                Dispatch::Nothing
            },
            Action::ToggleDeafen => if pressed {
                Dispatch::ToggleDeafen
            } else {
                Dispatch::Nothing
            },
        },
{
    match action {
        Action::PushToTalk => Dispatch::Hold(pressed),
        Action::ToggleMute => if pressed {
            Dispatch::ToggleMute
        } else {
            Dispatch::Nothing
        },
        Action::ToggleDeafen => if pressed {
            Dispatch::ToggleDeafen
        } else {
            Dispatch::Nothing
        },
    }
}

/// A key is never said to be exclusive under Wayland, and every key that is not
/// exclusive comes with a word about it.
pub proof fn law_no_binding_claims_more_than_it_has(
    s: BindingStatus,
    binding: (String, Action),
    system: WindowSystem,
    grab: KeyGrab,
)
    requires
        tells_of_key(s, binding, system, grab),
    ensures
        s.reach == Reach::Exclusive <==> grab is Registered && system != WindowSystem::Wayland,
        s.note is None <==> s.reach == Reach::Exclusive,
        s.reach != Reach::Device,
{
}

/// A mouse button is said to work elsewhere exactly while it is read. It is never
/// exclusive, so there is always a word about it: why it is not read, or that
/// the window in front gets it too.
pub proof fn law_a_mouse_binding_is_explained(
    s: BindingStatus,
    binding: (String, Action),
    outcome: GrabOutcome,
)
    requires
        tells_of_mouse(s, binding, outcome),
    ensures
        s.reach == Reach::Device <==> outcome is Active,
        s.reach != Reach::Exclusive,
        s.note is Some,
{
}

/// In a report a binding has no note exactly when it is exclusive.
pub proof fn law_only_an_exclusive_binding_needs_no_note(
    r: Seq<BindingStatus>,
    plan: BindingPlan,
    system: WindowSystem,
    grabs: Seq<KeyGrab>,
    outcomes: Seq<GrabOutcome>,
    i: int,
)
    requires
        r.len() == plan.keys@.len() + plan.mice@.len(),
        forall|k: int|
            0 <= k < plan.keys@.len() ==> tells_of_key(
                #[trigger] r[k],
                plan.keys@[k],
                system,
                grabs[k],
            ),
        forall|k: int|
            plan.keys@.len() <= k < r.len() ==> tells_of_mouse(
                #[trigger] r[k],
                plan.mice@[k - plan.keys@.len()],
                outcomes[k - plan.keys@.len()],
            ),
        0 <= i < r.len(),
    ensures
        r[i].note is None <==> r[i].reach == Reach::Exclusive,
{
    if i < plan.keys@.len() {
        law_no_binding_claims_more_than_it_has(r[i], plan.keys@[i], system, grabs[i]);
    }
}

/// Every binding that is set goes one way, to the shortcut layer or to the
/// reader of devices.
pub proof fn law_each_binding_goes_one_way(all: Seq<(Option<String>, Action)>)
    ensures
        bound(all, false).len() + bound(all, true).len() <= all.len(),
        (forall|i: int|
            0 <= i < all.len() ==> (#[trigger] all[i]).0 is Some && text::trimmed(
                (all[i].0->0)@,
            ).len() > 0) ==> bound(all, false).len() + bound(all, true).len() == all.len(),
    decreases all.len(),
{
    if all.len() > 0 {
        let rest = all.drop_last();
        law_each_binding_goes_one_way(rest);
        assert(all.last() == all[all.len() - 1]);
        assert forall|i: int| 0 <= i < rest.len() implies rest[i] == all[i] by {}
    }
}


/// A stated session type is believed whatever else is set; otherwise a Wayland
/// socket counts before a display, and nothing at all is another platform.
pub proof fn law_a_stated_session_is_believed(
    stated: Option<Seq<char>>,
    socket: Option<Seq<char>>,
    display: Option<Seq<char>>,
)
    ensures
        ({
            let kind = session_kind(stated, socket, display);
            let wayland = stated is Some && text::trimmed(stated->0) == "wayland"@;
            let x11 = stated is Some && text::trimmed(stated->0) == "x11"@;
            &&& wayland ==> kind is Wayland
            &&& x11 ==> kind is X11
            &&& !wayland && !x11 ==> (kind is Wayland <==> socket is Some && socket->0.len() > 0)
            &&& !wayland && !x11 ==> (kind is Other <==> (socket is None || socket->0.len() == 0)
                && (display is None || display->0.len() == 0))
        }),
{
    reveal_strlit("wayland");
    reveal_strlit("x11");
    assert("wayland"@.len() == 7 && "x11"@.len() == 3);
}

/// The named keys that type.
pub open spec fn typing_names() -> Seq<Seq<char>> {
    seq![
        "Backquote"@,
        "Backslash"@,
        "BracketLeft"@,
        "BracketRight"@,
        "Comma"@,
        "Enter"@,
        "Equal"@,
        "Minus"@,
        "Period"@,
        "Quote"@,
        "Semicolon"@,
        "Slash"@,
        "Space"@,
        "Tab"@,
    ]
}

/// Letters, digits, the number pad and the keys with a name for their sign type;
/// nothing else does, and no combination does.
pub proof fn law_which_keys_type(key: Seq<char>)
    ensures
        key.contains('+') ==> !types(key),
        !key.contains('+') ==> (types(key) <==> {
            ||| exists|rest: Seq<char>| key == #[trigger] ("Key"@ + rest)
            ||| exists|rest: Seq<char>| key == #[trigger] ("Digit"@ + rest)
            ||| exists|rest: Seq<char>| key == #[trigger] ("Numpad"@ + rest)
            ||| typing_names().contains(key)
        }),
{
    text::law_a_text_begins_or_ends_with_its_part(key, "Key"@);
    text::law_a_text_begins_or_ends_with_its_part(key, "Digit"@);
    text::law_a_text_begins_or_ends_with_its_part(key, "Numpad"@);
    let names = typing_names();
    assert(names[0] == "Backquote"@ && names[1] == "Backslash"@ && names[2] == "BracketLeft"@
        && names[3] == "BracketRight"@ && names[4] == "Comma"@ && names[5] == "Enter"@ && names[6]
        == "Equal"@ && names[7] == "Minus"@ && names[8] == "Period"@ && names[9] == "Quote"@
        && names[10] == "Semicolon"@ && names[11] == "Slash"@ && names[12] == "Space"@ && names[13]
        == "Tab"@);
}

/// A bare accelerator is of the mouse when it begins with the word, whatever
/// white space stands round it; modifiers in front make no difference.
pub proof fn law_modifiers_do_not_hide_a_mouse_button(modifiers: Seq<char>, key: Seq<char>)
    requires
        !key.contains('+'),
    ensures
        names_mouse(key) <==> exists|rest: Seq<char>|
            text::trimmed(key) == #[trigger] ("Mouse"@ + rest),
        names_mouse(modifiers.push('+') + key) == names_mouse(key),
{
    text::law_a_text_begins_or_ends_with_its_part(text::trimmed(key), "Mouse"@);
    lemma_tail(Seq::empty(), key);
    assert(Seq::<char>::empty() + key =~= key);
    lemma_tail(modifiers.push('+'), key);
}

proof fn lemma_tail(front: Seq<char>, key: Seq<char>)
    requires
        !key.contains('+'),
        front.len() == 0 || front.last() == '+',
    ensures
        text::after_last(front + key, '+') == key,
    decreases key.len(),
{
    if key.len() > 0 {
        let shorter = key.drop_last();
        assert forall|i: int| 0 <= i < shorter.len() implies shorter[i] != '+' by {
            assert(key[i] == shorter[i]);
        }
        lemma_tail(front, shorter);
        assert((front + key).drop_last() =~= front + shorter);
        assert((front + key).last() == key[key.len() - 1]);
        assert(shorter.push(key.last()) =~= key);
    } else {
        assert(front + key =~= front);
        if front.len() > 0 {
            assert(text::after_last(front, '+') =~= key);
        } else {
            assert(text::after_last(front, '+') =~= key);
        }
    }
}

/// What goes one way is the accelerators set to more than white space that are of
/// that sort, in the order of the settings, each with its own action.
pub proof fn law_bindings_go_where_they_belong(all: Seq<(Option<String>, Action)>, mouse: bool)
    ensures
        bound(all, mouse) == all.filter(
            |b: (Option<String>, Action)|
                b.0 matches Some(a) && text::trimmed(a@).len() > 0 && names_mouse(a@) == mouse,
        ).map_values(|b: (Option<String>, Action)| (b.0->0, b.1)),
    decreases all.len(),
{
    reveal(Seq::filter);
    let keep = |b: (Option<String>, Action)|
        b.0 matches Some(a) && text::trimmed(a@).len() > 0 && names_mouse(a@) == mouse;
    let take = |b: (Option<String>, Action)| (b.0->0, b.1);
    if all.len() > 0 {
        let front = all.drop_last();
        law_bindings_go_where_they_belong(front, mouse);
        if keep(all.last()) {
            assert(front.filter(keep).push(all.last()).map_values(take) =~= front.filter(
                keep,
            ).map_values(take).push(take(all.last())));
        }
    } else {
        assert(all.filter(keep).map_values(take) =~= Seq::empty());
    }
}

/// Each action takes the accelerator that the settings give it, and every action
/// is looked at once.
pub proof fn law_each_action_has_its_own_accelerator(keybinds: Keybinds, i: int)
    requires
        0 <= i < wanted(keybinds).len(),
    ensures
        wanted(keybinds).len() == 3,
        match wanted(keybinds)[i].1 {
            Action::PushToTalk => i == 0 && wanted(keybinds)[i].0 == keybinds.push_to_talk,
            Action::ToggleMute => i == 1 && wanted(keybinds)[i].0 == keybinds.toggle_mute,
            Action::ToggleDeafen => i == 2 && wanted(keybinds)[i].0 == keybinds.toggle_deafen,
        },
{
}

/// A report names the binding and its action. A key that was not registered works
/// only in focus, and the note carries why; a registered one is shared with the
/// window in front exactly under Wayland, and the note says of which key.
pub proof fn law_a_key_is_reported_as_it_is(
    s: BindingStatus,
    binding: (String, Action),
    system: WindowSystem,
    grab: KeyGrab,
)
    requires
        tells_of_key(s, binding, system, grab),
    ensures
        s.action@ == action_word(binding.1),
        s.accelerator@ == binding.0@,
        s.reach == Reach::Focused <==> !(grab is Registered),
        s.reach == Reach::Shared <==> grab is Registered && system is Wayland,
        grab matches KeyGrab::NotUnderstood(why) ==> text::holds((s.note->0)@, why@) && text::holds(
            (s.note->0)@,
            binding.0@,
        ),
        grab matches KeyGrab::Refused(why) ==> text::holds((s.note->0)@, why@),
        s.reach == Reach::Shared ==> text::begins_with((s.note->0)@, binding.0@),
{
    let n = (s.note->0)@;
    let none = Seq::<char>::empty();
    match grab {
        KeyGrab::NotUnderstood(why) => {
            let mid = " is not a key this system understands: "@;
            let end = ". It works while Pickle is focused."@;
            assert(n =~= (binding.0@ + mid) + why@ + end);
            assert(n =~= none + binding.0@ + (mid + why@ + end));
        },
        KeyGrab::Refused(why) => {
            let end = ". It works while Pickle is focused."@;
            assert(n =~= none + why@ + end);
        },
        KeyGrab::Registered => {
            if grab_reach(system) == Reach::Shared {
                assert(n.take(binding.0@.len() as int) =~= binding.0@);
                assert(n.subrange(0, binding.0@.len() as int) =~= binding.0@);
            }
        },
    }
}

/// A report names the mouse button and its action; while it is read the note says
/// of which button, and otherwise why it is not.
pub proof fn law_a_mouse_button_is_reported_as_it_is(
    s: BindingStatus,
    binding: (String, Action),
    outcome: GrabOutcome,
)
    requires
        tells_of_mouse(s, binding, outcome),
    ensures
        s.action@ == action_word(binding.1),
        s.accelerator@ == binding.0@,
        s.reach == Reach::Focused <==> !(outcome is Active),
        outcome is Active ==> text::begins_with((s.note->0)@, binding.0@),
        outcome matches GrabOutcome::NoPermission { devices } ==> text::holds(
            (s.note->0)@,
            text::digits(devices@.len()),
        ),
{
    let n = (s.note->0)@;
    match outcome {
        GrabOutcome::Active { .. } => {
            assert(n.take(binding.0@.len() as int) =~= binding.0@);
            assert(n.subrange(0, binding.0@.len() as int) =~= binding.0@);
        },
        GrabOutcome::NoPermission { devices } => {
            let end = n.skip(("Found "@ + text::digits(devices@.len())).len() as int);
            assert(n =~= "Found "@ + text::digits(devices@.len()) + end);
        },
        _ => {},
    }
}

/// Only a key that types comes with a word on what it types: two keys that differ
/// in that have caveats of different length beyond their own name.
pub proof fn law_a_typing_key_gets_a_longer_caveat(a: Seq<char>, b: Seq<char>)
    ensures
        types(a) && !types(b) ==> wayland_caveat(a).len() - a.len() > wayland_caveat(b).len()
            - b.len(),
        types(a) == types(b) ==> wayland_caveat(a).len() - a.len() == wayland_caveat(b).len()
            - b.len(),
{
    reveal_strlit(
        " Because it is a key that types, holding it will also put characters into whatever you are looking at — a function key, or a combination with Control or Alt, would not.",
    );
}

/// Each action goes by a word of its own.
pub proof fn law_actions_have_words_of_their_own(a: Action, b: Action)
    ensures
        action_word(a) == action_word(b) ==> a == b,
        text::begins_with(action_word(a), "push"@) <==> a is PushToTalk,
        text::finishes_with(action_word(a), "Mute"@) <==> a is ToggleMute,
        text::finishes_with(action_word(a), "Deafen"@) <==> a is ToggleDeafen,
{
    reveal_strlit("pushToTalk");
    reveal_strlit("toggleMute");
    reveal_strlit("toggleDeafen");
    reveal_strlit("push");
    reveal_strlit("Mute");
    reveal_strlit("Deafen");
    assert("pushToTalk"@.len() == 10 && "toggleMute"@.len() == 10 && "toggleDeafen"@.len() == 12);
    assert("pushToTalk"@[0] == 'p' && "toggleMute"@[0] == 't' && "toggleDeafen"@[0] == 't');
    assert("pushToTalk"@[9] == 'k' && "toggleMute"@[9] == 'e' && "toggleDeafen"@[11] == 'n');
    assert("pushToTalk"@.subrange(0, 4) =~= "push"@);
    assert("toggleMute"@.subrange(0, 4)[0] == 't' && "toggleDeafen"@.subrange(0, 4)[0] == 't');
    assert("push"@[0] == 'p');
    assert("toggleMute"@.subrange(6, 10) =~= "Mute"@);
    assert("pushToTalk"@.subrange(6, 10)[3] == 'k' && "toggleDeafen"@.subrange(8, 12)[3] == 'n');
    assert("Mute"@[3] == 'e');
    assert("toggleDeafen"@.subrange(6, 12) =~= "Deafen"@);
    assert("pushToTalk"@.subrange(4, 10)[5] == 'k' && "toggleMute"@.subrange(4, 10)[5] == 'e');
    assert("Deafen"@[5] == 'n');
}

/// Holding is passed on as it is; a toggle acts once for a press and its release.
pub proof fn law_a_toggle_acts_once(action: Action, down: Dispatch, up: Dispatch)
    requires
        call_ensures(dispatch, (action, true), down),
        call_ensures(dispatch, (action, false), up),
    ensures
        action is PushToTalk ==> down == Dispatch::Hold(true) && up == Dispatch::Hold(false),
        action is ToggleMute ==> down is ToggleMute && up is Nothing,
        action is ToggleDeafen ==> down is ToggleDeafen && up is Nothing,
{
}

/// The caveat of a button read from its device says that the window in front gets
/// it too.
pub proof fn law_a_read_button_is_not_taken_away(accelerator: Seq<char>)
    ensures
        text::begins_with(device_caveat(accelerator), accelerator),
        text::finishes_with(
            device_caveat(accelerator),
            "and that window still gets the button as well."@,
        ),
{
    reveal_strlit(
        " is read from the mouse itself, below the window system. It reaches Pickle while another window is in front, and that window still gets the button as well.",
    );
    reveal_strlit("and that window still gets the button as well.");
    let s = device_caveat(accelerator);
    let end = "and that window still gets the button as well."@;
    assert(s.take(accelerator.len() as int) =~= accelerator);
    assert(s.skip(s.len() - end.len()) =~= end);
}
} // verus!
