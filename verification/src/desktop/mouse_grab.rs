//! Global mouse buttons, read from the input device directly.
//!
//! Reading an input device is a wide-reaching capability, so the scope is
//! narrow, and the promise made to the user is the one that the filter
//! enforces:
//!
//! * Only devices that are a mouse and nothing but a mouse. A node that can
//!   report a key of the typing block is never opened, whatever else it is.
//! * Only the bound button. Every other event is dropped unexamined.
//! * Passive. The button still reaches whatever is focused.
//!
//! A binding with modifiers is not handled here: knowing whether Shift is down
//! would mean watching a keyboard.
//!
//! Opening a device needs permission. The advice is a udev rule for the one
//! mouse, and never a group that can read every keyboard on the machine.

use crate::desktop::shortcuts::Action;
use crate::text;
use vstd::prelude::*;

verus! {

/// Where the generated rule is meant to be installed.
pub const UDEV_RULE_PATH: &'static str = "/etc/udev/rules.d/70-pickle-mouse.rules";

/// The typing block: the number row, the letter rows, and what lies between.
pub const KEY_1: u16 = 2;

pub const KEY_SLASH: u16 = 53;

pub const BTN_LEFT: u16 = 0x110;

pub const BTN_RIGHT: u16 = 0x111;

pub const BTN_MIDDLE: u16 = 0x112;

pub const BTN_SIDE: u16 = 0x113;

pub const BTN_EXTRA: u16 = 0x114;

pub const REL_X: u16 = 0;

pub const REL_Y: u16 = 1;

/// One mouse, identified well enough to write a rule for it. Not by its path,
/// which will not survive a reboot.
#[derive(Debug, PartialEq, Eq)]
pub struct MouseDevice {
    /// What the device calls itself.
    pub name: String,
    /// Vendor id, four small hex digits, as udev writes it.
    pub vendor: String,
    /// Product id, four small hex digits.
    pub product: String,
}

impl Clone for MouseDevice {
    fn clone(&self) -> (r: Self)
        ensures
            r == *self,
    {
        MouseDevice {
            name: self.name.clone(),
            vendor: self.vendor.clone(),
            product: self.product.clone(),
        }
    }
}

/// A ready-to-install rule for the mice that cannot be opened.
#[derive(Debug, PartialEq, Eq)]
pub struct UdevAdvice {
    /// Where to put the rule.
    pub path: String,
    /// The file, comments and all.
    pub rule: String,
    /// The devices that the rule covers.
    pub devices: Vec<MouseDevice>,
}

/// Why a global mouse binding is or is not live.
#[derive(Debug, PartialEq, Eq)]
pub enum GrabOutcome {
    /// Reading, on this many devices.
    Active { devices: usize },
    /// There are devices, but none could be opened.
    NoPermission { devices: Vec<MouseDevice> },
    /// No device reports the bound button.
    NoDevice,
    /// The binding carries modifiers, which would mean watching a keyboard.
    Modified,
    /// There are no input devices to read on this platform.
    Unsupported,
}

/// The sentence for an outcome, or `None` when the grab works.
pub open spec fn explanation(o: GrabOutcome) -> Option<Seq<char>> {
    match o {
        GrabOutcome::Active { .. } => None,
        GrabOutcome::NoPermission { devices } => Some(
            "Found "@ + text::digits(devices@.len())
                + " mouse device(s), but could not open any of them. Reading a mouse directly needs permission on that one device, which a small udev rule grants — Pickle can write the exact rule for your hardware. Until then the button works while Pickle is focused."@,
        ),
        GrabOutcome::NoDevice => Some(
            "No mouse reporting that button was found. It works while Pickle is focused."@,
        ),
        GrabOutcome::Modified => Some(
            "A mouse binding with modifiers only works while Pickle is focused: checking whether a modifier is held would mean reading your keyboard, which this app deliberately does not do."@,
        ),
        GrabOutcome::Unsupported => Some(
            "Mouse buttons cannot be reserved system-wide on this platform; this works while Pickle is focused."@,
        ),
    }
}

impl GrabOutcome {
    pub fn is_active(&self) -> (r: bool)
        ensures
            r == (self is Active),
    {
        match self {
            GrabOutcome::Active { .. } => true,
            _ => false,
        }
    }

    /// A sentence for the settings, or `None` when the grab works.
    pub fn explain(&self) -> (r: Option<String>)
        ensures
            match r {
                Some(s) => explanation(*self) == Some(s@),
                None => explanation(*self) is None,
            },
    {
        match self {
            GrabOutcome::Active { .. } => None,
            GrabOutcome::NoPermission { devices } => {
                let count = text::decimal(devices.len() as u64);
                let head = text::join("Found ", count.as_str());
                Some(
                    text::join(
                        head.as_str(),
                        " mouse device(s), but could not open any of them. Reading a mouse directly needs permission on that one device, which a small udev rule grants — Pickle can write the exact rule for your hardware. Until then the button works while Pickle is focused.",
                    ),
                )
            },
            GrabOutcome::NoDevice => Some(
                String::from_str(
                    "No mouse reporting that button was found. It works while Pickle is focused.",
                ),
            ),
            GrabOutcome::Modified => Some(
                String::from_str(
                    "A mouse binding with modifiers only works while Pickle is focused: checking whether a modifier is held would mean reading your keyboard, which this app deliberately does not do.",
                ),
            ),
            GrabOutcome::Unsupported => Some(
                String::from_str(
                    "Mouse buttons cannot be reserved system-wide on this platform; this works while Pickle is focused.",
                ),
            ),
        }
    }
}

/// The button that an accelerator names. None has modifiers, and none is the
/// left button, which would key the microphone on every click.
pub open spec fn button_of(accelerator: Seq<char>) -> Option<u16> {
    if accelerator.contains('+') {
        None
    } else if accelerator == "Mouse2"@ {
        Some(BTN_RIGHT)
    } else if accelerator == "Mouse3"@ {
        Some(BTN_MIDDLE)
    } else if accelerator == "Mouse4"@ {
        Some(BTN_SIDE)
    } else if accelerator == "Mouse5"@ {
        Some(BTN_EXTRA)
    } else {
        None
    }
}

/// Translate an accelerator into an input device's button code.
pub fn button_code(accelerator: &str) -> (r: Option<u16>)
    ensures
        r == button_of(accelerator@),
{
    // Refused rather than ignored: the bare button would fire by surprise.
    if text::contains_char(accelerator, '+') {
        return None;
    }
    if text::same(accelerator, "Mouse2") {
        Some(BTN_RIGHT)
    } else if text::same(accelerator, "Mouse3") {
        Some(BTN_MIDDLE)
    } else if text::same(accelerator, "Mouse4") {
        Some(BTN_SIDE)
    } else if text::same(accelerator, "Mouse5") {
        Some(BTN_EXTRA)
    } else {
        None
    }
}

/// Whether a device can report a key that types.
pub open spec fn can_type(keys: Seq<u16>) -> bool {
    exists|i: int| 0 <= i < keys.len() && KEY_1 <= #[trigger] keys[i] <= KEY_SLASH
}

/// A pointer, and only a pointer: it moves in two directions, it has a left
/// button, and it cannot type. The last is what the promise rests on: a keyboard
/// with a trackpoint satisfies the others.
pub open spec fn mouse_only(keys: Seq<u16>, axes: Option<Seq<u16>>) -> bool {
    &&& axes is Some
    &&& axes->0.contains(REL_X)
    &&& axes->0.contains(REL_Y)
    &&& keys.contains(BTN_LEFT)
    &&& !can_type(keys)
}

fn has_code(codes: &[u16], code: u16) -> (r: bool)
    ensures
        r == codes@.contains(code),
{
    let mut i: usize = 0;
    while i < codes.len()
        invariant
            i <= codes@.len(),
            forall|k: int| 0 <= k < i ==> codes@[k] != code,
        decreases codes.len() - i,
    {
        if codes[i] == code {
            return true;
        }
        i = i + 1;
    }
    false
}

/// Decide, over nothing but the capabilities, whether a device may be opened.
pub fn capabilities_are_mouse_only(keys: &[u16], axes: Option<&[u16]>) -> (r: bool)
    ensures
        r == mouse_only(
            keys@,
            match axes {
                Some(a) => Some(a@),
                None => None,
            },
        ),
{
    let moves_a_pointer = match axes {
        Some(a) => has_code(a, REL_X) && has_code(a, REL_Y),
        None => false,
    };
    let mut types = false;
    let mut i: usize = 0;
    while i < keys.len()
        invariant
            i <= keys@.len(),
            types <==> exists|k: int| 0 <= k < i && KEY_1 <= #[trigger] keys@[k] <= KEY_SLASH,
        decreases keys.len() - i,
    {
        if KEY_1 <= keys[i] && keys[i] <= KEY_SLASH {
            types = true;
        }
        i = i + 1;
    }
    moves_a_pointer && has_code(keys, BTN_LEFT) && !types
}

/// No device that is opened can report a keystroke of the typing block.
pub proof fn law_an_opened_device_cannot_type(keys: Seq<u16>, axes: Option<Seq<u16>>, code: u16)
    requires
        mouse_only(keys, axes),
        KEY_1 <= code <= KEY_SLASH,
    ensures
        !keys.contains(code),
{
}

/// The text with a space for each control character.
pub open spec fn printable(s: Seq<char>) -> Seq<char> {
    s.map_values(
        |c: char|
            if text::is_control(c) {
                ' '
            } else {
                c
            },
    )
}

/// The words of a text with one space between them.
pub open spec fn single_spaced(s: Seq<char>) -> Seq<char>
    decreases s.len(),
{
    if s.len() == 0 {
        Seq::empty()
    } else {
        let before = single_spaced(s.drop_last());
        let c = s.last();
        if text::is_white_space(c) {
            before
        } else if before.len() > 0 && text::is_white_space(s[s.len() - 2]) {
            before.push(' ').push(c)
        } else {
            before.push(c)
        }
    }
}

/// At most this many characters.
pub open spec fn at_most(s: Seq<char>, n: nat) -> Seq<char> {
    if s.len() <= n {
        s
    } else {
        s.take(n as int)
    }
}

/// A device name fit for a comment line.
pub open spec fn cleaned(name: Seq<char>) -> Seq<char> {
    let words = single_spaced(printable(name));
    if words.len() == 0 {
        "unnamed mouse"@
    } else {
        at_most(words, 80)
    }
}

/// Make a device name safe to paste into a rule as a comment.
///
/// The hardware chooses the name. A newline in it would end the comment and let
/// the rest become a rule of its own, in a file that is about to be installed
/// as root.
pub fn clean_name(name: &str) -> (r: String)
    ensures
        r@ == cleaned(name@),
{
    let v: Vec<char> = text::chars_of(name);
    let mut words: Vec<char> = Vec::new();
    let mut i: usize = 0;
    let mut gap = false;
    assert(printable(v@).take(0) =~= Seq::empty());
    while i < v.len()
        invariant
            i <= v@.len(),
            v@ == name@,
            words@ == single_spaced(printable(v@).take(i as int)),
            gap == (i > 0 && text::is_white_space(printable(v@)[i - 1])),
        decreases v@.len() - i,
    {
        let c: char = if text::control(v[i]) {
            ' '
        } else {
            v[i]
        };
        proof {
            let next = printable(v@).take(i + 1);
            assert(next.drop_last() =~= printable(v@).take(i as int));
            assert(next.last() == c);
            if i > 0 {
                assert(next[next.len() - 2] == printable(v@)[i - 1]);
            } else {
                assert(words@.len() == 0);
            }
        }
        if text::white_space(c) {
            gap = true;
        } else {
            if words.len() > 0 && gap {
                words.push(' ');
            }
            words.push(c);
            gap = false;
        }
        i = i + 1;
    }
    assert(printable(v@).take(i as int) =~= printable(name@));
    if words.len() == 0 {
        return String::from_str("unnamed mouse");
    }
    if words.len() > 80 {
        assert(words@.subrange(0, 80) =~= words@.take(80));
        return text::string_of(vstd::slice::slice_subrange(words.as_slice(), 0, 80));
    }
    text::string_of(words.as_slice())
}

proof fn lemma_single_spaced(s: Seq<char>)
    requires
        forall|i: int| 0 <= i < s.len() ==> !text::is_control(#[trigger] s[i]),
    ensures
        forall|i: int|
            #![trigger single_spaced(s)[i]]
            0 <= i < single_spaced(s).len() ==> !text::is_control(single_spaced(s)[i]) && (
            text::is_white_space(single_spaced(s)[i]) ==> single_spaced(s)[i] == ' '),
    decreases s.len(),
{
    if s.len() > 0 {
        lemma_single_spaced(s.drop_last());
        assert(!text::is_control(s[s.len() - 1]));
        let before = single_spaced(s.drop_last());
        assert forall|i: int|
            #![trigger single_spaced(s)[i]]
            0 <= i < single_spaced(s).len() implies !text::is_control(single_spaced(s)[i]) && (
        text::is_white_space(single_spaced(s)[i]) ==> single_spaced(s)[i] == ' ') by {
            if i < before.len() {
                assert(single_spaced(s)[i] == before[i]);
            }
        }
    }
}

/// A cleaned name stays on its comment line: it holds no control character, so
/// no line break, and no white space but the space. It is never empty and never
/// long.
pub proof fn law_a_name_cannot_leave_its_comment(name: Seq<char>)
    ensures
        1 <= cleaned(name).len() <= 80,
        forall|i: int|
            #![trigger cleaned(name)[i]]
            0 <= i < cleaned(name).len() ==> !text::is_control(cleaned(name)[i]) && (
            text::is_white_space(cleaned(name)[i]) ==> cleaned(name)[i] == ' '),
{
    reveal_strlit("unnamed mouse");
    let plain = printable(name);
    assert forall|i: int| 0 <= i < plain.len() implies !text::is_control(#[trigger] plain[i]) by {}
    lemma_single_spaced(plain);
}

/// Whether two devices are one as far as a rule goes.
pub open spec fn same_ids(a: MouseDevice, b: MouseDevice) -> bool {
    a.vendor@ == b.vendor@ && a.product@ == b.product@
}

/// Whether a device is among others, by its ids.
pub open spec fn listed(devices: Seq<MouseDevice>, d: MouseDevice) -> bool {
    exists|i: int| 0 <= i < devices.len() && same_ids(#[trigger] devices[i], d)
}

/// The devices, the first of each pair of ids.
pub open spec fn distinct(devices: Seq<MouseDevice>) -> Seq<MouseDevice>
    decreases devices.len(),
{
    if devices.len() == 0 {
        Seq::empty()
    } else {
        let before = distinct(devices.drop_last());
        if listed(before, devices.last()) {
            before
        } else {
            before.push(devices.last())
        }
    }
}

fn is_listed(devices: &[MouseDevice], d: &MouseDevice) -> (r: bool)
    ensures
        r == listed(devices@, *d),
{
    let mut i: usize = 0;
    while i < devices.len()
        invariant
            i <= devices@.len(),
            forall|k: int| 0 <= k < i ==> !same_ids(#[trigger] devices@[k], *d),
        decreases devices.len() - i,
    {
        if text::same(devices[i].vendor.as_str(), d.vendor.as_str()) && text::same(
            devices[i].product.as_str(),
            d.product.as_str(),
        ) {
            assert(same_ids(devices@[i as int], *d));
            return true;
        }
        i = i + 1;
    }
    false
}

/// Collapse devices that share a vendor and product id. One mouse routinely
/// presents several nodes, and a single rule covers them all.
pub fn dedupe(devices: &mut Vec<MouseDevice>)
    ensures
        final(devices)@ == distinct(old(devices)@),
{
    let mut out: Vec<MouseDevice> = Vec::new();
    let mut i: usize = 0;
    while i < devices.len()
        invariant
            i <= devices@.len(),
            devices@ == old(devices)@,
            out@ == distinct(devices@.take(i as int)),
        decreases devices.len() - i,
    {
        proof {
            assert(devices@.take(i + 1).drop_last() =~= devices@.take(i as int));
        }
        if !is_listed(out.as_slice(), &devices[i]) {
            out.push(devices[i].clone());
        }
        i = i + 1;
    }
    assert(devices@.take(i as int) =~= devices@);
    *devices = out;
}

/// Every device is covered, and no pair of ids is covered twice.
pub proof fn law_each_mouse_is_listed_once(devices: Seq<MouseDevice>)
    ensures
        forall|i: int|
            0 <= i < devices.len() ==> listed(distinct(devices), #[trigger] devices[i]),
        forall|i: int, j: int|
            0 <= i < j < distinct(devices).len() ==> !same_ids(
                #[trigger] distinct(devices)[i],
                #[trigger] distinct(devices)[j],
            ),
    decreases devices.len(),
{
    if devices.len() > 0 {
        let rest = devices.drop_last();
        let before = distinct(rest);
        law_each_mouse_is_listed_once(rest);
        let all = distinct(devices);
        assert forall|i: int| 0 <= i < devices.len() implies listed(
            all,
            #[trigger] devices[i],
        ) by {
            if i < rest.len() {
                assert(devices[i] == rest[i]);
                let k = choose|k: int|
                    0 <= k < before.len() && same_ids(#[trigger] before[k], rest[i]);
                assert(same_ids(all[k], devices[i]));
            } else if !listed(before, devices.last()) {
                assert(same_ids(all[before.len() as int], devices[i]));
            }
        }
    }
}

/// An id as udev writes it: four hex digits in small letters, or nothing.
pub open spec fn hex_id(value: Seq<char>) -> Option<Seq<char>> {
    let id = text::ascii_lowered(text::trimmed(value));
    if id.len() == 4 && (forall|i: int| 0 <= i < 4 ==> text::is_hex(#[trigger] id[i])) {
        Some(id)
    } else {
        None
    }
}

fn hex_of(value: Option<&str>) -> (r: Option<String>)
    ensures
        match r {
            Some(s) => value is Some && hex_id((value->0)@) == Some(s@),
            None => value is Some ==> hex_id((value->0)@) is None,
        },
{
    let raw = match value {
        Some(raw) => raw,
        None => {
            return None;
        },
    };
    let trimmed = text::trim(raw);
    let id = text::to_ascii_lower(trimmed.as_str());
    let v: Vec<char> = text::chars_of(id.as_str());
    if v.len() != 4 {
        return None;
    }
    let mut i: usize = 0;
    while i < 4
        invariant
            i <= 4,
            v@.len() == 4,
            v@ == id@,
            forall|k: int| 0 <= k < i ==> text::is_hex(#[trigger] v@[k]),
            value == Some(raw),
            id@ == text::ascii_lowered(text::trimmed(raw@)),
        decreases 4 - i,
    {
        let c: char = v[i];
        let hex = ('0' <= c && c <= '9') || ('a' <= c && c <= 'f') || ('A' <= c && c <= 'F');
        if !hex {
            assert(!text::is_hex(id@[i as int]));
            return None;
        }
        i = i + 1;
    }
    Some(id)
}

/// How an open device identifies itself.
pub fn identify(name: Option<&str>, vendor: u16, product: u16) -> (d: MouseDevice)
    ensures
        d.name@ == cleaned(match name {
            Some(n) => n@,
            None => "unnamed mouse"@,
        }),
        d.vendor@ == text::four_hex(vendor),
        d.product@ == text::four_hex(product),
{
    MouseDevice {
        name: clean_name(
            match name {
                Some(n) => n,
                None => "unnamed mouse",
            },
        ),
        vendor: text::hex4(vendor),
        product: text::hex4(product),
    }
}

/// Identify a device from what the system publishes about it, without opening
/// it. A malformed id would make a rule that matches nothing, which is worse
/// than admitting that the device could not be identified.
pub fn identify_published(name: Option<&str>, vendor: Option<&str>, product: Option<&str>) -> (r:
    Option<MouseDevice>)
    ensures
        match r {
            Some(d) => {
                &&& vendor is Some && hex_id((vendor->0)@) == Some(d.vendor@)
                &&& product is Some && hex_id((product->0)@) == Some(d.product@)
                &&& d.name@ == cleaned(
                    text::trimmed(
                        match name {
                            Some(n) => n@,
                            None => "unnamed mouse"@,
                        },
                    ),
                )
            },
            None => {
                ||| vendor is None || hex_id((vendor->0)@) is None
                ||| product is None || hex_id((product->0)@) is None
            },
        },
{
    let trimmed = text::trim(
        match name {
            Some(n) => n,
            None => "unnamed mouse",
        },
    );
    let vendor = match hex_of(vendor) {
        Some(v) => v,
        None => {
            return None;
        },
    };
    let product = match hex_of(product) {
        Some(p) => p,
        None => {
            return None;
        },
    };
    Some(MouseDevice { name: clean_name(trimmed.as_str()), vendor, product })
}

/// Whether a link names the event node of a mouse.
pub fn is_mouse_node(link: &str) -> (r: bool)
    ensures
        r == text::finishes_with(link@, "-event-mouse"@),
{
    text::ends_with(link, "-event-mouse")
}

/// What stands above the rules: what the file is and how to install it.
pub open spec fn rule_header() -> Seq<char> {
    "# Pickle: read one mouse's buttons, and nothing else.\n#\n# Install with:\n#   sudo cp <this file> "@
        + UDEV_RULE_PATH@
        + "\n#   sudo udevadm control --reload\n#   sudo udevadm trigger --subsystem-match=input\n# then unplug and replug the mouse, or reboot.\n#\n# Each rule grants access to one device, for whoever is logged in at\n# this machine's own screen and keyboard, for as long as that session\n# lasts. It is not the `input` group: nothing here gives any process\n# access to a keyboard, to another user's devices, or to a device that\n# is not named below.\n#\n# Derive the ids for a mouse yourself with:\n#   udevadm info -a -n /dev/input/eventN | grep -m2 -E 'idVendor|idProduct'\n# For a Bluetooth or I2C mouse, which has no USB parent, use\n# ATTRS{id/vendor} and ATTRS{id/product} in place of\n# ATTRS{idVendor} and ATTRS{idProduct}.\n"@
}

/// The line that grants one device: to whoever sits at the machine, and only its
/// mouse, never a keyboard that shares its ids.
pub open spec fn rule_line(d: MouseDevice) -> Seq<char> {
    "SUBSYSTEM==\"input\", KERNEL==\"event*\", ENV{ID_INPUT_MOUSE}==\"1\", ENV{ID_INPUT_KEYBOARD}!=\"1\", ATTRS{idVendor}==\""@
        + d.vendor@ + "\", ATTRS{idProduct}==\""@ + d.product@ + "\", TAG+=\"uaccess\"\n"@
}

/// A device's part of the file: an empty line, its name as a comment, its rule.
pub open spec fn rule_part(d: MouseDevice) -> Seq<char> {
    "\n# "@ + cleaned(d.name@) + "\n"@ + rule_line(d)
}

/// The file for these devices.
pub open spec fn rule_text(devices: Seq<MouseDevice>) -> Seq<char>
    decreases devices.len(),
{
    if devices.len() == 0 {
        rule_header()
    } else {
        rule_text(devices.drop_last()) + rule_part(devices.last())
    }
}

fn part_for(d: &MouseDevice) -> (s: String)
    ensures
        s@ == rule_part(*d),
{
    let mut line: String = String::from_str(
        "SUBSYSTEM==\"input\", KERNEL==\"event*\", ENV{ID_INPUT_MOUSE}==\"1\", ENV{ID_INPUT_KEYBOARD}!=\"1\", ATTRS{idVendor}==\"",
    );
    line.append(d.vendor.as_str());
    line.append("\", ATTRS{idProduct}==\"");
    line.append(d.product.as_str());
    line.append("\", TAG+=\"uaccess\"\n");
    // Cleaned here rather than trusting whoever made the value: this is where a
    // newline would stop being a comment and start being a rule.
    let name = clean_name(d.name.as_str());
    let mut s: String = String::from_str("\n# ");
    s.append(name.as_str());
    s.append("\n");
    s.append(line.as_str());
    s
}

/// Build a rule file that grants exactly these mice.
pub fn udev_rule(devices: &[MouseDevice]) -> (rule: String)
    ensures
        rule@ == rule_text(devices@),
{
    let mut rule: String = String::from_str(
        "# Pickle: read one mouse's buttons, and nothing else.\n#\n# Install with:\n#   sudo cp <this file> ",
    );
    rule.append(UDEV_RULE_PATH);
    rule.append(
        "\n#   sudo udevadm control --reload\n#   sudo udevadm trigger --subsystem-match=input\n# then unplug and replug the mouse, or reboot.\n#\n# Each rule grants access to one device, for whoever is logged in at\n# this machine's own screen and keyboard, for as long as that session\n# lasts. It is not the `input` group: nothing here gives any process\n# access to a keyboard, to another user's devices, or to a device that\n# is not named below.\n#\n# Derive the ids for a mouse yourself with:\n#   udevadm info -a -n /dev/input/eventN | grep -m2 -E 'idVendor|idProduct'\n# For a Bluetooth or I2C mouse, which has no USB parent, use\n# ATTRS{id/vendor} and ATTRS{id/product} in place of\n# ATTRS{idVendor} and ATTRS{idProduct}.\n",
    );
    let mut i: usize = 0;
    while i < devices.len()
        invariant
            i <= devices@.len(),
            rule@ == rule_text(devices@.take(i as int)),
        decreases devices.len() - i,
    {
        proof {
            assert(devices@.take(i + 1).drop_last() =~= devices@.take(i as int));
        }
        let part = part_for(&devices[i]);
        rule.append(part.as_str());
        i = i + 1;
    }
    assert(devices@.take(i as int) =~= devices@);
    rule
}

/// The rule that the user needs now, or `None` when nothing is blocked: a rule
/// changes a system's permissions, and nobody whose mouse works is shown one.
pub fn udev_advice(unreadable: Vec<MouseDevice>) -> (r: Option<UdevAdvice>)
    ensures
        r is None <==> unreadable@.len() == 0,
        r matches Some(a) ==> a.path@ == UDEV_RULE_PATH@ && a.devices@ == distinct(unreadable@)
            && a.rule@ == rule_text(distinct(unreadable@)),
{
    let mut devices = unreadable;
    proof {
        law_each_mouse_is_listed_once(devices@);
    }
    dedupe(&mut devices);
    if devices.len() == 0 {
        assert(unreadable@.len() > 0 ==> listed(distinct(unreadable@), unreadable@[0]));
        return None;
    }
    assert(unreadable@.len() > 0) by {
        if unreadable@.len() == 0 {
            assert(distinct(unreadable@).len() == 0);
        }
    }
    Some(
        UdevAdvice {
            path: String::from_str(UDEV_RULE_PATH),
            rule: udev_rule(devices.as_slice()),
            devices,
        },
    )
}

/// A rule line with well-formed ids is one line, and is that line whatever the
/// device calls itself.
pub proof fn law_a_name_cannot_change_its_rule(a: MouseDevice, b: MouseDevice)
    requires
        same_ids(a, b),
    ensures
        rule_line(a) == rule_line(b),
        rule_part(a) == "\n# "@ + cleaned(a.name@) + "\n"@ + rule_line(b),
        forall|i: int| 0 <= i < cleaned(a.name@).len() ==> (#[trigger] cleaned(a.name@)[i]) != '\n',
{
    law_a_name_cannot_leave_its_comment(a.name@);
}

/// An input device as it was found: what it can report, and what it is.
#[derive(Debug)]
pub struct InputDevice {
    /// `None` for a device that reports no keys.
    pub keys: Option<Vec<u16>>,
    pub axes: Option<Vec<u16>>,
    pub identity: MouseDevice,
}

/// A device to read, and the buttons to heed on it.
#[derive(Debug)]
pub struct Reader {
    /// The place of the device among those found.
    pub device: usize,
    pub codes: Vec<(u16, Action)>,
}

/// The buttons that these bindings ask for, in order.
pub open spec fn buttons(bindings: Seq<(String, Action)>) -> Seq<(u16, Action)>
    decreases bindings.len(),
{
    if bindings.len() == 0 {
        Seq::empty()
    } else {
        let before = buttons(bindings.drop_last());
        match button_of(bindings.last().0@) {
            Some(code) => before.push((code, bindings.last().1)),
            None => before,
        }
    }
}

/// Whether a binding has modifiers.
pub open spec fn some_modified(bindings: Seq<(String, Action)>) -> bool {
    exists|i: int| 0 <= i < bindings.len() && (#[trigger] bindings[i]).0@.contains('+')
}

/// Those of the wanted buttons that a device reports.
pub open spec fn reported(wanted: Seq<(u16, Action)>, keys: Seq<u16>) -> Seq<(u16, Action)>
    decreases wanted.len(),
{
    if wanted.len() == 0 {
        Seq::empty()
    } else {
        let before = reported(wanted.drop_last(), keys);
        if keys.contains(wanted.last().0) {
            before.push(wanted.last())
        } else {
            before
        }
    }
}

/// The buttons to heed on a device: none unless it is a mouse and only a mouse.
pub open spec fn heeded(wanted: Seq<(u16, Action)>, d: InputDevice) -> Seq<(u16, Action)> {
    if d.keys is Some && mouse_only(
        (d.keys->0)@,
        match d.axes {
            Some(a) => Some(a@),
            None => None,
        },
    ) {
        reported(wanted, (d.keys->0)@)
    } else {
        Seq::empty()
    }
}

/// The places of the devices to read.
pub open spec fn to_read(wanted: Seq<(u16, Action)>, devices: Seq<InputDevice>) -> Seq<int>
    decreases devices.len(),
{
    if devices.len() == 0 {
        Seq::empty()
    } else {
        let before = to_read(wanted, devices.drop_last());
        if heeded(wanted, devices.last()).len() > 0 {
            before.push(devices.len() - 1)
        } else {
            before
        }
    }
}

/// The readers that a set of buttons calls for.
pub open spec fn are_readers(
    readers: Seq<Reader>,
    wanted: Seq<(u16, Action)>,
    devices: Seq<InputDevice>,
) -> bool {
    &&& readers.len() == to_read(wanted, devices).len()
    &&& forall|i: int|
        0 <= i < readers.len() ==> (#[trigger] readers[i]).device == to_read(wanted, devices)[i]
            && readers[i].device < devices.len() && readers[i].codes@ == heeded(
            wanted,
            devices[readers[i].device as int],
        )
}

fn wanted_buttons(bindings: &[(String, Action)]) -> (r: (Vec<(u16, Action)>, bool))
    ensures
        r.0@ == buttons(bindings@),
        r.1 == some_modified(bindings@),
{
    let mut wanted: Vec<(u16, Action)> = Vec::new();
    let mut modified = false;
    let mut i: usize = 0;
    while i < bindings.len()
        invariant
            i <= bindings@.len(),
            wanted@ == buttons(bindings@.take(i as int)),
            modified <==> exists|k: int|
                0 <= k < i && (#[trigger] bindings@[k]).0@.contains('+'),
        decreases bindings.len() - i,
    {
        proof {
            assert(bindings@.take(i + 1).drop_last() =~= bindings@.take(i as int));
        }
        match button_code(bindings[i].0.as_str()) {
            Some(code) => {
                wanted.push((code, bindings[i].1));
            },
            None => {},
        }
        if text::contains_char(bindings[i].0.as_str(), '+') {
            modified = true;
        }
        i = i + 1;
    }
    assert(bindings@.take(i as int) =~= bindings@);
    (wanted, modified)
}

fn codes_on(wanted: &[(u16, Action)], keys: &[u16]) -> (r: Vec<(u16, Action)>)
    ensures
        r@ == reported(wanted@, keys@),
{
    let mut r: Vec<(u16, Action)> = Vec::new();
    let mut i: usize = 0;
    while i < wanted.len()
        invariant
            i <= wanted@.len(),
            r@ == reported(wanted@.take(i as int), keys@),
        decreases wanted.len() - i,
    {
        proof {
            assert(wanted@.take(i + 1).drop_last() =~= wanted@.take(i as int));
        }
        if has_code(keys, wanted[i].0) {
            r.push(wanted[i]);
        }
        i = i + 1;
    }
    assert(wanted@.take(i as int) =~= wanted@);
    r
}

fn heed(wanted: &[(u16, Action)], d: &InputDevice) -> (r: Vec<(u16, Action)>)
    ensures
        r@ == heeded(wanted@, *d),
{
    let keys = match &d.keys {
        Some(keys) => keys,
        None => {
            return Vec::new();
        },
    };
    let axes: Option<&[u16]> = match &d.axes {
        Some(axes) => Some(axes.as_slice()),
        None => None,
    };
    if capabilities_are_mouse_only(keys.as_slice(), axes) {
        codes_on(wanted, keys.as_slice())
    } else {
        Vec::new()
    }
}

/// Decide which devices to read for these bindings, and which buttons to heed on
/// each; or why there is nothing to read.
pub fn plan(bindings: &[(String, Action)], devices: &[InputDevice]) -> (r: Result<
    Vec<Reader>,
    GrabOutcome,
>)
    ensures
        match r {
            Err(o) => buttons(bindings@).len() == 0 && o == if some_modified(bindings@) {
                GrabOutcome::Modified
            } else {
                GrabOutcome::NoDevice
            },
            Ok(readers) => buttons(bindings@).len() > 0 && are_readers(
                readers@,
                buttons(bindings@),
                devices@,
            ),
        },
{
    let (wanted, modified) = wanted_buttons(bindings);
    if wanted.len() == 0 {
        return Err(
            if modified {
                GrabOutcome::Modified
            } else {
                GrabOutcome::NoDevice
            },
        );
    }
    let mut readers: Vec<Reader> = Vec::new();
    let mut i: usize = 0;
    while i < devices.len()
        invariant
            i <= devices@.len(),
            wanted@ == buttons(bindings@),
            readers@.len() == to_read(wanted@, devices@.take(i as int)).len(),
            forall|k: int|
                0 <= k < readers@.len() ==> (#[trigger] readers@[k]).device == to_read(
                    wanted@,
                    devices@.take(i as int),
                )[k] && readers@[k].device < i && readers@[k].codes@ == heeded(
                    wanted@,
                    devices@[readers@[k].device as int],
                ),
        decreases devices.len() - i,
    {
        proof {
            assert(devices@.take(i + 1).drop_last() =~= devices@.take(i as int));
            assert(devices@.take(i + 1).last() == devices@[i as int]);
        }
        let codes = heed(wanted.as_slice(), &devices[i]);
        if codes.len() > 0 {
            readers.push(Reader { device: i, codes });
        }
        i = i + 1;
    }
    assert(devices@.take(i as int) =~= devices@);
    Ok(readers)
}

/// How many readers were started.
pub open spec fn started(opened: Seq<bool>) -> nat
    decreases opened.len(),
{
    if opened.len() == 0 {
        0
    } else {
        started(opened.drop_last()) + if opened.last() {
            1nat
        } else {
            0nat
        }
    }
}

/// The devices whose reader did not start.
pub open spec fn refused(
    readers: Seq<Reader>,
    opened: Seq<bool>,
    devices: Seq<InputDevice>,
) -> Seq<MouseDevice>
    decreases opened.len(),
{
    if opened.len() == 0 {
        Seq::empty()
    } else {
        let before = refused(readers, opened.drop_last(), devices);
        if opened.last() {
            before
        } else {
            before.push(devices[readers[opened.len() - 1].device as int].identity)
        }
    }
}

/// What is said where nothing is read: that these devices are kept back, or that
/// there is none.
pub open spec fn says_blocked(o: GrabOutcome, blocked: Seq<MouseDevice>) -> bool {
    if blocked.len() == 0 {
        o == GrabOutcome::NoDevice
    } else {
        o matches GrabOutcome::NoPermission { devices } && devices@ == blocked
    }
}

/// How a grab went, by which readers started and which mice could not even be
/// opened.
pub open spec fn concludes(
    o: GrabOutcome,
    readers: Seq<Reader>,
    opened: Seq<bool>,
    devices: Seq<InputDevice>,
    unreadable: Seq<MouseDevice>,
) -> bool {
    if started(opened) > 0 {
        o == GrabOutcome::Active { devices: started(opened) as usize }
    } else {
        says_blocked(o, distinct(refused(readers, opened, devices) + unreadable))
    }
}

/// Conclude from which readers started, and from the mice that could not even be
/// opened, how the grab went.
pub fn conclude(
    readers: &[Reader],
    opened: &[bool],
    devices: &[InputDevice],
    unreadable: Vec<MouseDevice>,
) -> (o: GrabOutcome)
    requires
        opened@.len() == readers@.len(),
        forall|i: int| 0 <= i < readers@.len() ==> (#[trigger] readers@[i]).device < devices@.len(),
    ensures
        concludes(o, readers@, opened@, devices@, unreadable@),
        started(opened@) <= usize::MAX,
{
    let mut count: usize = 0;
    let mut blocked: Vec<MouseDevice> = Vec::new();
    let mut i: usize = 0;
    while i < opened.len()
        invariant
            i <= opened@.len() == readers@.len(),
            count <= i,
            count == started(opened@.take(i as int)),
            blocked@ == refused(readers@, opened@.take(i as int), devices@),
            forall|k: int|
                0 <= k < readers@.len() ==> (#[trigger] readers@[k]).device < devices@.len(),
        decreases opened.len() - i,
    {
        proof {
            assert(opened@.take(i + 1).drop_last() =~= opened@.take(i as int));
        }
        if opened[i] {
            count = count + 1;
        } else {
            blocked.push(devices[readers[i].device].identity.clone());
        }
        i = i + 1;
    }
    assert(opened@.take(i as int) =~= opened@);
    let ghost direct = blocked@;
    let mut j: usize = 0;
    while j < unreadable.len()
        invariant
            j <= unreadable@.len(),
            blocked@ == direct + unreadable@.take(j as int),
        decreases unreadable.len() - j,
    {
        proof {
            assert(unreadable@.take(j + 1) =~= unreadable@.take(j as int).push(
                unreadable@[j as int],
            ));
        }
        blocked.push(unreadable[j].clone());
        j = j + 1;
    }
    assert(unreadable@.take(j as int) =~= unreadable@);
    dedupe(&mut blocked);
    if count > 0 {
        GrabOutcome::Active { devices: count }
    } else {
        blocked_outcome(blocked)
    }
}

/// The action that the first of these buttons with this code is bound to.
pub open spec fn bound_action(codes: Seq<(u16, Action)>, code: u16) -> Option<Action>
    decreases codes.len(),
{
    if codes.len() == 0 {
        None
    } else if codes[0].0 == code {
        Some(codes[0].1)
    } else {
        bound_action(codes.skip(1), code)
    }
}

/// Only a bound button ever acts, and every bound button does.
pub proof fn law_only_bound_buttons_act(codes: Seq<(u16, Action)>, code: u16)
    ensures
        bound_action(codes, code) is Some <==> exists|i: int|
            0 <= i < codes.len() && (#[trigger] codes[i]).0 == code,
    decreases codes.len(),
{
    if codes.len() > 0 && codes[0].0 != code {
        let rest = codes.skip(1);
        law_only_bound_buttons_act(rest, code);
        assert forall|i: int| 1 <= i < codes.len() implies #[trigger] codes[i] == rest[i - 1] by {}
        assert forall|i: int| 0 <= i < rest.len() implies #[trigger] rest[i] == codes[i + 1] by {}
        if bound_action(codes, code) is Some {
            let i = choose|i: int| 0 <= i < rest.len() && (#[trigger] rest[i]).0 == code;
            assert(codes[i + 1].0 == code);
        }
        if exists|i: int| 0 <= i < codes.len() && (#[trigger] codes[i]).0 == code {
            let i = choose|i: int| 0 <= i < codes.len() && (#[trigger] codes[i]).0 == code;
            assert(rest[i - 1].0 == code);
        }
    }
}

/// What a key event on a read device means: the action of the bound button,
/// pressed or released. A repeat means nothing, nor does any other button.
pub fn button_event(codes: &[(u16, Action)], code: u16, value: i32) -> (r: Option<(Action, bool)>)
    ensures
        r == if value == 1 || value == 0 {
            match bound_action(codes@, code) {
                Some(action) => Some((action, value == 1)),
                None => None,
            }
        } else {
            None
        },
{
    let mut i: usize = 0;
    assert(codes@.skip(0) =~= codes@);
    while i < codes.len()
        invariant
            i <= codes@.len(),
            bound_action(codes@, code) == bound_action(codes@.skip(i as int), code),
        decreases codes.len() - i,
    {
        if codes[i].0 == code {
            return match value {
                1 => Some((codes[i].1, true)),
                0 => Some((codes[i].1, false)),
                _ => None,
            };
        }
        assert(codes@.skip(i as int).skip(1) =~= codes@.skip(i + 1));
        i = i + 1;
    }
    None
}

/// Whether the loss of a device must release push-to-talk: the microphone must
/// not stay open because the mouse went away in mid-press.
pub fn releases_on_loss(codes: &[(u16, Action)]) -> (r: bool)
    ensures
        r <==> exists|i: int| 0 <= i < codes@.len() && (#[trigger] codes@[i]).1
            == Action::PushToTalk,
{
    let mut i: usize = 0;
    while i < codes.len()
        invariant
            i <= codes@.len(),
            forall|k: int| 0 <= k < i ==> (#[trigger] codes@[k]).1 != Action::PushToTalk,
        decreases codes.len() - i,
    {
        match codes[i].1 {
            Action::PushToTalk => {
                return true;
            },
            _ => {},
        }
        i = i + 1;
    }
    false
}

/// Whether a binding's button is read: some reader that started heeds it.
pub open spec fn is_read(accelerator: Seq<char>, readers: Seq<Reader>, opened: Seq<bool>) -> bool {
    exists|i: int|
        0 <= i < readers.len() && opened[i] && button_of(accelerator) is Some && bound_action(
            (#[trigger] readers[i]).codes@,
            button_of(accelerator)->0,
        ) is Some
}

fn some_reader_heeds(readers: &[Reader], opened: &[bool], code: u16) -> (r: bool)
    requires
        opened@.len() == readers@.len(),
    ensures
        r <==> exists|i: int|
            0 <= i < readers@.len() && opened@[i] && bound_action(
                (#[trigger] readers@[i]).codes@,
                code,
            ) is Some,
{
    let mut i: usize = 0;
    while i < readers.len()
        invariant
            i <= readers@.len() == opened@.len(),
            forall|k: int|
                0 <= k < i && opened@[k] ==> bound_action((#[trigger] readers@[k]).codes@, code)
                    is None,
        decreases readers.len() - i,
    {
        if opened[i] && heeds(&readers[i], code) {
            assert(bound_action(readers@[i as int].codes@, code) is Some);
            return true;
        }
        i = i + 1;
    }
    false
}

fn heeds(reader: &Reader, code: u16) -> (r: bool)
    ensures
        r == (bound_action(reader.codes@, code) is Some),
{
    button_event(reader.codes.as_slice(), code, 1).is_some()
}

/// The devices that report a button and whose reader did not start.
pub open spec fn refused_with(
    code: u16,
    readers: Seq<Reader>,
    opened: Seq<bool>,
    devices: Seq<InputDevice>,
) -> Seq<MouseDevice>
    decreases opened.len(),
{
    if opened.len() == 0 {
        Seq::empty()
    } else {
        let before = refused_with(code, readers, opened.drop_last(), devices);
        let reader = readers[opened.len() - 1];
        if !opened.last() && bound_action(reader.codes@, code) is Some {
            before.push(devices[reader.device as int].identity)
        } else {
            before
        }
    }
}

/// The devices that keep a binding's button back: those that report it and could
/// not be read, and the mice that could not even be opened, which may report it.
pub open spec fn kept_back(
    accelerator: Seq<char>,
    readers: Seq<Reader>,
    opened: Seq<bool>,
    devices: Seq<InputDevice>,
    unreadable: Seq<MouseDevice>,
) -> Seq<MouseDevice> {
    match button_of(accelerator) {
        Some(code) => distinct(refused_with(code, readers, opened, devices) + unreadable),
        None => Seq::empty(),
    }
}

/// What the outcome of the whole grab means for one binding. Modifiers keep it
/// from being read whatever became of the others. Where others are read and it
/// is not, the devices that keep it back are named, or no device reports it.
pub open spec fn is_own_outcome(
    o: GrabOutcome,
    accelerator: Seq<char>,
    readers: Seq<Reader>,
    opened: Seq<bool>,
    devices: Seq<InputDevice>,
    unreadable: Seq<MouseDevice>,
    whole: GrabOutcome,
) -> bool {
    match whole {
        GrabOutcome::Unsupported => o == whole,
        _ if accelerator.contains('+') => o == GrabOutcome::Modified,
        GrabOutcome::Active { .. } => if is_read(accelerator, readers, opened) {
            o == whole
        } else {
            says_blocked(o, kept_back(accelerator, readers, opened, devices, unreadable))
        },
        GrabOutcome::NoPermission { devices: blocked } => o matches GrabOutcome::NoPermission {
            devices: named,
        } && named@ == blocked@,
        _ => o == GrabOutcome::NoDevice,
    }
}

fn copied(devices: &[MouseDevice]) -> (r: Vec<MouseDevice>)
    ensures
        r@ == devices@,
{
    let mut r: Vec<MouseDevice> = Vec::new();
    let mut i: usize = 0;
    while i < devices.len()
        invariant
            i <= devices@.len(),
            r@ == devices@.take(i as int),
        decreases devices.len() - i,
    {
        assert(devices@.take(i + 1) =~= devices@.take(i as int).push(devices@[i as int]));
        r.push(devices[i].clone());
        i = i + 1;
    }
    assert(devices@.take(i as int) =~= devices@);
    r
}

fn blocked_outcome(blocked: Vec<MouseDevice>) -> (o: GrabOutcome)
    ensures
        says_blocked(o, blocked@),
{
    if blocked.len() == 0 {
        GrabOutcome::NoDevice
    } else {
        GrabOutcome::NoPermission { devices: blocked }
    }
}

fn held_back(
    accelerator: &str,
    readers: &[Reader],
    opened: &[bool],
    devices: &[InputDevice],
    unreadable: &[MouseDevice],
) -> (blocked: Vec<MouseDevice>)
    requires
        opened@.len() == readers@.len(),
        forall|i: int| 0 <= i < readers@.len() ==> (#[trigger] readers@[i]).device < devices@.len(),
    ensures
        blocked@ == kept_back(accelerator@, readers@, opened@, devices@, unreadable@),
{
    let code = match button_code(accelerator) {
        Some(code) => code,
        None => {
            return Vec::new();
        },
    };
    let mut blocked: Vec<MouseDevice> = Vec::new();
    let mut i: usize = 0;
    while i < opened.len()
        invariant
            i <= opened@.len() == readers@.len(),
            blocked@ == refused_with(code, readers@, opened@.take(i as int), devices@),
            forall|k: int|
                0 <= k < readers@.len() ==> (#[trigger] readers@[k]).device < devices@.len(),
        decreases opened.len() - i,
    {
        proof {
            assert(opened@.take(i + 1).drop_last() =~= opened@.take(i as int));
        }
        if !opened[i] && heeds(&readers[i], code) {
            blocked.push(devices[readers[i].device].identity.clone());
        }
        i = i + 1;
    }
    assert(opened@.take(i as int) =~= opened@);
    let mut shut: Vec<MouseDevice> = copied(unreadable);
    blocked.append(&mut shut);
    dedupe(&mut blocked);
    blocked
}

fn own_outcome(
    accelerator: &str,
    readers: &[Reader],
    opened: &[bool],
    devices: &[InputDevice],
    unreadable: &[MouseDevice],
    whole: &GrabOutcome,
) -> (o: GrabOutcome)
    requires
        opened@.len() == readers@.len(),
        forall|i: int| 0 <= i < readers@.len() ==> (#[trigger] readers@[i]).device < devices@.len(),
    ensures
        is_own_outcome(o, accelerator@, readers@, opened@, devices@, unreadable@, *whole),
{
    match whole {
        GrabOutcome::Unsupported => GrabOutcome::Unsupported,
        _ if text::contains_char(accelerator, '+') => GrabOutcome::Modified,
        GrabOutcome::Active { devices: count } => {
            let read = match button_code(accelerator) {
                Some(code) => some_reader_heeds(readers, opened, code),
                None => false,
            };
            if read {
                GrabOutcome::Active { devices: *count }
            } else {
                blocked_outcome(held_back(accelerator, readers, opened, devices, unreadable))
            }
        },
        GrabOutcome::NoPermission { devices: blocked } => GrabOutcome::NoPermission {
            devices: copied(blocked.as_slice()),
        },
        _ => GrabOutcome::NoDevice,
    }
}

/// Tell, of each binding, what the grab means for it. A grab that works for one
/// button need not work for another.
pub fn outcomes(
    bindings: &[(String, Action)],
    readers: &[Reader],
    opened: &[bool],
    devices: &[InputDevice],
    unreadable: &[MouseDevice],
    whole: &GrabOutcome,
) -> (r: Vec<GrabOutcome>)
    requires
        opened@.len() == readers@.len(),
        forall|i: int| 0 <= i < readers@.len() ==> (#[trigger] readers@[i]).device < devices@.len(),
    ensures
        r@.len() == bindings@.len(),
        forall|i: int|
            0 <= i < r@.len() ==> is_own_outcome(
                #[trigger] r@[i],
                bindings@[i].0@,
                readers@,
                opened@,
                devices@,
                unreadable@,
                *whole,
            ),
{
    let mut r: Vec<GrabOutcome> = Vec::new();
    let mut i: usize = 0;
    while i < bindings.len()
        invariant
            i <= bindings@.len(),
            opened@.len() == readers@.len(),
            forall|k: int|
                0 <= k < readers@.len() ==> (#[trigger] readers@[k]).device < devices@.len(),
            r@.len() == i,
            forall|k: int|
                0 <= k < i ==> is_own_outcome(
                    #[trigger] r@[k],
                    bindings@[k].0@,
                    readers@,
                    opened@,
                    devices@,
                    unreadable@,
                    *whole,
                ),
        decreases bindings.len() - i,
    {
        let o = own_outcome(
            bindings[i].0.as_str(),
            readers,
            opened,
            devices,
            unreadable,
            whole,
        );
        r.push(o);
        i = i + 1;
    }
    r
}

/// Only devices that cannot type are read, and only for wanted buttons.
pub proof fn law_every_reader_is_on_a_mouse(
    readers: Seq<Reader>,
    wanted: Seq<(u16, Action)>,
    devices: Seq<InputDevice>,
    i: int,
)
    requires
        are_readers(readers, wanted, devices),
        0 <= i < readers.len(),
    ensures
        ({
            let d = devices[readers[i].device as int];
            &&& d.keys is Some
            &&& !can_type((d.keys->0)@)
            &&& forall|k: int|
                0 <= k < readers[i].codes@.len() ==> wanted.contains(
                    #[trigger] readers[i].codes@[k],
                ) && (d.keys->0)@.contains(readers[i].codes@[k].0)
        }),
{
    lemma_nonempty_when_read(wanted, devices, i);
    let d = devices[readers[i].device as int];
    lemma_reported(wanted, (d.keys->0)@);
}

/// Where devices can be read at all, a binding is said to be read exactly when
/// its own button is.
pub proof fn law_a_binding_is_active_exactly_when_read(
    o: GrabOutcome,
    accelerator: Seq<char>,
    readers: Seq<Reader>,
    opened: Seq<bool>,
    devices: Seq<InputDevice>,
    unreadable: Seq<MouseDevice>,
    whole: GrabOutcome,
)
    requires
        opened.len() == readers.len(),
        concludes(whole, readers, opened, devices, unreadable),
        is_own_outcome(o, accelerator, readers, opened, devices, unreadable, whole),
    ensures
        o is Active <==> is_read(accelerator, readers, opened),
{
    if is_read(accelerator, readers, opened) {
        let i = choose|i: int|
            0 <= i < readers.len() && opened[i] && button_of(accelerator) is Some && bound_action(
                (#[trigger] readers[i]).codes@,
                button_of(accelerator)->0,
            ) is Some;
        lemma_started(opened, i);
    }
}

proof fn lemma_started(opened: Seq<bool>, i: int)
    requires
        0 <= i < opened.len(),
        opened[i],
    ensures
        started(opened) > 0,
    decreases opened.len(),
{
    if i < opened.len() - 1 {
        lemma_started(opened.drop_last(), i);
    }
}

/// A button is never put down to a missing device while a device that reports it
/// was found: where that device could not be read, the button is read elsewhere,
/// or permission is the reason given and the device is named.
pub proof fn law_a_refused_device_is_named(
    o: GrabOutcome,
    accelerator: Seq<char>,
    readers: Seq<Reader>,
    opened: Seq<bool>,
    devices: Seq<InputDevice>,
    unreadable: Seq<MouseDevice>,
    whole: GrabOutcome,
    i: int,
)
    requires
        opened.len() == readers.len(),
        concludes(whole, readers, opened, devices, unreadable),
        is_own_outcome(o, accelerator, readers, opened, devices, unreadable, whole),
        0 <= i < readers.len(),
        !opened[i],
        button_of(accelerator) is Some,
        bound_action(readers[i].codes@, button_of(accelerator)->0) is Some,
    ensures
        o is Active || (o matches GrabOutcome::NoPermission { devices: d } && listed(
            d@,
            devices[readers[i].device as int].identity,
        )),
{
    let code = button_of(accelerator)->0;
    let it = devices[readers[i].device as int].identity;
    let mine = refused_with(code, readers, opened, devices) + unreadable;
    let all = refused(readers, opened, devices) + unreadable;
    lemma_refused(code, readers, opened, devices, i);
    let a = choose|a: int|
        0 <= a < refused_with(code, readers, opened, devices).len() && refused_with(
            code,
            readers,
            opened,
            devices,
        )[a] == it;
    assert(mine[a] == it);
    let b = choose|b: int|
        0 <= b < refused(readers, opened, devices).len() && refused(readers, opened, devices)[b]
            == it;
    assert(all[b] == it);
    law_each_mouse_is_listed_once(mine);
    law_each_mouse_is_listed_once(all);
    assert(listed(distinct(mine), mine[a]));
    assert(listed(distinct(all), all[b]));
}

proof fn lemma_refused(
    code: u16,
    readers: Seq<Reader>,
    opened: Seq<bool>,
    devices: Seq<InputDevice>,
    i: int,
)
    requires
        0 <= i < opened.len() <= readers.len(),
        !opened[i],
        bound_action(readers[i].codes@, code) is Some,
    ensures
        refused_with(code, readers, opened, devices).contains(
            devices[readers[i].device as int].identity,
        ),
        refused(readers, opened, devices).contains(devices[readers[i].device as int].identity),
    decreases opened.len(),
{
    let it = devices[readers[i].device as int].identity;
    let front = opened.drop_last();
    let (some, all) = (
        refused_with(code, readers, opened, devices),
        refused(readers, opened, devices),
    );
    if i < opened.len() - 1 {
        lemma_refused(code, readers, front, devices, i);
        let (some_before, all_before) = (
            refused_with(code, readers, front, devices),
            refused(readers, front, devices),
        );
        let a = choose|a: int| 0 <= a < some_before.len() && some_before[a] == it;
        let b = choose|b: int| 0 <= b < all_before.len() && all_before[b] == it;
        assert(some[a] == it);
        assert(all[b] == it);
    } else {
        assert(some.last() == it);
        assert(all.last() == it);
    }
}

/// A binding with modifiers is never read.
pub proof fn law_a_modified_binding_is_never_read(
    accelerator: Seq<char>,
    readers: Seq<Reader>,
    opened: Seq<bool>,
)
    requires
        accelerator.contains('+'),
    ensures
        !is_read(accelerator, readers, opened),
{
}

proof fn lemma_nonempty_when_read(wanted: Seq<(u16, Action)>, devices: Seq<InputDevice>, i: int)
    requires
        0 <= i < to_read(wanted, devices).len(),
    ensures
        0 <= to_read(wanted, devices)[i] < devices.len(),
        heeded(wanted, devices[to_read(wanted, devices)[i]]).len() > 0,
    decreases devices.len(),
{
    let before = to_read(wanted, devices.drop_last());
    if i < before.len() {
        lemma_nonempty_when_read(wanted, devices.drop_last(), i);
        assert(to_read(wanted, devices)[i] == before[i]);
    }
}

proof fn lemma_reported(wanted: Seq<(u16, Action)>, keys: Seq<u16>)
    ensures
        forall|k: int|
            0 <= k < reported(wanted, keys).len() ==> wanted.contains(
                #[trigger] reported(wanted, keys)[k],
            ) && keys.contains(reported(wanted, keys)[k].0),
    decreases wanted.len(),
{
    if wanted.len() > 0 {
        let rest = wanted.drop_last();
        let before = reported(rest, keys);
        lemma_reported(rest, keys);
        assert forall|k: int| 0 <= k < reported(wanted, keys).len() implies wanted.contains(
            #[trigger] reported(wanted, keys)[k],
        ) && keys.contains(reported(wanted, keys)[k].0) by {
            if k < before.len() {
                assert(reported(wanted, keys)[k] == before[k]);
                let j = choose|j: int| 0 <= j < rest.len() && rest[j] == before[k];
                assert(wanted[j] == before[k]);
            } else {
                assert(wanted[wanted.len() - 1] == wanted.last());
            }
        }
    }
}


/// The buttons that can be bound are numbered from 2 to 5 as the device numbers
/// them from the one after the left: no other accelerator names a button.
pub proof fn law_buttons_are_numbered_in_order(accelerator: Seq<char>, n: int)
    requires
        1 <= n <= 9,
    ensures
        button_of("Mouse"@.push((48 + n) as char)) == if 2 <= n <= 5 {
            Some((0x10f + n) as u16)
        } else {
            None
        },
        button_of(accelerator) matches Some(code) ==> 0x111 <= code <= 0x114 && accelerator
            == "Mouse"@.push((code - 0x10f + 48) as char),
{
    reveal_strlit("Mouse");
    reveal_strlit("Mouse2");
    reveal_strlit("Mouse3");
    reveal_strlit("Mouse4");
    reveal_strlit("Mouse5");
    let named = "Mouse"@.push((48 + n) as char);
    assert(named.len() == 6 && named[5] == (48 + n) as char);
    assert("Mouse2"@.len() == 6 && "Mouse2"@[5] == '2');
    assert("Mouse3"@.len() == 6 && "Mouse3"@[5] == '3');
    assert("Mouse4"@.len() == 6 && "Mouse4"@[5] == '4');
    assert("Mouse5"@.len() == 6 && "Mouse5"@[5] == '5');
    assert("Mouse2"@ =~= "Mouse"@.push('2'));
    assert("Mouse3"@ =~= "Mouse"@.push('3'));
    assert("Mouse4"@ =~= "Mouse"@.push('4'));
    assert("Mouse5"@ =~= "Mouse"@.push('5'));
    if named.contains('+') {
        let i = choose|i: int| 0 <= i < named.len() && named[i] == '+';
        assert(named[i] != '+');
    }
}

/// A device counts as a mouse exactly when it moves along both axes, has a left
/// button and has no key of the typing block.
pub proof fn law_what_counts_as_a_mouse(keys: Seq<u16>, axes: Option<Seq<u16>>)
    ensures
        mouse_only(keys, axes) <==> (axes matches Some(a) && a.contains(0u16) && a.contains(1u16))
            && keys.contains(0x110u16) && forall|code: u16|
            2 <= code <= 53 ==> !#[trigger] keys.contains(code),
{
    if can_type(keys) {
        let i = choose|i: int| 0 <= i < keys.len() && KEY_1 <= #[trigger] keys[i] <= KEY_SLASH;
        assert(keys.contains(keys[i]));
    }
    if exists|code: u16| 2 <= code <= 53 && #[trigger] keys.contains(code) {
        let code = choose|code: u16| 2 <= code <= 53 && #[trigger] keys.contains(code);
        let i = choose|i: int| 0 <= i < keys.len() && keys[i] == code;
        assert(KEY_1 <= keys[i] <= KEY_SLASH);
    }
}

/// A control character becomes a space, and every other character stays.
pub proof fn law_only_control_characters_are_blanked(s: Seq<char>, i: int)
    requires
        0 <= i < s.len(),
    ensures
        printable(s).len() == s.len(),
        printable(s)[i] == if text::is_control(s[i]) {
            ' '
        } else {
            s[i]
        },
{
}

proof fn lemma_leading_space(s: Seq<char>)
    requires
        forall|i: int| 0 <= i < s.len() ==> text::is_white_space(#[trigger] s[i]),
    ensures
        single_spaced(s).len() == 0,
    decreases s.len(),
{
    if s.len() > 0 {
        let front = s.drop_last();
        assert forall|i: int| 0 <= i < front.len() implies text::is_white_space(
            #[trigger] front[i],
        ) by {
            assert(front[i] == s[i]);
        }
        lemma_leading_space(front);
        assert(text::is_white_space(s[s.len() - 1]));
    }
}

/// A word stays as it is. Where white space parts a text in two, what comes of it
/// is what comes of the two parts, with one space between them if both hold a
/// word.
pub proof fn law_words_keep_one_space_between_them(a: Seq<char>, gap: char, b: Seq<char>)
    requires
        text::is_white_space(gap),
    ensures
        (forall|i: int| 0 <= i < a.len() ==> !text::is_white_space(#[trigger] a[i]))
            ==> single_spaced(a) == a,
        single_spaced(a.push(gap) + b) == if single_spaced(a).len() > 0 && single_spaced(b).len()
            > 0 {
            single_spaced(a).push(' ') + single_spaced(b)
        } else {
            single_spaced(a) + single_spaced(b)
        },
{
    if forall|i: int| 0 <= i < a.len() ==> !text::is_white_space(#[trigger] a[i]) {
        lemma_a_word_stays(a);
    }
    lemma_parts_are_joined(a, gap, b);
}

proof fn lemma_a_word_stays(a: Seq<char>)
    requires
        forall|i: int| 0 <= i < a.len() ==> !text::is_white_space(#[trigger] a[i]),
    ensures
        single_spaced(a) == a,
    decreases a.len(),
{
    if a.len() > 0 {
        let front = a.drop_last();
        assert forall|i: int| 0 <= i < front.len() implies !text::is_white_space(
            #[trigger] front[i],
        ) by {
            assert(front[i] == a[i]);
        }
        lemma_a_word_stays(front);
        assert(!text::is_white_space(a[a.len() - 1]));
        if a.len() >= 2 {
            assert(!text::is_white_space(a[a.len() - 2]));
        }
        assert(front.push(a.last()) =~= a);
    } else {
        assert(single_spaced(a) =~= a);
    }
}

proof fn lemma_parts_are_joined(a: Seq<char>, gap: char, b: Seq<char>)
    requires
        text::is_white_space(gap),
    ensures
        single_spaced(a.push(gap) + b) == if single_spaced(a).len() > 0 && single_spaced(b).len()
            > 0 {
            single_spaced(a).push(' ') + single_spaced(b)
        } else {
            single_spaced(a) + single_spaced(b)
        },
    decreases b.len(),
{
    let whole = a.push(gap) + b;
    let none = Seq::<char>::empty();
    if b.len() == 0 {
        assert(whole =~= a.push(gap));
        assert(a.push(gap).drop_last() =~= a);
        assert(single_spaced(b) =~= none);
        assert(single_spaced(a) + none =~= single_spaced(a));
    } else {
        let front = b.drop_last();
        lemma_parts_are_joined(a, gap, front);
        assert(whole.drop_last() =~= a.push(gap) + front);
        assert(whole.last() == b.last());
        if b.len() == 1 {
            assert(whole[whole.len() - 2] == gap);
            assert(single_spaced(front) =~= none);
        } else {
            assert(whole[whole.len() - 2] == b[b.len() - 2]);
        }
        let (x, y) = (single_spaced(a), single_spaced(front));
        assert(x + none =~= x);
        assert(none + y =~= y);
        if !text::is_white_space(b.last()) {
            if y.len() == 0 && b.len() > 1 {
                lemma_nothing_but_space(front);
                assert(text::is_white_space(front[b.len() - 2]));
            }
            assert(single_spaced(whole) =~= if x.len() > 0 {
                x.push(' ') + single_spaced(b)
            } else {
                x + single_spaced(b)
            });
        }
    }
}

proof fn lemma_nothing_but_space(s: Seq<char>)
    requires
        single_spaced(s).len() == 0,
    ensures
        forall|i: int| 0 <= i < s.len() ==> text::is_white_space(#[trigger] s[i]),
    decreases s.len(),
{
    if s.len() > 0 {
        let front = s.drop_last();
        lemma_nothing_but_space(front);
        assert forall|i: int| 0 <= i < s.len() implies text::is_white_space(#[trigger] s[i]) by {
            if i < front.len() {
                assert(front[i] == s[i]);
            }
        }
    }
}

/// The name in a comment is the words of the device's name up to its eightieth
/// character; a device without a word in its name is an unnamed mouse.
pub proof fn law_a_name_is_cut_not_changed(name: Seq<char>)
    ensures
        ({
            let words = single_spaced(printable(name));
            &&& words.len() > 0 ==> text::begins_with(words, cleaned(name))
            &&& 0 < words.len() <= 80 ==> cleaned(name) == words
            &&& words.len() > 80 ==> cleaned(name).len() == 80
            &&& words.len() == 0 ==> cleaned(name) == "unnamed mouse"@
        }),
        (forall|i: int|
            0 <= i < name.len() ==> text::is_white_space(#[trigger] name[i]) || text::is_control(
                name[i],
            )) ==> cleaned(name) == "unnamed mouse"@,
{
    let words = single_spaced(printable(name));
    assert(words.take(words.len() as int) =~= words);
    if forall|i: int|
        0 <= i < name.len() ==> text::is_white_space(#[trigger] name[i]) || text::is_control(
            name[i],
        ) {
        let plain = printable(name);
        assert forall|i: int| 0 <= i < plain.len() implies text::is_white_space(
            #[trigger] plain[i],
        ) by {
            assert(text::is_white_space(name[i]) || text::is_control(name[i]));
        }
        lemma_leading_space(plain);
    }
}

/// A further device joins the list exactly when none before it has both its ids.
pub proof fn law_the_first_of_each_mouse_is_kept(devices: Seq<MouseDevice>, d: MouseDevice)
    ensures
        distinct(Seq::empty()).len() == 0,
        distinct(devices.push(d)) == if (exists|i: int|
            0 <= i < devices.len() && (#[trigger] devices[i]).vendor@ == d.vendor@
                && devices[i].product@ == d.product@) {
            distinct(devices)
        } else {
            distinct(devices).push(d)
        },
{
    assert(devices.push(d).drop_last() =~= devices);
    law_each_mouse_is_listed_once(devices);
    lemma_kept_ones_were_given(devices);
    if exists|i: int|
        0 <= i < devices.len() && (#[trigger] devices[i]).vendor@ == d.vendor@
            && devices[i].product@ == d.product@ {
        let i = choose|i: int|
            0 <= i < devices.len() && (#[trigger] devices[i]).vendor@ == d.vendor@
                && devices[i].product@ == d.product@;
        assert(listed(distinct(devices), devices[i]));
        let k = choose|k: int|
            0 <= k < distinct(devices).len() && same_ids(
                #[trigger] distinct(devices)[k],
                devices[i],
            );
        assert(same_ids(distinct(devices)[k], d));
    }
    if listed(distinct(devices), d) {
        let k = choose|k: int|
            0 <= k < distinct(devices).len() && same_ids(#[trigger] distinct(devices)[k], d);
        let i = choose|i: int| 0 <= i < devices.len() && devices[i] == distinct(devices)[k];
        assert(devices[i].vendor@ == d.vendor@);
    }
}

proof fn lemma_kept_ones_were_given(devices: Seq<MouseDevice>)
    ensures
        forall|k: int|
            0 <= k < distinct(devices).len() ==> devices.contains(#[trigger] distinct(devices)[k]),
    decreases devices.len(),
{
    if devices.len() > 0 {
        let front = devices.drop_last();
        lemma_kept_ones_were_given(front);
        assert forall|k: int| 0 <= k < distinct(devices).len() implies devices.contains(
            #[trigger] distinct(devices)[k],
        ) by {
            if k < distinct(front).len() {
                assert(distinct(front)[k] == distinct(devices)[k]);
                let i = choose|i: int| 0 <= i < front.len() && front[i] == distinct(front)[k];
                assert(devices[i] == distinct(devices)[k]);
            } else {
                assert(devices[devices.len() - 1] == distinct(devices)[k]);
            }
        }
    }
}

/// An id is the four characters between the white space, in small letters, and is
/// accepted exactly when each is a hex digit.
pub proof fn law_an_id_is_four_hex_digits(value: Seq<char>)
    ensures
        ({
            let given = text::trimmed(value);
            &&& hex_id(value) is Some <==> given.len() == 4 && forall|i: int|
                0 <= i < 4 ==> '0' <= #[trigger] given[i] <= '9' || 'a' <= given[i] <= 'f' || 'A'
                    <= given[i] <= 'F'
            &&& hex_id(value) matches Some(id) ==> id.len() == 4 && forall|i: int|
                0 <= i < 4 ==> ('0' <= #[trigger] id[i] <= '9' || 'a' <= id[i] <= 'f') && id[i]
                    as int == if 'A' <= given[i] <= 'F' {
                    given[i] as int + 32
                } else {
                    given[i] as int
                }
        }),
{
    let given = text::trimmed(value);
    let id = text::ascii_lowered(given);
    assert forall|i: int| 0 <= i < given.len() implies id[i] == text::lower_char(given[i]) by {}
    if given.len() == 4 {
        if hex_id(value) is Some {
            assert forall|i: int| 0 <= i < 4 implies '0' <= #[trigger] given[i] <= '9' || 'a'
                <= given[i] <= 'f' || 'A' <= given[i] <= 'F' by {
                assert(text::is_hex(id[i]));
            }
        }
        if forall|i: int|
            0 <= i < 4 ==> '0' <= #[trigger] given[i] <= '9' || 'a' <= given[i] <= 'f' || 'A'
                <= given[i] <= 'F' {
            assert forall|i: int| 0 <= i < 4 implies text::is_hex(#[trigger] id[i]) by {
                assert('0' <= given[i] <= '9' || 'a' <= given[i] <= 'f' || 'A' <= given[i] <= 'F');
            }
        }
    }
}

/// The file grants each device once it is listed, after what it granted before.
pub proof fn law_a_rule_file_grows_by_one_device(devices: Seq<MouseDevice>, d: MouseDevice)
    ensures
        text::begins_with(rule_text(devices.push(d)), rule_text(devices)),
        text::finishes_with(rule_text(devices.push(d)), rule_line(d)),
        rule_text(devices.push(d)).len() - rule_text(devices).len() == "\n# "@.len() + cleaned(
            d.name@,
        ).len() + "\n"@.len() + rule_line(d).len(),
{
    assert(devices.push(d).drop_last() =~= devices);
    let whole = rule_text(devices.push(d));
    let before = rule_text(devices);
    assert(whole.take(before.len() as int) =~= before);
    assert(whole.skip(whole.len() - rule_line(d).len()) =~= rule_line(d));
}

/// The buttons asked for are those of the bindings that name one, in order, each
/// with the action of its binding.
pub proof fn law_each_button_keeps_its_action(bindings: Seq<(String, Action)>)
    ensures
        buttons(bindings) == bindings.filter(
            |b: (String, Action)| button_of(b.0@) is Some,
        ).map_values(|b: (String, Action)| (button_of(b.0@)->0, b.1)),
    decreases bindings.len(),
{
    reveal(Seq::filter);
    let keep = |b: (String, Action)| button_of(b.0@) is Some;
    let take = |b: (String, Action)| (button_of(b.0@)->0, b.1);
    if bindings.len() > 0 {
        let front = bindings.drop_last();
        law_each_button_keeps_its_action(front);
        if keep(bindings.last()) {
            assert(front.filter(keep).push(bindings.last()).map_values(take) =~= front.filter(
                keep,
            ).map_values(take).push(take(bindings.last())));
        }
    } else {
        assert(bindings.filter(keep).map_values(take) =~= Seq::empty());
    }
}

proof fn lemma_reported_is_filtered(wanted: Seq<(u16, Action)>, keys: Seq<u16>)
    ensures
        reported(wanted, keys) == wanted.filter(|w: (u16, Action)| keys.contains(w.0)),
    decreases wanted.len(),
{
    reveal(Seq::filter);
    if wanted.len() > 0 {
        lemma_reported_is_filtered(wanted.drop_last(), keys);
    }
}

/// On a mouse the wanted buttons that it has are heeded, all of them and in
/// order; on anything else none is.
pub proof fn law_a_mouse_is_heeded_for_the_buttons_it_has(
    wanted: Seq<(u16, Action)>,
    d: InputDevice,
)
    ensures
        d.keys is None ==> heeded(wanted, d).len() == 0,
        d.axes is None ==> heeded(wanted, d).len() == 0,
        d.keys matches Some(keys) ==> (d.axes matches Some(axes) ==> if mouse_only(
            keys@,
            Some(axes@),
        ) {
            heeded(wanted, d) == wanted.filter(|w: (u16, Action)| keys@.contains(w.0))
        } else {
            heeded(wanted, d).len() == 0
        }),
{
    if let Some(keys) = d.keys {
        lemma_reported_is_filtered(wanted, keys@);
    }
}

proof fn lemma_to_read(wanted: Seq<(u16, Action)>, devices: Seq<InputDevice>)
    ensures
        forall|k: int|
            #![trigger to_read(wanted, devices)[k]]
            0 <= k < to_read(wanted, devices).len() ==> 0 <= to_read(wanted, devices)[k]
                < devices.len(),
        forall|i: int, j: int|
            0 <= i < j < to_read(wanted, devices).len() ==> #[trigger] to_read(wanted, devices)[i]
                < #[trigger] to_read(wanted, devices)[j],
        forall|n: int|
            0 <= n < devices.len() ==> (#[trigger] to_read(wanted, devices).contains(n) <==> heeded(
                wanted,
                devices[n],
            ).len() > 0),
    decreases devices.len(),
{
    if devices.len() > 0 {
        let front = devices.drop_last();
        lemma_to_read(wanted, front);
        let (before, after) = (to_read(wanted, front), to_read(wanted, devices));
        let n0 = devices.len() - 1;
        assert forall|n: int| 0 <= n < devices.len() implies (#[trigger] after.contains(n)
            <==> heeded(wanted, devices[n]).len() > 0) by {
            if n < front.len() {
                assert(front[n] == devices[n]);
                assert(before.contains(n) <==> heeded(wanted, front[n]).len() > 0);
                if before.contains(n) {
                    let k = choose|k: int| 0 <= k < before.len() && before[k] == n;
                    assert(after[k] == n);
                }
                if after.contains(n) {
                    let k = choose|k: int| 0 <= k < after.len() && after[k] == n;
                    if k < before.len() {
                        assert(before[k] == n);
                    }
                }
            } else {
                if heeded(wanted, devices.last()).len() > 0 {
                    assert(after[before.len() as int] == n0);
                } else if after.contains(n) {
                    let k = choose|k: int| 0 <= k < before.len() && before[k] == n;
                    assert(before[k] < front.len());
                }
            }
        }
    }
}

/// Each device with a button to heed has one reader, and no other device has one;
/// the readers stand in the order of their devices.
pub proof fn law_each_device_to_heed_has_one_reader(
    readers: Seq<Reader>,
    wanted: Seq<(u16, Action)>,
    devices: Seq<InputDevice>,
    n: int,
)
    requires
        are_readers(readers, wanted, devices),
        0 <= n < devices.len(),
    ensures
        heeded(wanted, devices[n]).len() > 0 <==> exists|i: int|
            0 <= i < readers.len() && (#[trigger] readers[i]).device == n,
        forall|i: int|
            0 <= i < readers.len() && (#[trigger] readers[i]).device == n ==> readers[i].codes@
                == heeded(wanted, devices[n]),
        forall|i: int, j: int|
            0 <= i < j < readers.len() ==> (#[trigger] readers[i]).device
                < (#[trigger] readers[j]).device,
{
    lemma_to_read(wanted, devices);
    let places = to_read(wanted, devices);
    assert(places.contains(n) <==> heeded(wanted, devices[n]).len() > 0);
    if places.contains(n) {
        let k = choose|k: int| 0 <= k < places.len() && places[k] == n;
        assert(readers[k].device == n);
    }
    if exists|i: int| 0 <= i < readers.len() && (#[trigger] readers[i]).device == n {
        let i = choose|i: int| 0 <= i < readers.len() && (#[trigger] readers[i]).device == n;
        assert(places[i] == n);
    }
    assert forall|i: int, j: int| 0 <= i < j < readers.len() implies (#[trigger] readers[i]).device
        < (#[trigger] readers[j]).device by {
        assert(places[i] < places[j]);
    }
}

proof fn lemma_started_is_counted(opened: Seq<bool>)
    ensures
        started(opened) == opened.filter(|b: bool| b).len(),
        started(opened) <= opened.len(),
        started(opened) == 0 <==> forall|i: int| 0 <= i < opened.len() ==> !#[trigger] opened[i],
    decreases opened.len(),
{
    reveal(Seq::filter);
    if opened.len() > 0 {
        let front = opened.drop_last();
        lemma_started_is_counted(front);
        if started(opened) == 0 {
            assert forall|i: int| 0 <= i < opened.len() implies !#[trigger] opened[i] by {
                if i < front.len() {
                    assert(!front[i]);
                }
            }
        }
        if forall|i: int| 0 <= i < opened.len() ==> !#[trigger] opened[i] {
            assert forall|i: int| 0 <= i < front.len() implies !#[trigger] front[i] by {
                assert(!opened[i]);
            }
            assert(!opened[opened.len() - 1]);
        }
    }
}

/// Whether a device's identity is that of a reader that did not start.
pub open spec fn was_refused(
    d: MouseDevice,
    readers: Seq<Reader>,
    opened: Seq<bool>,
    devices: Seq<InputDevice>,
) -> bool {
    exists|i: int|
        0 <= i < opened.len() && !#[trigger] opened[i] && d
            == devices[readers[i].device as int].identity
}

/// Whether a device's identity is that of a reader that did not start and that
/// heeds a button.
pub open spec fn was_refused_with(
    d: MouseDevice,
    code: u16,
    readers: Seq<Reader>,
    opened: Seq<bool>,
    devices: Seq<InputDevice>,
) -> bool {
    exists|i: int|
        0 <= i < opened.len() && !#[trigger] opened[i] && d
            == devices[readers[i].device as int].identity && exists|k: int|
            0 <= k < readers[i].codes@.len() && (#[trigger] readers[i].codes@[k]).0 == code
}

proof fn lemma_who_was_refused(
    code: u16,
    readers: Seq<Reader>,
    opened: Seq<bool>,
    devices: Seq<InputDevice>,
    d: MouseDevice,
)
    requires
        opened.len() <= readers.len(),
    ensures
        refused(readers, opened, devices).contains(d) <==> was_refused(
            d,
            readers,
            opened,
            devices,
        ),
        refused_with(code, readers, opened, devices).contains(d) <==> was_refused_with(
            d,
            code,
            readers,
            opened,
            devices,
        ),
    decreases opened.len(),
{
    if opened.len() > 0 {
        let front = opened.drop_last();
        let last = opened.len() - 1;
        lemma_who_was_refused(code, readers, front, devices, d);
        law_only_bound_buttons_act(readers[last].codes@, code);
        let (a0, a1) = (refused(readers, front, devices), refused(readers, opened, devices));
        let (b0, b1) = (
            refused_with(code, readers, front, devices),
            refused_with(code, readers, opened, devices),
        );
        let it = devices[readers[last].device as int].identity;
        lemma_contains_after_push(a0, it, d);
        lemma_contains_after_push(b0, it, d);
        if was_refused(d, readers, front, devices) {
            let i = choose|i: int|
                0 <= i < front.len() && !#[trigger] front[i] && d
                    == devices[readers[i].device as int].identity;
            assert(!opened[i]);
        }
        if was_refused(d, readers, opened, devices) {
            let i = choose|i: int|
                0 <= i < opened.len() && !#[trigger] opened[i] && d
                    == devices[readers[i].device as int].identity;
            if i < last {
                assert(!front[i]);
            }
        }
        if was_refused_with(d, code, readers, front, devices) {
            let i = choose|i: int|
                0 <= i < front.len() && !#[trigger] front[i] && d
                    == devices[readers[i].device as int].identity && exists|k: int|
                    0 <= k < readers[i].codes@.len() && (#[trigger] readers[i].codes@[k]).0
                        == code;
            assert(!opened[i]);
        }
        if was_refused_with(d, code, readers, opened, devices) {
            let i = choose|i: int|
                0 <= i < opened.len() && !#[trigger] opened[i] && d
                    == devices[readers[i].device as int].identity && exists|k: int|
                    0 <= k < readers[i].codes@.len() && (#[trigger] readers[i].codes@[k]).0
                        == code;
            if i < last {
                assert(!front[i]);
            }
        }
        assert(!opened.last() ==> !opened[last]);
    }
}

proof fn lemma_contains_after_push(s: Seq<MouseDevice>, x: MouseDevice, d: MouseDevice)
    ensures
        s.push(x).contains(d) <==> s.contains(d) || d == x,
{
    if s.contains(d) {
        let i = choose|i: int| 0 <= i < s.len() && s[i] == d;
        assert(s.push(x)[i] == d);
    }
    assert(s.push(x)[s.len() as int] == x);
    if s.push(x).contains(d) {
        let i = choose|i: int| 0 <= i < s.push(x).len() && s.push(x)[i] == d;
        if i < s.len() {
            assert(s[i] == d);
        }
    }
}

/// A grab works when any reader started, and says how many did. When none did,
/// each device that a reader was refused on and each that could not be opened is
/// named, by its ids, and no other; without any there is no device.
pub proof fn law_how_a_grab_ends(
    o: GrabOutcome,
    readers: Seq<Reader>,
    opened: Seq<bool>,
    devices: Seq<InputDevice>,
    unreadable: Seq<MouseDevice>,
    d: MouseDevice,
)
    requires
        opened.len() == readers.len(),
        opened.len() <= usize::MAX,
        concludes(o, readers, opened, devices, unreadable),
    ensures
        o is Active <==> exists|i: int| 0 <= i < opened.len() && #[trigger] opened[i],
        o matches GrabOutcome::Active { devices: n } ==> n == opened.filter(|b: bool| b).len(),
        o is Active || o is NoPermission || o is NoDevice,
        o is NoDevice ==> opened.len() == 0 && unreadable.len() == 0,
        o matches GrabOutcome::NoPermission { devices: named } ==> {
            &&& was_refused(d, readers, opened, devices) || unreadable.contains(d) ==> listed(
                named@,
                d,
            )
            &&& named@.contains(d) ==> was_refused(d, readers, opened, devices)
                || unreadable.contains(d)
        },
{
    lemma_started_is_counted(opened);
    lemma_who_was_refused(0, readers, opened, devices, d);
    lemma_named(refused(readers, opened, devices), unreadable, d);
    if o is NoDevice {
        let all = refused(readers, opened, devices) + unreadable;
        law_each_mouse_is_listed_once(all);
        if all.len() > 0 {
            assert(listed(distinct(all), all[0]));
        }
        if opened.len() > 0 {
            let it = devices[readers[0].device as int].identity;
            assert(!opened[0]);
            lemma_who_was_refused(0, readers, opened, devices, it);
            assert(was_refused(it, readers, opened, devices));
        }
    }
}

proof fn lemma_named(a: Seq<MouseDevice>, b: Seq<MouseDevice>, d: MouseDevice)
    ensures
        a.contains(d) || b.contains(d) ==> listed(distinct(a + b), d),
        distinct(a + b).contains(d) ==> a.contains(d) || b.contains(d),
{
    let all = a + b;
    law_each_mouse_is_listed_once(all);
    lemma_kept_ones_were_given(all);
    if a.contains(d) {
        let i = choose|i: int| 0 <= i < a.len() && a[i] == d;
        assert(all[i] == d);
    }
    if b.contains(d) {
        let i = choose|i: int| 0 <= i < b.len() && b[i] == d;
        assert(all[a.len() + i] == d);
    }
    if distinct(all).contains(d) {
        let k = choose|k: int| 0 <= k < distinct(all).len() && distinct(all)[k] == d;
        let i = choose|i: int| 0 <= i < all.len() && all[i] == distinct(all)[k];
        if i < a.len() {
            assert(a[i] == d);
        } else {
            assert(b[i - a.len()] == d);
        }
    }
}

/// A button acts as the first binding with its code says.
pub proof fn law_the_first_binding_of_a_button_acts(codes: Seq<(u16, Action)>, code: u16, i: int)
    requires
        0 <= i < codes.len(),
        codes[i].0 == code,
        forall|k: int| 0 <= k < i ==> (#[trigger] codes[k]).0 != code,
    ensures
        bound_action(codes, code) == Some(codes[i].1),
    decreases codes.len(),
{
    if i > 0 {
        let rest = codes.skip(1);
        assert(codes[0].0 != code);
        assert forall|k: int| 0 <= k < i - 1 implies (#[trigger] rest[k]).0 != code by {
            assert(codes[k + 1].0 != code);
        }
        law_the_first_binding_of_a_button_acts(rest, code, i - 1);
    }
}

/// A binding is read exactly when a reader that started heeds the button it
/// names.
pub proof fn law_what_it_takes_to_be_read(
    accelerator: Seq<char>,
    readers: Seq<Reader>,
    opened: Seq<bool>,
)
    ensures
        is_read(accelerator, readers, opened) <==> exists|i: int, k: int|
            0 <= i < readers.len() && opened[i] && 0 <= k < readers[i].codes@.len() && button_of(
                accelerator,
            ) == Some((#[trigger] readers[i].codes@[k]).0),
{
    if is_read(accelerator, readers, opened) {
        let code = button_of(accelerator)->0;
        let i = choose|i: int|
            0 <= i < readers.len() && opened[i] && button_of(accelerator) is Some && bound_action(
                (#[trigger] readers[i]).codes@,
                button_of(accelerator)->0,
            ) is Some;
        law_only_bound_buttons_act(readers[i].codes@, code);
        let k = choose|k: int|
            0 <= k < readers[i].codes@.len() && (#[trigger] readers[i].codes@[k]).0 == code;
        assert(button_of(accelerator) == Some(readers[i].codes@[k].0));
    }
    if exists|i: int, k: int|
        0 <= i < readers.len() && opened[i] && 0 <= k < readers[i].codes@.len() && button_of(
            accelerator,
        ) == Some((#[trigger] readers[i].codes@[k]).0) {
        let (i, k) = choose|i: int, k: int|
            0 <= i < readers.len() && opened[i] && 0 <= k < readers[i].codes@.len() && button_of(
                accelerator,
            ) == Some((#[trigger] readers[i].codes@[k]).0);
        law_only_bound_buttons_act(readers[i].codes@, button_of(accelerator)->0);
        assert(bound_action(readers[i].codes@, button_of(accelerator)->0) is Some);
    }
}

/// What is told of one binding. Where nothing can be read, that; otherwise a
/// modifier is the reason if there is one; otherwise a binding shares what became
/// of the whole, except that where others are read and it is not, exactly the
/// devices that were refused with its button, or could not be opened, are named.
pub proof fn law_each_binding_is_told_its_own_reason(
    o: GrabOutcome,
    accelerator: Seq<char>,
    readers: Seq<Reader>,
    opened: Seq<bool>,
    devices: Seq<InputDevice>,
    unreadable: Seq<MouseDevice>,
    whole: GrabOutcome,
    d: MouseDevice,
)
    requires
        opened.len() == readers.len(),
        is_own_outcome(o, accelerator, readers, opened, devices, unreadable, whole),
    ensures
        o is Unsupported <==> whole is Unsupported,
        o is Modified <==> !(whole is Unsupported) && accelerator.contains('+'),
        o is Active ==> o == whole,
        whole is NoDevice || whole is Modified ==> o is NoDevice || o is Modified,
        whole matches GrabOutcome::NoPermission { devices: blocked } ==> o is Modified || (
        o matches GrabOutcome::NoPermission { devices: named } && named@ == blocked@),
        whole is Active && !accelerator.contains('+') && !is_read(accelerator, readers, opened)
            ==> match button_of(accelerator) {
            None => o is NoDevice,
            Some(code) => {
                &&& was_refused_with(d, code, readers, opened, devices) || unreadable.contains(d)
                    ==> (o matches GrabOutcome::NoPermission { devices: named } && listed(
                    named@,
                    d,
                ))
                &&& o matches GrabOutcome::NoPermission { devices: named } ==> named@.len() > 0 && (
                named@.contains(d) ==> was_refused_with(d, code, readers, opened, devices)
                    || unreadable.contains(d))
                &&& o is NoPermission || o is NoDevice
            },
        },
{
    if let Some(code) = button_of(accelerator) {
        lemma_who_was_refused(code, readers, opened, devices, d);
        lemma_named(refused_with(code, readers, opened, devices), unreadable, d);
    }
}

/// Only a grab that works needs no word, and every other outcome has words of its
/// own.
pub proof fn law_only_a_working_grab_needs_no_word(o: GrabOutcome)
    ensures
        explanation(o) is None <==> o is Active,
        o matches GrabOutcome::NoPermission { devices } ==> text::holds(
            explanation(o)->0,
            "Found "@ + text::digits(devices@.len()),
        ),
        o is NoDevice ==> text::begins_with(
            explanation(o)->0,
            "No mouse reporting that button was found."@,
        ),
        o is Modified ==> text::begins_with(
            explanation(o)->0,
            "A mouse binding with modifiers only works while Pickle is focused"@,
        ),
{
    reveal_strlit("No mouse reporting that button was found.");
    reveal_strlit("No mouse reporting that button was found. It works while Pickle is focused.");
    reveal_strlit("A mouse binding with modifiers only works while Pickle is focused");
    reveal_strlit(
        "A mouse binding with modifiers only works while Pickle is focused: checking whether a modifier is held would mean reading your keyboard, which this app deliberately does not do.",
    );
    match o {
        GrabOutcome::NoPermission { devices } => {
            let s = explanation(o)->0;
            let one = "Found "@ + text::digits(devices@.len());
            text::lemma_holds(s, Seq::empty(), one, s.skip(one.len() as int));
        },
        GrabOutcome::NoDevice => {
            let (s, t) = (explanation(o)->0, "No mouse reporting that button was found."@);
            assert(s.take(t.len() as int) =~= t);
        },
        GrabOutcome::Modified => {
            let (s, t) = (
                explanation(o)->0,
                "A mouse binding with modifiers only works while Pickle is focused"@,
            );
            assert(s.take(t.len() as int) =~= t);
        },
        _ => {},
    }
}

/// One binding with a modifier is enough, wherever it stands.
pub proof fn law_one_modifier_is_enough(a: Seq<(String, Action)>, one: (String, Action))
    ensures
        !some_modified(Seq::empty()),
        some_modified(a.push(one)) <==> some_modified(a) || one.0@.contains('+'),
{
    let all = a.push(one);
    if some_modified(a) {
        let i = choose|i: int| 0 <= i < a.len() && (#[trigger] a[i]).0@.contains('+');
        assert(all[i].0@.contains('+'));
    }
    if one.0@.contains('+') {
        assert(all[a.len() as int].0@.contains('+'));
    }
    if some_modified(all) {
        let i = choose|i: int| 0 <= i < all.len() && (#[trigger] all[i]).0@.contains('+');
        if i < a.len() {
            assert(a[i].0@.contains('+'));
        }
    }
}

/// A press and its release are of the same action, the press held and the release
/// not; a repeat is neither.
pub proof fn law_a_press_is_released_again(
    codes: &[(u16, Action)],
    code: u16,
    value: i32,
    down: Option<(Action, bool)>,
    up: Option<(Action, bool)>,
    other: Option<(Action, bool)>,
)
    requires
        call_ensures(button_event, (codes, code, 1i32), down),
        call_ensures(button_event, (codes, code, 0i32), up),
        call_ensures(button_event, (codes, code, value), other),
    ensures
        down is Some <==> up is Some,
        down matches Some(d) ==> d.1 && up == Some((d.0, false)),
        value != 0 && value != 1 ==> other is None,
        down matches Some(d) ==> bound_action(codes@, code) == Some(d.0),
{
}
} // verus!
