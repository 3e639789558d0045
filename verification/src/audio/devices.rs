//! Selecting audio hardware.
//!
//! Devices are referred to by name rather than by index. Indices shift when a
//! headset is unplugged, which would move a user's microphone selection to a
//! different device.

use crate::proto::voice::SAMPLE_RATE;
use crate::text;
use vstd::prelude::*;

verus! {

#[derive(Debug, Clone, Copy, PartialEq, Eq, Structural)]
pub enum DeviceKind {
    Input,
    Output,
}

/// The word for a kind of device.
pub open spec fn kind_word(kind: DeviceKind) -> Seq<char> {
    match kind {
        DeviceKind::Input => "input"@,
        DeviceKind::Output => "output"@,
    }
}

impl DeviceKind {
    pub fn label(self) -> (s: &'static str)
        ensures
            s@ == kind_word(self),
    {
        match self {
            DeviceKind::Input => "input",
            DeviceKind::Output => "output",
        }
    }
}

/// How a device encodes samples, as far as it matters here.
#[derive(Debug, Clone, Copy, PartialEq, Eq, Structural)]
pub enum SampleFormat {
    F32,
    I16,
    /// Anything that cannot be read.
    Other,
}

/// A configuration that a device offers: a span of rates in one format.
#[derive(Debug, Clone, Copy, PartialEq, Eq, Structural)]
pub struct ConfigRange {
    pub channels: u16,
    pub min_sample_rate: u32,
    pub max_sample_rate: u32,
    pub sample_format: SampleFormat,
}

/// A device as it was found: what could be asked of it and what it answered.
#[derive(Debug)]
pub struct FoundDevice {
    /// `None` for a device that went away before it could be asked.
    pub name: Option<String>,
    /// `None` for a device that could not be queried.
    pub configs: Option<Vec<ConfigRange>>,
}

#[derive(Debug, Clone, PartialEq, Eq)]
pub struct DeviceInfo {
    pub name: String,
    pub kind: DeviceKind,
    /// True for the system default, which is what a list should preselect.
    pub is_default: bool,
    /// False only when the device reports no format that can be read. One that
    /// could not be queried stays usable: greying out a microphone whose driver
    /// was busy for a moment is the worse of the two mistakes.
    pub usable: bool,
    /// The rate the device would be opened at, if known.
    pub sample_rate: Option<u32>,
}

#[derive(Debug, PartialEq, Eq)]
pub enum DeviceError {
    NoDevice(DeviceKind),
    NotFound { kind: DeviceKind, name: String },
    UnsupportedFormat { name: String },
    Enumeration(String),
}

/// The sentence of a device error.
pub open spec fn device_sentence(e: DeviceError) -> Seq<char> {
    match e {
        DeviceError::NoDevice(kind) => "no "@ + kind_word(kind) + " device is available"@,
        DeviceError::NotFound { kind, name } => "no "@ + kind_word(kind) + " device named "@
            + text::quoted_text(name@),
        DeviceError::UnsupportedFormat { name } => name@
            + " offers no 16-bit or floating point format, which Pickle needs"@,
        DeviceError::Enumeration(why) => "querying audio devices: "@ + why@,
    }
}

impl DeviceError {
    pub fn message(&self) -> (s: String)
        ensures
            s@ == device_sentence(*self),
    {
        match self {
            DeviceError::NoDevice(kind) => {
                let head = text::join("no ", kind.label());
                text::join(head.as_str(), " device is available")
            },
            DeviceError::NotFound { kind, name } => {
                let head = text::join("no ", kind.label());
                let named = text::join(head.as_str(), " device named ");
                let shown = text::quoted(name.as_str());
                text::join(named.as_str(), shown.as_str())
            },
            DeviceError::UnsupportedFormat { name } => text::join(
                name.as_str(),
                " offers no 16-bit or floating point format, which Pickle needs",
            ),
            DeviceError::Enumeration(why) => text::join("querying audio devices: ", why.as_str()),
        }
    }
}

impl DeviceInfo {
    /// Whether audio would pass through a rate conversion on this device.
    pub fn needs_resampling(&self) -> (r: bool)
        ensures
            r == (self.sample_rate is Some && self.sample_rate->0 != SAMPLE_RATE),
    {
        match self.sample_rate {
            Some(rate) => rate != SAMPLE_RATE,
            None => false,
        }
    }
}

/// Whether a configuration's samples can be read.
pub open spec fn readable(c: ConfigRange) -> bool {
    c.sample_format == SampleFormat::F32 || c.sample_format == SampleFormat::I16
}

/// The rate of a span that is nearest to 48 kHz.
pub open spec fn nearest_rate(c: ConfigRange) -> u32 {
    if SAMPLE_RATE < c.min_sample_rate {
        c.min_sample_rate
    } else if SAMPLE_RATE > c.max_sample_rate {
        c.max_sample_rate
    } else {
        SAMPLE_RATE
    }
}

/// How far a rate is from 48 kHz.
pub open spec fn off_rate(rate: u32) -> int {
    if rate < SAMPLE_RATE {
        SAMPLE_RATE - rate
    } else {
        rate - SAMPLE_RATE
    }
}

/// Whether `a` is strictly the better choice. The closest rate wins, which keeps
/// the conversion ratio small; ties go to the higher rate, since discarding
/// bandwidth is better than inventing it, and then to fewer channels, since only
/// one is used.
pub open spec fn preferable(a: ConfigRange, b: ConfigRange) -> bool {
    let (ra, rb) = (nearest_rate(a), nearest_rate(b));
    off_rate(ra) < off_rate(rb) || (off_rate(ra) == off_rate(rb) && (ra > rb || (ra == rb
        && a.channels < b.channels)))
}

/// `i` is the best readable configuration, the first of equals.
pub open spec fn is_choice(configs: Seq<ConfigRange>, i: int) -> bool {
    &&& 0 <= i < configs.len()
    &&& readable(configs[i])
    &&& forall|j: int|
        0 <= j < configs.len() && readable(configs[j]) ==> !preferable(configs[j], configs[i])
    &&& forall|j: int|
        0 <= j < i && readable(configs[j]) ==> preferable(configs[i], configs[j])
}

/// Whether the spans that can be read are spans at all.
pub open spec fn spans(configs: Seq<ConfigRange>) -> bool {
    forall|i: int|
        0 <= i < configs.len() && readable(configs[i]) ==> configs[i].min_sample_rate
            <= configs[i].max_sample_rate
}

fn can_read(c: &ConfigRange) -> (r: bool)
    ensures
        r == readable(*c),
{
    match c.sample_format {
        SampleFormat::F32 => true,
        SampleFormat::I16 => true,
        SampleFormat::Other => false,
    }
}

fn rate_of(c: &ConfigRange) -> (r: u32)
    ensures
        r == nearest_rate(*c),
{
    if SAMPLE_RATE < c.min_sample_rate {
        c.min_sample_rate
    } else if SAMPLE_RATE > c.max_sample_rate {
        c.max_sample_rate
    } else {
        SAMPLE_RATE
    }
}

fn distance(rate: u32) -> (d: u32)
    ensures
        d == off_rate(rate),
{
    if rate < SAMPLE_RATE {
        SAMPLE_RATE - rate
    } else {
        rate - SAMPLE_RATE
    }
}

fn prefers(a: &ConfigRange, b: &ConfigRange) -> (r: bool)
    ensures
        r == preferable(*a, *b),
{
    let ra: u32 = rate_of(a);
    let rb: u32 = rate_of(b);
    let da: u32 = distance(ra);
    let db: u32 = distance(rb);
    da < db || (da == db && (ra > rb || (ra == rb && a.channels < b.channels)))
}

/// The place of the configuration to open a device with.
pub fn choose_index(configs: &[ConfigRange]) -> (r: Option<usize>)
    ensures
        r matches Some(i) ==> is_choice(configs@, i as int),
        r is None <==> forall|j: int| 0 <= j < configs@.len() ==> !readable(configs@[j]),
{
    let mut best: Option<usize> = None;
    let mut i: usize = 0;
    while i < configs.len()
        invariant
            i <= configs.len(),
            best is None ==> forall|j: int| 0 <= j < i ==> !readable(configs@[j]),
            best matches Some(b) ==> is_choice(configs@.take(i as int), b as int),
        decreases configs.len() - i,
    {
        proof {
            let next = configs@.take(i + 1);
            assert forall|j: int| 0 <= j < i implies next[j] == configs@.take(i as int)[j] by {}
            assert(next[i as int] == configs@[i as int]);
        }
        if can_read(&configs[i]) {
            match best {
                None => {
                    best = Some(i);
                    assert(is_choice(configs@.take(i + 1), i as int));
                },
                Some(b) => {
                    let better = prefers(&configs[i], &configs[b]);
                    if better {
                        best = Some(i);
                        assert(is_choice(configs@.take(i + 1), i as int));
                    } else {
                        assert(is_choice(configs@.take(i + 1), b as int));
                    }
                },
            }
        } else {
            assert(best matches Some(b) ==> is_choice(configs@.take(i + 1), b as int));
        }
        i = i + 1;
    }
    proof {
        assert(configs@.take(i as int) =~= configs@);
        if let Some(b) = best {
            assert(readable(configs@[b as int]));
        }
    }
    best
}

/// Pick the configuration to open a device with, and the rate to open it at.
pub fn choose_config(configs: &[ConfigRange]) -> (r: Option<(ConfigRange, u32)>)
    requires
        spans(configs@),
    ensures
        r matches Some((c, rate)) ==> rate == nearest_rate(c) && c.min_sample_rate <= rate
            <= c.max_sample_rate && exists|i: int|
            is_choice(configs@, i) && c == #[trigger] configs@[i],
        r is None <==> forall|j: int| 0 <= j < configs@.len() ==> !readable(configs@[j]),
{
    match choose_index(configs) {
        Some(i) => {
            let c: ConfigRange = configs[i];
            assert(is_choice(configs@, i as int) && c == configs@[i as int]);
            Some((c, rate_of(&c)))
        },
        None => None,
    }
}

/// At most one place is the choice.
pub proof fn law_the_choice_is_unique(configs: Seq<ConfigRange>, i: int, j: int)
    requires
        is_choice(configs, i),
        is_choice(configs, j),
    ensures
        i == j,
{
}

/// 48 kHz is taken wherever a readable format offers it.
pub proof fn law_the_native_rate_wins(configs: Seq<ConfigRange>, i: int, j: int)
    requires
        is_choice(configs, i),
        0 <= j < configs.len(),
        readable(configs[j]),
        configs[j].min_sample_rate <= SAMPLE_RATE <= configs[j].max_sample_rate,
    ensures
        nearest_rate(configs[i]) == SAMPLE_RATE,
{
    assert(!preferable(configs[j], configs[i]));
}

/// Whether a device found under this name is the one wanted.
pub open spec fn bears(name: Option<String>, wanted: Seq<char>) -> bool {
    name is Some && (name->0)@ == wanted
}

/// The device at `i` is the first to bear a name. A name stands for that device,
/// and for no other that bears it too.
pub open spec fn stands_for(found: Seq<FoundDevice>, name: Seq<char>, i: int) -> bool {
    &&& 0 <= i < found.len()
    &&& bears(found[i].name, name)
    &&& forall|j: int| 0 <= j < i ==> !bears((#[trigger] found[j]).name, name)
}

/// What a list says of the device found at `i`.
pub open spec fn describes(
    info: DeviceInfo,
    found: Seq<FoundDevice>,
    i: int,
    kind: DeviceKind,
    default_name: Option<Seq<char>>,
) -> bool {
    &&& found[i].name is Some
    &&& info.name@ == (found[i].name->0)@
    &&& info.kind == kind
    &&& info.is_default <==> default_name == Some(info.name@) && stands_for(found, info.name@, i)
    &&& match found[i].configs {
        None => info.usable && info.sample_rate is None,
        Some(configs) => {
            &&& info.usable <==> exists|j: int|
                0 <= j < configs@.len() && readable(#[trigger] configs@[j])
            &&& info.usable <==> info.sample_rate is Some
            &&& info.usable ==> exists|c: int| is_choice(configs@, c) && info.sample_rate == Some(
                nearest_rate(#[trigger] configs@[c]),
            )
        },
    }
}

/// The places of the devices that have a name, in order.
pub open spec fn named(found: Seq<FoundDevice>) -> Seq<int>
    decreases found.len(),
{
    if found.len() == 0 {
        Seq::empty()
    } else if found.last().name is Some {
        named(found.drop_last()).push(found.len() - 1)
    } else {
        named(found.drop_last())
    }
}

/// A list of the devices found: one entry for each that has a name, in order.
pub open spec fn is_list(
    out: Seq<DeviceInfo>,
    found: Seq<FoundDevice>,
    kind: DeviceKind,
    default_name: Option<Seq<char>>,
) -> bool {
    &&& out.len() == named(found).len()
    &&& forall|k: int|
        0 <= k < out.len() ==> describes(
            #[trigger] out[k],
            found,
            named(found)[k],
            kind,
            default_name,
        )
}

proof fn lemma_named(found: Seq<FoundDevice>)
    ensures
        forall|i: int|
            0 <= i < named(found).len() ==> 0 <= #[trigger] named(found)[i] < found.len(),
    decreases found.len(),
{
    if found.len() > 0 {
        let before = named(found.drop_last());
        lemma_named(found.drop_last());
        assert forall|i: int| 0 <= i < named(found).len() implies 0 <= #[trigger] named(found)[i]
            < found.len() by {
            if i < before.len() {
                assert(named(found)[i] == before[i]);
            }
        }
    }
}

proof fn lemma_named_apart(found: Seq<FoundDevice>)
    ensures
        forall|i: int, j: int|
            0 <= i < j < named(found).len() ==> #[trigger] named(found)[i] < #[trigger] named(
                found,
            )[j],
        forall|i: int|
            0 <= i < named(found).len() ==> 0 <= #[trigger] named(found)[i] < found.len(),
    decreases found.len(),
{
    lemma_named(found);
    if found.len() > 0 {
        let before = named(found.drop_last());
        lemma_named_apart(found.drop_last());
        assert forall|i: int, j: int| 0 <= i < j < named(found).len() implies #[trigger] named(
            found,
        )[i] < #[trigger] named(found)[j] by {
            assert(named(found)[i] == before[i]);
            if j < before.len() {
                assert(named(found)[j] == before[j]);
            }
        }
    }
}

proof fn lemma_named_holds(found: Seq<FoundDevice>, i: int)
    requires
        0 <= i < found.len(),
        found[i].name is Some,
    ensures
        exists|k: int| 0 <= k < named(found).len() && #[trigger] named(found)[k] == i,
    decreases found.len(),
{
    let before = named(found.drop_last());
    if i < found.len() - 1 {
        lemma_named_holds(found.drop_last(), i);
        let k = choose|k: int| 0 <= k < before.len() && #[trigger] before[k] == i;
        assert(named(found)[k] == i);
    } else {
        assert(named(found)[named(found).len() - 1] == i);
    }
}

/// A name as a sequence of characters.
pub open spec fn name_view(name: Option<String>) -> Option<Seq<char>> {
    match name {
        None => None,
        Some(n) => Some(n@),
    }
}

fn describe(
    found: &Vec<FoundDevice>,
    i: usize,
    name: &String,
    kind: DeviceKind,
    default_name: &Option<String>,
    default_met: bool,
) -> (info: DeviceInfo)
    requires
        i < found@.len(),
        found@[i as int].name == Some(*name),
        found@[i as int].configs is Some ==> spans((found@[i as int].configs->0)@),
        default_met <==> default_name is Some && exists|j: int|
            0 <= j < i && bears((#[trigger] found@[j]).name, (default_name->0)@),
    ensures
        describes(info, found@, i as int, kind, name_view(*default_name)),
{
    let is_default = match default_name {
        Some(d) => !default_met && text::same(d.as_str(), name.as_str()),
        None => false,
    };
    let (usable, sample_rate) = match &found[i].configs {
        Some(configs) => match choose_config(configs.as_slice()) {
            Some((_, rate)) => (true, Some(rate)),
            None => (false, None),
        },
        None => (true, None),
    };
    DeviceInfo { name: name.clone(), kind, is_default, usable, sample_rate }
}

/// List the devices of one kind.
///
/// One that went away is skipped rather than failing the whole list: a broken
/// driver should not hide every other microphone.
pub fn list(
    kind: DeviceKind,
    default_name: &Option<String>,
    enumerated: Result<Vec<FoundDevice>, String>,
) -> (r: Result<Vec<DeviceInfo>, DeviceError>)
    requires
        enumerated matches Ok(found) ==> forall|i: int|
            0 <= i < found@.len() && (#[trigger] found@[i]).configs is Some ==> spans(
                (found@[i].configs->0)@,
            ),
    ensures
        enumerated matches Err(why) ==> r == Err::<Vec<DeviceInfo>, DeviceError>(
            DeviceError::Enumeration(why),
        ),
        enumerated matches Ok(found) ==> r is Ok && is_list(
            (r->Ok_0)@,
            found@,
            kind,
            name_view(*default_name),
        ),
{
    let found = match enumerated {
        Ok(found) => found,
        Err(why) => {
            return Err(DeviceError::Enumeration(why));
        },
    };
    let mut out: Vec<DeviceInfo> = Vec::new();
    let mut default_met = false;
    let mut i: usize = 0;
    while i < found.len()
        invariant
            i <= found.len(),
            enumerated == Ok::<Vec<FoundDevice>, String>(found),
            forall|j: int|
                0 <= j < found@.len() && (#[trigger] found@[j]).configs is Some ==> spans(
                    (found@[j].configs->0)@,
                ),
            default_met <==> default_name is Some && exists|j: int|
                0 <= j < i && bears((#[trigger] found@[j]).name, (default_name->0)@),
            out@.len() == named(found@.take(i as int)).len(),
            forall|j: int|
                0 <= j < out@.len() ==> describes(
                    #[trigger] out@[j],
                    found@,
                    named(found@.take(i as int))[j],
                    kind,
                    name_view(*default_name),
                ),
        decreases found.len() - i,
    {
        proof {
            assert(found@.take(i + 1).drop_last() =~= found@.take(i as int));
            assert(found@.take(i + 1).last() == found@[i as int]);
            lemma_named(found@.take(i as int));
        }
        if let Some(name) = &found[i].name {
            let info = describe(&found, i, name, kind, default_name, default_met);
            if info.is_default {
                default_met = true;
            }
            out.push(info);
        }
        i = i + 1;
    }
    proof {
        assert(found@.take(i as int) =~= found@);
    }
    Ok(out)
}

/// A list never shows a device as unusable and yet with a rate.
pub proof fn law_an_unusable_device_has_no_rate(
    out: Seq<DeviceInfo>,
    found: Seq<FoundDevice>,
    kind: DeviceKind,
    default_name: Option<Seq<char>>,
    k: int,
)
    requires
        is_list(out, found, kind, default_name),
        0 <= k < out.len(),
    ensures
        out[k].usable || out[k].sample_rate is None,
{
}

/// At most one device of a kind is listed as the default, even where several
/// bear its name.
pub proof fn law_at_most_one_device_is_the_default(
    out: Seq<DeviceInfo>,
    found: Seq<FoundDevice>,
    kind: DeviceKind,
    default_name: Option<Seq<char>>,
    a: int,
    b: int,
)
    requires
        is_list(out, found, kind, default_name),
        0 <= a < out.len(),
        0 <= b < out.len(),
        out[a].is_default,
        out[b].is_default,
    ensures
        a == b,
{
    lemma_named_apart(found);
    let (i, j) = (named(found)[a], named(found)[b]);
    assert(stands_for(found, out[a].name@, i));
    assert(stands_for(found, out[b].name@, j));
    if i < j {
        assert(!bears(found[i].name, out[b].name@));
    }
    if j < i {
        assert(!bears(found[j].name, out[a].name@));
    }
}

/// The default is listed as such whenever a device bears its name.
pub proof fn law_the_default_is_listed(
    out: Seq<DeviceInfo>,
    found: Seq<FoundDevice>,
    kind: DeviceKind,
    name: Seq<char>,
    i: int,
)
    requires
        is_list(out, found, kind, Some(name)),
        stands_for(found, name, i),
    ensures
        exists|k: int| 0 <= k < out.len() && (#[trigger] out[k]).is_default && out[k].name@ == name,
{
    lemma_named_holds(found, i);
    let k = choose|k: int| 0 <= k < named(found).len() && #[trigger] named(found)[k] == i;
    assert(describes(out[k], found, named(found)[k], kind, Some(name)));
    assert(out[k].is_default);
}

/// A listed device can be opened again by its name: some device bears it.
pub proof fn law_a_listed_device_can_be_reopened(
    out: Seq<DeviceInfo>,
    found: Seq<FoundDevice>,
    kind: DeviceKind,
    default_name: Option<Seq<char>>,
    k: int,
)
    requires
        is_list(out, found, kind, default_name),
        0 <= k < out.len(),
    ensures
        exists|i: int| #[trigger] stands_for(found, out[k].name@, i),
{
    lemma_named(found);
    assert(describes(out[k], found, named(found)[k], kind, default_name));
    lemma_first_bearer(found, out[k].name@, named(found)[k]);
}

proof fn lemma_first_bearer(found: Seq<FoundDevice>, name: Seq<char>, i: int)
    requires
        0 <= i < found.len(),
        bears(found[i].name, name),
    ensures
        exists|j: int| #[trigger] stands_for(found, name, j),
    decreases i,
{
    if !stands_for(found, name, i) {
        let j = choose|j: int| 0 <= j < i && bears((#[trigger] found[j]).name, name);
        lemma_first_bearer(found, name, j);
    }
}

/// The rate that a list shows is the rate that the device is opened at.
pub proof fn law_the_listed_rate_is_the_opened_rate(
    info: DeviceInfo,
    found: Seq<FoundDevice>,
    i: int,
    kind: DeviceKind,
    default_name: Option<Seq<char>>,
    c: int,
)
    requires
        describes(info, found, i, kind, default_name),
        found[i].configs is Some,
        is_choice((found[i].configs->0)@, c),
    ensures
        info.usable,
        info.sample_rate == Some(nearest_rate((found[i].configs->0)@[c])),
{
    let configs = (found[i].configs->0)@;
    assert(readable(configs[c]));
    let listed = choose|k: int|
        is_choice(configs, k) && info.sample_rate == Some(nearest_rate(#[trigger] configs[k]));
    law_the_choice_is_unique(configs, c, listed);
}

/// Which device a name, or its absence, stands for.
#[derive(Debug, PartialEq, Eq, Structural)]
pub enum Selection {
    Default,
    /// The place in the enumeration.
    At(usize),
}

/// Resolve a device by name, or the system default when there is no name. The
/// first device of that name is taken.
pub fn select(
    kind: DeviceKind,
    name: Option<&str>,
    has_default: bool,
    enumerated: &Result<Vec<Option<String>>, String>,
) -> (r: Result<Selection, DeviceError>)
    ensures
        name is None ==> r == if has_default {
            Ok::<Selection, DeviceError>(Selection::Default)
        } else {
            Err(DeviceError::NoDevice(kind))
        },
        name matches Some(wanted) ==> match enumerated {
            Err(why) => r matches Err(DeviceError::Enumeration(w)) && w@ == why@,
            Ok(names) => match r {
                Ok(Selection::At(i)) => i < names@.len() && bears(names@[i as int], wanted@)
                    && forall|j: int| 0 <= j < i ==> !bears(#[trigger] names@[j], wanted@),
                Ok(Selection::Default) => false,
                Err(DeviceError::NotFound { kind: k, name: n }) => k == kind && n@ == wanted@
                    && forall|j: int|
                    0 <= j < names@.len() ==> !bears(#[trigger] names@[j], wanted@),
                Err(_) => false,
            },
        },
{
    let wanted = match name {
        None => {
            return if has_default {
                Ok(Selection::Default)
            } else {
                Err(DeviceError::NoDevice(kind))
            };
        },
        Some(wanted) => wanted,
    };
    match enumerated {
        Err(why) => Err(DeviceError::Enumeration(why.clone())),
        Ok(names) => {
            let mut i: usize = 0;
            while i < names.len()
                invariant
                    i <= names.len(),
                    name == Some(wanted),
                    *enumerated == Ok::<Vec<Option<String>>, String>(*names),
                    forall|j: int| 0 <= j < i ==> !bears(#[trigger] names@[j], wanted@),
                decreases names.len() - i,
            {
                if let Some(n) = &names[i] {
                    if text::same(n.as_str(), wanted) {
                        return Ok(Selection::At(i));
                    }
                }
                i = i + 1;
            }
            Err(DeviceError::NotFound { kind, name: String::from_str(wanted) })
        },
    }
}

/// Resolve a stream configuration for a device: the place of the one to open
/// and the rate to open it at, which is not necessarily 48 kHz.
pub fn pick_config(name: &Option<String>, configs: Result<Vec<ConfigRange>, String>) -> (r: Result<
    (usize, u32),
    DeviceError,
>)
    requires
        configs matches Ok(ranges) ==> spans(ranges@),
    ensures
        match configs {
            Err(why) => r == Err::<(usize, u32), DeviceError>(DeviceError::Enumeration(why)),
            Ok(ranges) => match r {
                Ok((i, rate)) => is_choice(ranges@, i as int) && rate == nearest_rate(
                    ranges@[i as int],
                ),
                Err(DeviceError::UnsupportedFormat { name: shown }) => shown@ == (match *name {
                    Some(n) => n@,
                    None => "unknown"@,
                }) && forall|j: int| 0 <= j < ranges@.len() ==> !readable(ranges@[j]),
                Err(_) => false,
            },
        },
{
    match configs {
        Err(why) => Err(DeviceError::Enumeration(why)),
        Ok(ranges) => match choose_index(ranges.as_slice()) {
            Some(i) => {
                let rate: u32 = rate_of(&ranges[i]);
                Ok((i, rate))
            },
            None => {
                let shown = match name {
                    Some(n) => n.clone(),
                    None => String::from_str("unknown"),
                };
                Err(DeviceError::UnsupportedFormat { name: shown })
            },
        },
    }
}


/// The rate of a span lies in it, and none in it is nearer to 48 kHz.
pub proof fn law_no_rate_of_a_span_is_nearer(c: ConfigRange, rate: u32)
    requires
        c.min_sample_rate <= rate <= c.max_sample_rate,
    ensures
        c.min_sample_rate <= nearest_rate(c) <= c.max_sample_rate,
        rate <= 48_000 ==> 48_000 - rate >= off_rate(nearest_rate(c)),
        rate >= 48_000 ==> rate - 48_000 >= off_rate(nearest_rate(c)),
        off_rate(rate) == 0 <==> rate == 48_000,
        rate <= 48_000 ==> off_rate(rate) == 48_000 - rate,
        rate >= 48_000 ==> off_rate(rate) == rate - 48_000,
{
}

/// The choice can be read, and against any other that can be read it has the
/// nearer rate; of equally near rates it has the higher, of equal rates the fewer
/// channels, and of equals it comes first.
pub proof fn law_why_a_configuration_is_chosen(configs: Seq<ConfigRange>, i: int, j: int)
    requires
        is_choice(configs, i),
        0 <= j < configs.len(),
        configs[j].sample_format is F32 || configs[j].sample_format is I16,
    ensures
        configs[i].sample_format is F32 || configs[i].sample_format is I16,
        ({
            let (a, b) = (configs[i], configs[j]);
            let (ra, rb) = (nearest_rate(a), nearest_rate(b));
            &&& off_rate(ra) <= off_rate(rb)
            &&& off_rate(ra) == off_rate(rb) ==> ra >= rb
            &&& ra == rb ==> a.channels <= b.channels
            &&& ra == rb && a.channels == b.channels ==> i <= j
        }),
{
}

/// A list shows a device under its own name and as of its own kind. One that
/// could not be asked stays usable, at no known rate; any other is usable exactly
/// when it has a format that can be read.
pub proof fn law_a_device_is_listed_as_found(
    info: DeviceInfo,
    found: Seq<FoundDevice>,
    i: int,
    kind: DeviceKind,
    default_name: Option<Seq<char>>,
)
    requires
        describes(info, found, i, kind, default_name),
    ensures
        found[i].name matches Some(name) && info.name@ == name@,
        info.kind == kind,
        info.is_default ==> default_name == Some(info.name@),
        default_name == Some(info.name@) && !info.is_default ==> !stands_for(
            found,
            info.name@,
            i,
        ),
        found[i].configs is None ==> info.usable && info.sample_rate is None,
        found[i].configs matches Some(configs) ==> (info.usable <==> exists|j: int|
            0 <= j < configs@.len() && ((#[trigger] configs@[j]).sample_format is F32
                || configs@[j].sample_format is I16)),
        found[i].configs is Some ==> (info.sample_rate is Some <==> info.usable),
{
    if let Some(configs) = found[i].configs {
        if info.usable {
            let j = choose|j: int| 0 <= j < configs@.len() && readable(#[trigger] configs@[j]);
            assert(configs@[j].sample_format is F32 || configs@[j].sample_format is I16);
        }
        if exists|j: int|
            0 <= j < configs@.len() && ((#[trigger] configs@[j]).sample_format is F32
                || configs@[j].sample_format is I16) {
            let j = choose|j: int|
                0 <= j < configs@.len() && ((#[trigger] configs@[j]).sample_format is F32
                    || configs@[j].sample_format is I16);
            assert(readable(configs@[j]));
        }
    }
}

/// Each device with a name is listed once, in the order found, and none without.
pub proof fn law_each_named_device_is_listed_once(found: Seq<FoundDevice>, i: int)
    requires
        0 <= i < found.len(),
    ensures
        found[i].name is Some <==> named(found).contains(i),
        forall|a: int, b: int|
            0 <= a < b < named(found).len() ==> #[trigger] named(found)[a] < #[trigger] named(
                found,
            )[b],
{
    lemma_named_apart(found);
    lemma_all_named(found);
    if found[i].name is Some {
        lemma_named_holds(found, i);
    }
}

proof fn lemma_all_named(found: Seq<FoundDevice>)
    ensures
        forall|k: int|
            0 <= k < named(found).len() ==> 0 <= #[trigger] named(found)[k] < found.len()
                && found[named(found)[k]].name is Some,
    decreases found.len(),
{
    if found.len() > 0 {
        let front = found.drop_last();
        lemma_all_named(front);
        assert forall|k: int| 0 <= k < named(found).len() implies 0 <= #[trigger] named(found)[k]
            < found.len() && found[named(found)[k]].name is Some by {
            if k < named(front).len() {
                assert(named(front)[k] == named(found)[k]);
                assert(front[named(front)[k]] == found[named(found)[k]]);
            }
        }
    }
}

/// The first device of a name stands for it: one that has exactly that name, with
/// none before it that does.
pub proof fn law_a_name_stands_for_its_first_device(
    found: Seq<FoundDevice>,
    name: Seq<char>,
    i: int,
)
    ensures
        stands_for(found, name, i) <==> 0 <= i < found.len() && (found[i].name matches Some(n) && n@
            == name) && forall|j: int|
            0 <= j < i ==> !((#[trigger] found[j]).name matches Some(n) && n@ == name),
{
}
} // verus!
