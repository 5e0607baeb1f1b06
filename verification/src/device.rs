//! Audio devices: which there are and which one is meant.
use crate::text::chars_of;
use vstd::prelude::*;

verus! {

/// What a device is for.
#[derive(Debug, Clone, Copy, PartialEq, Eq, Structural)]
pub enum AudioDeviceKind {
    Input,
    Output,
}

impl AudioDeviceKind {
    /// The kind as text.
    pub open spec fn label(self) -> Seq<char> {
        match self {
            AudioDeviceKind::Input => "Input"@,
            AudioDeviceKind::Output => "Output"@,
        }
    }

    /// The kind as text.
    pub fn name(self) -> (name: &'static str)
        ensures
            name@ == self.label(),
    {
        match self {
            AudioDeviceKind::Input => "Input",
            AudioDeviceKind::Output => "Output",
        }
    }
}

/// A stream format that a device offers.
#[derive(Debug, PartialEq, Eq)]
pub struct AudioStreamConfigInfo {
    pub channels: u16,
    pub sample_format: String,
    pub min_sample_rate: u32,
    pub max_sample_rate: u32,
    pub buffer_size: Option<(u32, u32)>,
}

/// A stream format as a mathematical value.
pub struct StreamModel {
    pub channels: u16,
    pub sample_format: Seq<char>,
    pub min_sample_rate: u32,
    pub max_sample_rate: u32,
    pub buffer_size: Option<(u32, u32)>,
}

impl View for AudioStreamConfigInfo {
    type V = StreamModel;

    open spec fn view(&self) -> StreamModel {
        StreamModel {
            channels: self.channels,
            sample_format: self.sample_format@,
            min_sample_rate: self.min_sample_rate,
            max_sample_rate: self.max_sample_rate,
            buffer_size: self.buffer_size,
        }
    }
}

impl Clone for AudioStreamConfigInfo {
    fn clone(&self) -> (copy: Self)
        ensures
            copy@ == self@,
    {
        AudioStreamConfigInfo {
            channels: self.channels,
            sample_format: self.sample_format.clone(),
            min_sample_rate: self.min_sample_rate,
            max_sample_rate: self.max_sample_rate,
            buffer_size: self.buffer_size,
        }
    }
}

/// What is known of a device.
#[derive(Debug, PartialEq, Eq)]
pub struct AudioDeviceInfo {
    pub name: String,
    pub kind: AudioDeviceKind,
    pub is_default: bool,
    pub default_config: Option<AudioStreamConfigInfo>,
    pub supported_configs: Vec<AudioStreamConfigInfo>,
}

/// A device as a mathematical value.
pub struct DeviceModel {
    pub name: Seq<char>,
    pub kind: AudioDeviceKind,
    pub is_default: bool,
    pub default_config: Option<StreamModel>,
    pub supported_configs: Seq<StreamModel>,
}

impl View for AudioDeviceInfo {
    type V = DeviceModel;

    open spec fn view(&self) -> DeviceModel {
        DeviceModel {
            name: self.name@,
            kind: self.kind,
            is_default: self.is_default,
            default_config: match self.default_config {
                Some(config) => Some(config@),
                None => None,
            },
            supported_configs: self.supported_configs@.map_values(
                |config: AudioStreamConfigInfo| config@,
            ),
        }
    }
}

impl Clone for AudioDeviceInfo {
    fn clone(&self) -> (copy: Self)
        ensures
            copy@ == self@,
    {
        let mut supported_configs: Vec<AudioStreamConfigInfo> = Vec::new();
        let mut i: usize = 0;
        while i < self.supported_configs.len()
            invariant
                i <= self.supported_configs@.len(),
                supported_configs@.len() == i,
                forall|j: int|
                    0 <= j < i ==> (#[trigger] supported_configs@[j])@
                        == self.supported_configs@[j]@,
            decreases self.supported_configs.len() - i,
        {
            supported_configs.push(self.supported_configs[i].clone());
            i += 1;
        }
        let copy = AudioDeviceInfo {
            name: self.name.clone(),
            kind: self.kind,
            is_default: self.is_default,
            default_config: match &self.default_config {
                Some(config) => Some(config.clone()),
                None => None,
            },
            supported_configs,
        };
        assert(copy@.supported_configs =~= self@.supported_configs);
        copy
    }
}

/// Whether `part` occurs in `whole` at `start`.
pub open spec fn occurs_at(part: Seq<char>, whole: Seq<char>, start: int) -> bool {
    &&& 0 <= start
    &&& start + part.len() <= whole.len()
    &&& whole.subrange(start, start + part.len()) == part
}

/// Whether `part` occurs in `whole` without gaps.
pub open spec fn occurs_in(part: Seq<char>, whole: Seq<char>) -> bool {
    exists|start: int| occurs_at(part, whole, start)
}

/// Whether the characters of `pattern` occur in `candidate` in order, with or without gaps.
pub open spec fn is_subsequence_of(pattern: Seq<char>, candidate: Seq<char>) -> bool {
    exists|places: Seq<int>| embeds(pattern, candidate, places)
}

/// Whether `places` says where in `candidate` the characters of `pattern` are found.
pub open spec fn embeds(pattern: Seq<char>, candidate: Seq<char>, places: Seq<int>) -> bool {
    &&& places.len() == pattern.len()
    &&& forall|i: int|
        0 <= i < places.len() ==> 0 <= #[trigger] places[i] < candidate.len()
            && candidate[places[i]] == pattern[i]
    &&& forall|i: int, j: int| 0 <= i < j < places.len() ==> places[i] < places[j]
}

/// Whether a device's name is meant by the preferred name: it is the name, a part of it, or
/// its characters occur in order.
pub open spec fn name_is_meant(preferred: Seq<char>, candidate: Seq<char>) -> bool {
    preferred == candidate || occurs_in(preferred, candidate) || is_subsequence_of(
        preferred,
        candidate,
    )
}

/// A name that occurs without gaps also occurs with or without them.
pub proof fn law_occurring_is_subsequence(part: Seq<char>, whole: Seq<char>)
    ensures
        occurs_in(part, whole) ==> is_subsequence_of(part, whole),
{
    if occurs_in(part, whole) {
        let start = choose|start: int| occurs_at(part, whole, start);
        let places = Seq::new(part.len(), |i: int| start + i);
        assert forall|i: int| 0 <= i < places.len() implies 0 <= #[trigger] places[i] < whole.len()
            && whole[places[i]] == part[i] by {
            assert(whole.subrange(start, start + part.len())[i] == part[i]);
        }
        assert(embeds(part, whole, places));
    }
}

/// Whether the characters of `pattern` occur in `candidate` in order.
fn is_subsequence(pattern: &[char], candidate: &[char]) -> (found: bool)
    ensures
        found == is_subsequence_of(pattern@, candidate@),
{
    let ghost mut places: Seq<int> = Seq::empty();
    let mut matched: usize = 0;
    let mut i: usize = 0;
    while i < candidate.len() && matched < pattern.len()
        invariant
            i <= candidate@.len(),
            matched <= pattern@.len(),
            embeds(pattern@.take(matched as int), candidate@, places),
            forall|j: int| 0 <= j < places.len() ==> #[trigger] places[j] < i,
            forall|other: Seq<int>, k: int|
                embeds(pattern@, candidate@, other) && matched <= k < pattern@.len()
                    ==> #[trigger] other[k] >= i,
        decreases candidate.len() - i,
    {
        if candidate[i] == pattern[matched] {
            proof {
                let before = places;
                places = before.push(i as int);
                assert(pattern@.take(matched + 1) =~= pattern@.take(matched as int).push(
                    pattern@[matched as int],
                ));
                assert forall|other: Seq<int>, k: int|
                    embeds(pattern@, candidate@, other) && matched + 1 <= k
                        < pattern@.len() implies #[trigger] other[k] >= i + 1 by {
                    assert(other[matched as int] >= i);
                    assert(other[matched as int] < other[k]);
                }
            }
            matched += 1;
        } else {
            proof {
                assert forall|other: Seq<int>, k: int|
                    embeds(pattern@, candidate@, other) && matched <= k
                        < pattern@.len() implies #[trigger] other[k] >= i + 1 by {
                    assert(other[matched as int] >= i);
                    assert(candidate@[other[matched as int]] == pattern@[matched as int]);
                    if k > matched {
                        assert(other[matched as int] < other[k]);
                    }
                }
            }
        }
        i += 1;
    }
    proof {
        if matched == pattern@.len() {
            assert(pattern@.take(matched as int) =~= pattern@);
        } else if is_subsequence_of(pattern@, candidate@) {
            let other = choose|other: Seq<int>| embeds(pattern@, candidate@, other);
            assert(other[matched as int] >= i);
        }
    }
    matched == pattern.len()
}

/// Whether a device's name is meant by the preferred name.
pub fn device_name_matches(preferred_name: &str, candidate_name: &str) -> (meant: bool)
    ensures
        meant == name_is_meant(preferred_name@, candidate_name@),
{
    let preferred = chars_of(preferred_name);
    let candidate = chars_of(candidate_name);
    proof {
        law_occurring_is_subsequence(preferred_name@, candidate_name@);
        if preferred_name@ == candidate_name@ {
            assert(candidate_name@.subrange(0, preferred_name@.len() as int) =~= preferred_name@);
            assert(occurs_at(preferred_name@, candidate_name@, 0));
        }
    }
    is_subsequence(&preferred, &candidate)
}

/// Devices as mathematical values.
pub open spec fn device_models(devices: Seq<AudioDeviceInfo>) -> Seq<DeviceModel> {
    devices.map_values(|device: AudioDeviceInfo| device@)
}

/// The devices of one kind, in order.
pub open spec fn devices_of_kind(devices: Seq<DeviceModel>, kind: AudioDeviceKind) -> Seq<
    DeviceModel,
> {
    devices.filter(|device: DeviceModel| device.kind == kind)
}

/// The first device that passes the test, if there is one.
pub open spec fn first_device(
    devices: Seq<DeviceModel>,
    passes: spec_fn(DeviceModel) -> bool,
) -> Option<DeviceModel>
    decreases devices.len(),
{
    if devices.len() == 0 {
        None
    } else if passes(devices[0]) {
        Some(devices[0])
    } else {
        first_device(devices.skip(1), passes)
    }
}

/// The device of a kind that is meant: the first whose name is meant by the preferred name
/// if there is one, else the default one, else the first.
pub open spec fn chosen_device(
    devices: Seq<DeviceModel>,
    kind: AudioDeviceKind,
    preferred: Option<Seq<char>>,
) -> Option<DeviceModel> {
    let named = match preferred {
        Some(name) => first_device(
            devices,
            |device: DeviceModel| device.kind == kind && name_is_meant(name, device.name),
        ),
        None => None,
    };
    let by_default = first_device(
        devices,
        |device: DeviceModel| device.kind == kind && device.is_default,
    );
    if named is Some {
        named
    } else if by_default is Some {
        by_default
    } else {
        first_device(devices, |device: DeviceModel| device.kind == kind)
    }
}

/// Where nothing before `index` passes, the search goes on from `index`.
proof fn lemma_first_device_at(
    devices: Seq<DeviceModel>,
    passes: spec_fn(DeviceModel) -> bool,
    index: int,
)
    requires
        0 <= index <= devices.len(),
        forall|i: int| 0 <= i < index ==> !passes(#[trigger] devices[i]),
    ensures
        first_device(devices, passes) == first_device(devices.skip(index), passes),
    decreases index,
{
    if index > 0 {
        lemma_first_device_at(devices.skip(1), passes, index - 1);
        assert(devices.skip(1).skip(index - 1) =~= devices.skip(index));
    } else {
        assert(devices.skip(0) =~= devices);
    }
}

/// The device of a kind that is meant by the preferred name, or else the default one, or
/// else the first.
pub fn select_audio_device_info(
    devices: &[AudioDeviceInfo],
    kind: AudioDeviceKind,
    preferred_name: Option<&str>,
) -> (device: Option<AudioDeviceInfo>)
    ensures
        (match device {
            Some(device) => Some(device@),
            None => None,
        }) == chosen_device(
            device_models(devices@),
            kind,
            match preferred_name {
                Some(name) => Some(name@),
                None => None,
            },
        ),
{
    let ghost models = device_models(devices@);
    if let Some(name) = preferred_name {
        let ghost named = |device: DeviceModel|
            device.kind == kind && name_is_meant(name@, device.name);
        let mut i: usize = 0;
        while i < devices.len()
            invariant
                i <= devices@.len(),
                models == device_models(devices@),
                preferred_name == Some(name),
                named == (|device: DeviceModel|
                    device.kind == kind && name_is_meant(name@, device.name)),
                forall|j: int| 0 <= j < i ==> !named(#[trigger] models[j]),
            decreases devices.len() - i,
        {
            assert(models[i as int] == devices@[i as int]@);
            if devices[i].kind == kind && device_name_matches(name, devices[i].name.as_str()) {
                proof {
                    lemma_first_device_at(models, named, i as int);
                }
                return Some(devices[i].clone());
            }
            i += 1;
        }
        proof {
            lemma_first_device_at(models, named, i as int);
            assert(models.skip(i as int).len() == 0);
        }
    }
    if let Some(device) = default_device(devices, kind) {
        return Some(device);
    }
    let ghost any = |device: DeviceModel| device.kind == kind;
    let mut i: usize = 0;
    while i < devices.len()
        invariant
            i <= devices@.len(),
            models == device_models(devices@),
            any == (|device: DeviceModel| device.kind == kind),
            forall|j: int| 0 <= j < i ==> !any(#[trigger] models[j]),
            first_device(
                models,
                |device: DeviceModel| device.kind == kind && device.is_default,
            ) is None,
            preferred_name matches Some(name) ==> first_device(
                models,
                |device: DeviceModel| device.kind == kind && name_is_meant(name@, device.name),
            ) is None,
        decreases devices.len() - i,
    {
        assert(models[i as int] == devices@[i as int]@);
        if devices[i].kind == kind {
            proof {
                lemma_first_device_at(models, any, i as int);
            }
            return Some(devices[i].clone());
        }
        i += 1;
    }
    proof {
        lemma_first_device_at(models, any, i as int);
        assert(models.skip(i as int).len() == 0);
    }
    None
}

/// The devices of one kind, in order.
pub fn available_devices(devices: &[AudioDeviceInfo], kind: AudioDeviceKind) -> (found: Vec<
    AudioDeviceInfo,
>)
    ensures
        device_models(found@) == devices_of_kind(device_models(devices@), kind),
{
    let ghost models = device_models(devices@);
    let ghost of_kind = |device: DeviceModel| device.kind == kind;
    let mut found: Vec<AudioDeviceInfo> = Vec::new();
    proof {
        reveal(Seq::filter);
        assert(models.take(0).filter(of_kind) =~= Seq::empty());
        assert(device_models(found@) =~= Seq::empty());
    }
    let mut i: usize = 0;
    while i < devices.len()
        invariant
            i <= devices@.len(),
            models == device_models(devices@),
            of_kind == (|device: DeviceModel| device.kind == kind),
            device_models(found@) == models.take(i as int).filter(of_kind),
        decreases devices.len() - i,
    {
        let ghost before = found@;
        proof {
            assert(models.take(i + 1).drop_last() =~= models.take(i as int));
            assert(models.take(i + 1).last() == devices@[i as int]@);
            reveal(Seq::filter);
        }
        if devices[i].kind == kind {
            found.push(devices[i].clone());
            assert(device_models(found@) =~= device_models(before).push(devices@[i as int]@));
        }
        i += 1;
    }
    assert(models.take(i as int) =~= models);
    found
}

/// The default device of one kind.
pub fn default_device(devices: &[AudioDeviceInfo], kind: AudioDeviceKind) -> (device: Option<
    AudioDeviceInfo,
>)
    ensures
        (match device {
            Some(device) => Some(device@),
            None => None,
        }) == first_device(
            device_models(devices@),
            |device: DeviceModel| device.kind == kind && device.is_default,
        ),
{
    let ghost models = device_models(devices@);
    let ghost default = |device: DeviceModel| device.kind == kind && device.is_default;
    let mut i: usize = 0;
    while i < devices.len()
        invariant
            i <= devices@.len(),
            models == device_models(devices@),
            default == (|device: DeviceModel| device.kind == kind && device.is_default),
            forall|j: int| 0 <= j < i ==> !default(#[trigger] models[j]),
        decreases devices.len() - i,
    {
        assert(models[i as int] == devices@[i as int]@);
        if devices[i].kind == kind && devices[i].is_default {
            proof {
                lemma_first_device_at(models, default, i as int);
            }
            return Some(devices[i].clone());
        }
        i += 1;
    }
    proof {
        lemma_first_device_at(models, default, i as int);
        assert(models.skip(i as int).len() == 0);
    }
    None
}

/// The first device that passes is one of the devices, it passes, and none before it does; there
/// is none only where no device passes.
pub proof fn law_first_device_is_the_first(
    devices: Seq<DeviceModel>,
    passes: spec_fn(DeviceModel) -> bool,
)
    ensures
        match first_device(devices, passes) {
            Some(device) => exists|place: int|
                {
                    &&& 0 <= place < devices.len()
                    &&& #[trigger] devices[place] == device
                    &&& passes(device)
                    &&& forall|before: int|
                        0 <= before < place ==> !passes(#[trigger] devices[before])
                },
            None => forall|place: int|
                0 <= place < devices.len() ==> !passes(#[trigger] devices[place]),
        },
    decreases devices.len(),
{
    if devices.len() > 0 {
        let rest = devices.skip(1);
        law_first_device_is_the_first(rest, passes);
        if passes(devices[0]) {
            assert(devices[0] == first_device(devices, passes)->0);
        } else {
            match first_device(rest, passes) {
                Some(device) => {
                    let place = choose|place: int|
                        {
                            &&& 0 <= place < rest.len()
                            &&& #[trigger] rest[place] == device
                            &&& passes(device)
                            &&& forall|before: int|
                                0 <= before < place ==> !passes(#[trigger] rest[before])
                        };
                    assert(devices[place + 1] == device);
                    assert forall|before: int| 0 <= before < place + 1 implies !passes(
                        #[trigger] devices[before],
                    ) by {
                        if before > 0 {
                            assert(rest[before - 1] == devices[before]);
                        }
                    }
                },
                None => {
                    assert forall|place: int| 0 <= place < devices.len() implies !passes(
                        #[trigger] devices[place],
                    ) by {
                        if place > 0 {
                            assert(rest[place - 1] == devices[place]);
                        }
                    }
                },
            }
        }
    }
}

/// A device is chosen wherever there is one of the kind: one whose name is meant before one that
/// is the default, and that before any other.
pub proof fn law_meant_device_is_chosen(
    devices: Seq<DeviceModel>,
    kind: AudioDeviceKind,
    preferred: Option<Seq<char>>,
    place: int,
)
    requires
        0 <= place < devices.len(),
        devices[place].kind == kind,
    ensures
        chosen_device(devices, kind, preferred) matches Some(device) && {
            &&& device.kind == kind
            &&& devices.contains(device)
            &&& preferred matches Some(name) ==> (name_is_meant(name, devices[place].name)
                ==> name_is_meant(name, device.name))
            &&& devices[place].is_default ==> device.is_default || (preferred matches Some(name)
                && name_is_meant(name, device.name))
        },
{
    let named = |device: DeviceModel|
        device.kind == kind && name_is_meant(preferred->0, device.name);
    let by_default = |device: DeviceModel| device.kind == kind && device.is_default;
    let of_kind = |device: DeviceModel| device.kind == kind;
    law_first_device_is_the_first(devices, named);
    law_first_device_is_the_first(devices, by_default);
    law_first_device_is_the_first(devices, of_kind);
    assert(of_kind(devices[place]));
    if let Some(name) = preferred {
        if name_is_meant(name, devices[place].name) {
            assert(named(devices[place]));
        }
    }
    if devices[place].is_default {
        assert(by_default(devices[place]));
    }
}

/// Among devices that are as good as each other, the first is chosen.
pub proof fn law_first_of_equal_devices_is_chosen(
    devices: Seq<DeviceModel>,
    kind: AudioDeviceKind,
    name: Seq<char>,
    place: int,
)
    requires
        0 <= place < devices.len(),
        devices[place].kind == kind,
        name_is_meant(name, devices[place].name),
        forall|before: int|
            0 <= before < place ==> (#[trigger] devices[before]).kind != kind || !name_is_meant(
                name,
                devices[before].name,
            ),
    ensures
        chosen_device(devices, kind, Some(name)) == Some(devices[place]),
{
    let named = |device: DeviceModel| device.kind == kind && name_is_meant(name, device.name);
    law_first_device_is_the_first(devices, named);
    assert(named(devices[place]));
    let found = first_device(devices, named)->0;
    let at = choose|at: int|
        {
            &&& 0 <= at < devices.len()
            &&& #[trigger] devices[at] == found
            &&& named(found)
            &&& forall|before: int| 0 <= before < at ==> !named(#[trigger] devices[before])
        };
    if at < place {
        assert(devices[at].kind != kind || !name_is_meant(name, devices[at].name));
    }
    if place < at {
        assert(!named(devices[place]));
    }
}

/// Where there is no device of the kind, none is chosen.
pub proof fn law_no_device_of_another_kind_is_chosen(
    devices: Seq<DeviceModel>,
    kind: AudioDeviceKind,
    preferred: Option<Seq<char>>,
)
    requires
        forall|place: int| 0 <= place < devices.len() ==> (#[trigger] devices[place]).kind != kind,
    ensures
        chosen_device(devices, kind, preferred) is None,
{
    let named = |device: DeviceModel|
        device.kind == kind && name_is_meant(preferred->0, device.name);
    let by_default = |device: DeviceModel| device.kind == kind && device.is_default;
    let of_kind = |device: DeviceModel| device.kind == kind;
    law_first_device_is_the_first(devices, named);
    law_first_device_is_the_first(devices, by_default);
    law_first_device_is_the_first(devices, of_kind);
}

/// A name is meant exactly where its letters stand in it in their order.
pub proof fn law_meant_names_hold_the_letters_in_order(
    preferred: Seq<char>,
    candidate: Seq<char>,
)
    ensures
        name_is_meant(preferred, candidate) <==> exists|places: Seq<int>|
            {
                &&& #[trigger] places.len() == preferred.len()
                &&& forall|i: int|
                    0 <= i < preferred.len() ==> 0 <= #[trigger] places[i] < candidate.len()
                        && candidate[places[i]] == preferred[i]
                &&& forall|i: int, j: int|
                    0 <= i < j < preferred.len() ==> #[trigger] places[i] < #[trigger] places[j]
            },
        name_is_meant(preferred, preferred),
        name_is_meant(Seq::empty(), candidate),
{
    if preferred == candidate {
        assert(candidate.subrange(0, candidate.len() as int) =~= preferred);
        assert(occurs_at(preferred, candidate, 0));
    }
    if preferred == candidate || occurs_in(preferred, candidate) {
        law_occurring_is_subsequence(preferred, candidate);
    }
    if is_subsequence_of(preferred, candidate) {
        let places = choose|places: Seq<int>| embeds(preferred, candidate, places);
        assert(places.len() == preferred.len());
    }
    if exists|places: Seq<int>|
        {
            &&& #[trigger] places.len() == preferred.len()
            &&& forall|i: int|
                0 <= i < preferred.len() ==> 0 <= #[trigger] places[i] < candidate.len()
                    && candidate[places[i]] == preferred[i]
            &&& forall|i: int, j: int|
                0 <= i < j < preferred.len() ==> #[trigger] places[i] < #[trigger] places[j]
        } {
        let places = choose|places: Seq<int>|
            {
                &&& #[trigger] places.len() == preferred.len()
                &&& forall|i: int|
                    0 <= i < preferred.len() ==> 0 <= #[trigger] places[i] < candidate.len()
                        && candidate[places[i]] == preferred[i]
                &&& forall|i: int, j: int|
                    0 <= i < j < preferred.len() ==> #[trigger] places[i] < #[trigger] places[j]
            };
        assert(embeds(preferred, candidate, places));
    }
    let none = Seq::<int>::empty();
    assert(embeds(Seq::empty(), candidate, none));
}

/// The devices of a kind are those devices that are of it.
pub proof fn law_devices_of_a_kind_are_all_of_it(
    devices: Seq<DeviceModel>,
    kind: AudioDeviceKind,
    device: DeviceModel,
)
    ensures
        devices_of_kind(devices, kind).contains(device) <==> devices.contains(device)
            && device.kind == kind,
    decreases devices.len(),
{
    reveal(Seq::filter);
    let passes = |device: DeviceModel| device.kind == kind;
    let kept = devices.filter(passes);
    if devices.len() > 0 {
        let rest = devices.drop_last();
        law_devices_of_a_kind_are_all_of_it(rest, kind, device);
        let last = devices.last();
        assert(devices =~= rest.push(last));
        let kept_rest = rest.filter(passes);
        if passes(last) {
            assert(kept == kept_rest.push(last));
            assert(kept[kept.len() - 1] == last);
            assert forall|at: int| 0 <= at < kept_rest.len() implies kept[at] == #[trigger] kept_rest[at] by {}
        }
        assert(devices[devices.len() - 1] == last);
        assert forall|at: int| 0 <= at < rest.len() implies devices[at] == #[trigger] rest[at] by {}
    }
}

} // verus!
