//! The settings of a device's channels, as stored and as captured by a Mode.
use vstd::prelude::*;

use crate::setting::{is_default_profile, Setting, SettingView, UID};

verus! {

/// The saved settings of one device, one per channel.
pub struct DeviceSettings {
    pub device_uid: UID,
    pub settings: Vec<Setting>,
}

pub struct DeviceSettingsView {
    pub device_uid: Seq<char>,
    pub settings: Seq<SettingView>,
}

impl View for DeviceSettings {
    type V = DeviceSettingsView;

    open spec fn view(&self) -> DeviceSettingsView {
        DeviceSettingsView { device_uid: self.device_uid@, settings: settings_view(self.settings@) }
    }
}

pub open spec fn settings_view(s: Seq<Setting>) -> Seq<SettingView> {
    s.map_values(|x: Setting| x@)
}

pub open spec fn devices_view(s: Seq<DeviceSettings>) -> Seq<DeviceSettingsView> {
    s.map_values(|x: DeviceSettings| x@)
}

/// Some setting in `s` is for channel `name`.
pub open spec fn has_channel(s: Seq<SettingView>, name: Seq<char>) -> bool {
    exists|i: int| 0 <= i < s.len() && (#[trigger] s[i]).channel_name == name
}

/// No two settings in `s` are for the same channel.
pub open spec fn channels_unique(s: Seq<SettingView>) -> bool {
    forall|i: int, j: int|
        0 <= i < j < s.len() ==> (#[trigger] s[i]).channel_name != (#[trigger] s[j]).channel_name
}

/// Some entry in `s` is for device `uid`.
pub open spec fn has_device(s: Seq<DeviceSettingsView>, uid: Seq<char>) -> bool {
    exists|i: int| 0 <= i < s.len() && (#[trigger] s[i]).device_uid == uid
}

/// No two entries in `s` are for the same device, and each entry's channels are unique.
pub open spec fn devices_wf(s: Seq<DeviceSettingsView>) -> bool {
    &&& forall|i: int, j: int|
        0 <= i < j < s.len() ==> (#[trigger] s[i]).device_uid != (#[trigger] s[j]).device_uid
    &&& forall|i: int| 0 <= i < s.len() ==> channels_unique((#[trigger] s[i]).settings)
}

/// The settings `ms` that a Mode holds for a device match the device's live settings `live`:
/// each Mode entry is live or hands its channel to the Default Profile, and each live setting
/// equals the Mode's entry for its channel, or is at the Default Profile where the Mode has none.
pub open spec fn channels_match(ms: Seq<SettingView>, live: Seq<SettingView>) -> bool {
    &&& forall|i: int|
        0 <= i < ms.len() ==> has_channel(live, (#[trigger] ms[i]).channel_name) || ms[i].is_default()
    &&& forall|j: int|
        0 <= j < live.len() ==> (exists|i: int|
            0 <= i < ms.len() && #[trigger] ms[i] == #[trigger] live[j]) || (!has_channel(
            ms,
            live[j].channel_name,
        ) && live[j].is_default())
}

/// A Mode holding `mode` matches device `uid` whose live settings are `live`: the Mode's entry
/// for the device matches them, or the Mode has no entry and the device has no live setting.
pub open spec fn device_matches(
    mode: Seq<DeviceSettingsView>,
    uid: Seq<char>,
    live: Seq<SettingView>,
) -> bool {
    if has_device(mode, uid) {
        forall|k: int|
            0 <= k < mode.len() && (#[trigger] mode[k]).device_uid == uid ==> channels_match(
                mode[k].settings,
                live,
            )
    } else {
        live.len() == 0
    }
}

/// A Mode holding `mode` matches every present device, whose live settings are `live`.
pub open spec fn mode_matches(mode: Seq<DeviceSettingsView>, live: Seq<DeviceSettingsView>) -> bool {
    forall|j: int|
        0 <= j < live.len() ==> device_matches(
            mode,
            (#[trigger] live[j]).device_uid,
            live[j].settings,
        )
}

/// The index of the setting for channel `name`, if any.
pub fn find_channel(s: &Vec<Setting>, name: &String) -> (r: Option<usize>)
    ensures
        match r {
            Some(i) => i < s.len() && s@[i as int].channel_name@ == name@,
            None => !has_channel(settings_view(s@), name@),
        },
{
    let mut i: usize = 0;
    while i < s.len()
        invariant
            i <= s.len(),
            forall|k: int| 0 <= k < i ==> s@[k].channel_name@ != name@,
        decreases s.len() - i,
    {
        if s[i].channel_name.eq(name) {
            return Some(i);
        }
        i += 1;
    }
    assert(!has_channel(settings_view(s@), name@)) by {
        if has_channel(settings_view(s@), name@) {
            let k = choose|k: int|
                0 <= k < settings_view(s@).len() && (#[trigger] settings_view(s@)[k]).channel_name
                    == name@;
            assert(s@[k].channel_name@ == name@);
        }
    }
    None
}

/// The index of the entry for device `uid`, if any.
pub fn find_device(s: &Vec<DeviceSettings>, uid: &String) -> (r: Option<usize>)
    ensures
        match r {
            Some(i) => i < s.len() && s@[i as int].device_uid@ == uid@,
            None => !has_device(devices_view(s@), uid@),
        },
{
    let mut i: usize = 0;
    while i < s.len()
        invariant
            i <= s.len(),
            forall|k: int| 0 <= k < i ==> s@[k].device_uid@ != uid@,
        decreases s.len() - i,
    {
        if s[i].device_uid.eq(uid) {
            return Some(i);
        }
        i += 1;
    }
    assert(!has_device(devices_view(s@), uid@)) by {
        if has_device(devices_view(s@), uid@) {
            let k = choose|k: int|
                0 <= k < devices_view(s@).len() && (#[trigger] devices_view(s@)[k]).device_uid
                    == uid@;
            assert(s@[k].device_uid@ == uid@);
        }
    }
    None
}

/// Decides [`channels_match`].
pub fn channels_match_exec(ms: &Vec<Setting>, live: &Vec<Setting>) -> (r: bool)
    requires
        channels_unique(settings_view(ms@)),
    ensures
        r == channels_match(settings_view(ms@), settings_view(live@)),
{
    let ghost msv = settings_view(ms@);
    let ghost lv = settings_view(live@);
    let mut i: usize = 0;
    while i < ms.len()
        invariant
            i <= ms.len(),
            msv == settings_view(ms@),
            lv == settings_view(live@),
            forall|a: int| 0 <= a < i ==> has_channel(lv, (#[trigger] msv[a]).channel_name) || msv[a].is_default(),
        decreases ms.len() - i,
    {
        let found = find_channel(live, &ms[i].channel_name);
        if found.is_none() && !is_default_profile(&ms[i].profile_uid) {
            assert(!(has_channel(lv, msv[i as int].channel_name) || msv[i as int].is_default()));
            return false;
        }
        if found.is_some() {
            let k = found.unwrap();
            assert(lv[k as int].channel_name == msv[i as int].channel_name);
        }
        i += 1;
    }
    let mut j: usize = 0;
    while j < live.len()
        invariant
            j <= live.len(),
            msv == settings_view(ms@),
            lv == settings_view(live@),
            channels_unique(msv),
            forall|a: int| 0 <= a < ms.len() ==> has_channel(lv, (#[trigger] msv[a]).channel_name) || msv[a].is_default(),
            forall|b: int|
                0 <= b < j ==> (exists|a: int|
                    0 <= a < msv.len() && #[trigger] msv[a] == #[trigger] lv[b]) || (!has_channel(
                    msv,
                    lv[b].channel_name,
                ) && lv[b].is_default()),
        decreases live.len() - j,
    {
        match find_channel(ms, &live[j].channel_name) {
            Some(k) => {
                if !ms[k].same_as(&live[j]) {
                    assert(!(exists|a: int| 0 <= a < msv.len() && #[trigger] msv[a] == lv[j as int]))
                        by {
                        if exists|a: int| 0 <= a < msv.len() && #[trigger] msv[a] == lv[j as int] {
                            let a = choose|a: int| 0 <= a < msv.len() && #[trigger] msv[a] == lv[j as int];
                            if a != k {
                                if a < k {
                                    assert(msv[a].channel_name != msv[k as int].channel_name);
                                } else {
                                    assert(msv[k as int].channel_name != msv[a].channel_name);
                                }
                            }
                        }
                    }
                    assert(has_channel(msv, lv[j as int].channel_name));
                    return false;
                }
                assert(msv[k as int] == lv[j as int]);
            },
            None => {
                if !is_default_profile(&live[j].profile_uid) {
                    assert(!(exists|a: int| 0 <= a < msv.len() && #[trigger] msv[a] == lv[j as int]))
                        by {
                        if exists|a: int| 0 <= a < msv.len() && #[trigger] msv[a] == lv[j as int] {
                            let a = choose|a: int| 0 <= a < msv.len() && #[trigger] msv[a] == lv[j as int];
                            assert(msv[a].channel_name == lv[j as int].channel_name);
                        }
                    }
                    return false;
                }
            },
        }
        j += 1;
    }
    true
}


/// Copies a list of settings.
pub fn copy_settings(v: &Vec<Setting>) -> (r: Vec<Setting>)
    ensures
        settings_view(r@) == settings_view(v@),
{
    let mut r: Vec<Setting> = Vec::new();
    let mut i: usize = 0;
    while i < v.len()
        invariant
            i <= v.len(),
            r.len() == i,
            forall|k: int| 0 <= k < i ==> (#[trigger] r@[k])@ == v@[k]@,
        decreases v.len() - i,
    {
        let c = v[i].clone();
        assert(c@ == v@[i as int]@);
        r.push(c);
        i += 1;
    }
    assert(settings_view(r@) =~= settings_view(v@));
    r
}

impl Clone for DeviceSettings {
    fn clone(&self) -> (r: Self)
        ensures
            r@ == self@,
    {
        DeviceSettings { device_uid: self.device_uid.clone(), settings: copy_settings(&self.settings) }
    }
}

/// Copies a list of device entries.
pub fn copy_devices(v: &Vec<DeviceSettings>) -> (r: Vec<DeviceSettings>)
    ensures
        devices_view(r@) == devices_view(v@),
{
    let mut r: Vec<DeviceSettings> = Vec::new();
    let mut i: usize = 0;
    while i < v.len()
        invariant
            i <= v.len(),
            r.len() == i,
            forall|k: int| 0 <= k < i ==> (#[trigger] r@[k])@ == v@[k]@,
        decreases v.len() - i,
    {
        let c = v[i].clone();
        assert(c@ == v@[i as int]@);
        r.push(c);
        i += 1;
    }
    assert(devices_view(r@) =~= devices_view(v@));
    r
}

/// Decides [`device_matches`].
pub fn device_matches_exec(mode: &Vec<DeviceSettings>, uid: &String, live: &Vec<Setting>) -> (r:
    bool)
    requires
        devices_wf(devices_view(mode@)),
    ensures
        r == device_matches(devices_view(mode@), uid@, settings_view(live@)),
{
    let ghost mv = devices_view(mode@);
    match find_device(mode, uid) {
        Some(k) => {
            assert(mv[k as int].device_uid == uid@);
            assert(has_device(mv, uid@));
            assert(channels_unique(mv[k as int].settings));
            let m = channels_match_exec(&mode[k].settings, live);
            assert forall|a: int| 0 <= a < mv.len() && (#[trigger] mv[a]).device_uid == uid@ implies a
                == k by {
                if a < k {
                    assert(mv[a].device_uid != mv[k as int].device_uid);
                } else if a > k {
                    assert(mv[k as int].device_uid != mv[a].device_uid);
                }
            }
            m
        },
        None => live.len() == 0,
    }
}

/// Decides [`mode_matches`].
pub fn mode_matches_exec(mode: &Vec<DeviceSettings>, live: &Vec<DeviceSettings>) -> (r: bool)
    requires
        devices_wf(devices_view(mode@)),
    ensures
        r == mode_matches(devices_view(mode@), devices_view(live@)),
{
    let ghost lv = devices_view(live@);
    let mut j: usize = 0;
    while j < live.len()
        invariant
            j <= live.len(),
            lv == devices_view(live@),
            devices_wf(devices_view(mode@)),
            forall|b: int|
                0 <= b < j ==> device_matches(
                    devices_view(mode@),
                    (#[trigger] lv[b]).device_uid,
                    lv[b].settings,
                ),
        decreases live.len() - j,
    {
        if !device_matches_exec(mode, &live[j].device_uid, &live[j].settings) {
            assert(lv[j as int].device_uid == live@[j as int].device_uid@);
            assert(!device_matches(devices_view(mode@), lv[j as int].device_uid, lv[j as int].settings));
            return false;
        }
        j += 1;
    }
    true
}


/// The setting hands its channel to Profile `p`.
pub open spec fn uses_profile(s: SettingView, p: Seq<char>) -> bool {
    s.profile_uid == Some(p)
}

/// `s` without the settings that use Profile `p`.
pub open spec fn strip_profile(s: Seq<SettingView>, p: Seq<char>) -> Seq<SettingView> {
    s.filter(|x: SettingView| !uses_profile(x, p))
}

/// A device entry without the settings that use Profile `p`; none if nothing is left.
pub open spec fn prune_device(d: DeviceSettingsView, p: Seq<char>) -> Option<DeviceSettingsView> {
    let s = strip_profile(d.settings, p);
    if s.len() == 0 {
        None
    } else {
        Some(DeviceSettingsView { device_uid: d.device_uid, settings: s })
    }
}

/// Device entries without the settings that use Profile `p`, and without the entries that
/// this leaves empty.
pub open spec fn prune_devices(s: Seq<DeviceSettingsView>, p: Seq<char>) -> Seq<DeviceSettingsView> {
    s.filter_map(|d: DeviceSettingsView| prune_device(d, p))
}

/// Removes the settings that use Profile `p`.
pub fn strip_profile_exec(s: &Vec<Setting>, p: &String) -> (r: Vec<Setting>)
    requires
        channels_unique(settings_view(s@)),
    ensures
        settings_view(r@) == strip_profile(settings_view(s@), p@),
        channels_unique(settings_view(r@)),
{
    let ghost sv = settings_view(s@);
    let ghost pred = |x: SettingView| !uses_profile(x, p@);
    let mut r: Vec<Setting> = Vec::new();
    let ghost mut idx: Seq<int> = Seq::empty();
    let mut i: usize = 0;
    while i < s.len()
        invariant
            i <= s.len(),
            sv == settings_view(s@),
            pred == (|x: SettingView| !uses_profile(x, p@)),
            channels_unique(sv),
            settings_view(r@) == sv.subrange(0, i as int).filter(pred),
            idx.len() == r.len(),
            forall|a: int| 0 <= a < r.len() ==> 0 <= #[trigger] idx[a] < i && r@[a]@ == sv[idx[a]],
            forall|a: int, b: int| 0 <= a < b < r.len() ==> #[trigger] idx[a] < #[trigger] idx[b],
        decreases s.len() - i,
    {
        assert(sv.subrange(0, i + 1).drop_last() =~= sv.subrange(0, i as int));
        reveal(Seq::filter);
        let keep = match &s[i].profile_uid {
            Some(u) => !u.eq(p),
            None => true,
        };
        assert(keep == pred(sv[i as int]));
        if keep {
            let c = s[i].clone();
            r.push(c);
            proof {
                idx = idx.push(i as int);
            }
        }
        assert(settings_view(r@) =~= sv.subrange(0, i + 1).filter(pred));
        i += 1;
    }
    assert(sv.subrange(0, s.len() as int) =~= sv);
    assert forall|a: int, b: int| 0 <= a < b < r.len() implies (#[trigger] settings_view(r@)[a]).channel_name != (#[trigger] settings_view(r@)[b]).channel_name by {
        assert(idx[a] < idx[b]);
        assert(sv[idx[a]].channel_name != sv[idx[b]].channel_name);
    }
    r
}

/// Removes the settings that use Profile `p`, and the device entries that this leaves empty.
pub fn prune_devices_exec(s: &Vec<DeviceSettings>, p: &String) -> (r: Vec<DeviceSettings>)
    requires
        devices_wf(devices_view(s@)),
    ensures
        devices_view(r@) == prune_devices(devices_view(s@), p@),
        devices_wf(devices_view(r@)),
{
    let ghost sv = devices_view(s@);
    let ghost f = |d: DeviceSettingsView| prune_device(d, p@);
    let mut r: Vec<DeviceSettings> = Vec::new();
    let ghost mut idx: Seq<int> = Seq::empty();
    let mut i: usize = 0;
    while i < s.len()
        invariant
            i <= s.len(),
            sv == devices_view(s@),
            f == (|d: DeviceSettingsView| prune_device(d, p@)),
            devices_wf(sv),
            devices_view(r@) == sv.subrange(0, i as int).filter_map(f),
            idx.len() == r.len(),
            forall|a: int| 0 <= a < r.len() ==> 0 <= #[trigger] idx[a] < i && r@[a]@.device_uid == sv[idx[a]].device_uid,
            forall|a: int| 0 <= a < r.len() ==> channels_unique((#[trigger] r@[a])@.settings),
            forall|a: int, b: int| 0 <= a < b < r.len() ==> #[trigger] idx[a] < #[trigger] idx[b],
        decreases s.len() - i,
    {
        assert(sv.subrange(0, i + 1).drop_last() =~= sv.subrange(0, i as int));
        assert(channels_unique(sv[i as int].settings));
        let kept = strip_profile_exec(&s[i].settings, p);
        if kept.len() > 0 {
            let d = DeviceSettings { device_uid: s[i].device_uid.clone(), settings: kept };
            r.push(d);
            proof {
                idx = idx.push(i as int);
            }
            assert(devices_view(r@) =~= sv.subrange(0, i + 1).filter_map(f));
        } else {
            assert(devices_view(r@) =~= sv.subrange(0, i + 1).filter_map(f));
        }
        i += 1;
    }
    assert(sv.subrange(0, s.len() as int) =~= sv);
    assert forall|a: int, b: int| 0 <= a < b < r.len() implies (#[trigger] devices_view(r@)[a]).device_uid != (#[trigger] devices_view(r@)[b]).device_uid by {
        assert(idx[a] < idx[b]);
        assert(sv[idx[a]].device_uid != sv[idx[b]].device_uid);
    }
    assert forall|a: int| 0 <= a < r.len() implies channels_unique((#[trigger] devices_view(r@)[a]).settings) by {
        assert(devices_view(r@)[a] == r@[a]@);
    }
    r
}


/// Some setting in `v` equals `s`.
pub fn contains_setting(v: &Vec<Setting>, s: &Setting) -> (r: bool)
    ensures
        r == settings_view(v@).contains(s@),
{
    let mut i: usize = 0;
    while i < v.len()
        invariant
            i <= v.len(),
            forall|k: int| 0 <= k < i ==> v@[k]@ != s@,
        decreases v.len() - i,
    {
        if v[i].same_as(s) {
            assert(settings_view(v@)[i as int] == s@);
            return true;
        }
        i += 1;
    }
    assert(!settings_view(v@).contains(s@)) by {
        if settings_view(v@).contains(s@) {
            let k = choose|k: int| 0 <= k < settings_view(v@).len() && settings_view(v@)[k] == s@;
            assert(v@[k]@ == s@);
        }
    }
    false
}

/// The settings of the Mode's entry for device `uid`. Meaningful where the Mode has one.
pub open spec fn entry_of(mode: Seq<DeviceSettingsView>, uid: Seq<char>) -> Seq<SettingView> {
    mode[choose|k: int| 0 <= k < mode.len() && (#[trigger] mode[k]).device_uid == uid].settings
}

/// The settings of device `d` once a Mode holding `mode` is activated: the Mode's entry for the
/// device, or none where the Mode does not hold it.
pub open spec fn activated_device(mode: Seq<DeviceSettingsView>, d: DeviceSettingsView) -> DeviceSettingsView {
    if has_device(mode, d.device_uid) {
        DeviceSettingsView { device_uid: d.device_uid, settings: entry_of(mode, d.device_uid) }
    } else {
        DeviceSettingsView { device_uid: d.device_uid, settings: Seq::empty() }
    }
}

/// The live settings of the present devices once a Mode holding `mode` is activated.
pub open spec fn activated(mode: Seq<DeviceSettingsView>, live: Seq<DeviceSettingsView>) -> Seq<DeviceSettingsView> {
    live.map_values(|d: DeviceSettingsView| activated_device(mode, d))
}

/// Activating a Mode makes it match: whatever the live settings were, the Mode matches the
/// settings that its activation leaves.
pub proof fn lemma_activated_matches(mode: Seq<DeviceSettingsView>, live: Seq<DeviceSettingsView>)
    requires
        devices_wf(mode),
    ensures
        mode_matches(mode, activated(mode, live)),
{
    let act = activated(mode, live);
    assert forall|j: int| 0 <= j < act.len() implies device_matches(
        mode,
        (#[trigger] act[j]).device_uid,
        act[j].settings,
    ) by {
        let d = live[j];
        let uid = d.device_uid;
        assert(act[j] == activated_device(mode, d));
        if has_device(mode, uid) {
            let k0 = choose|k: int| 0 <= k < mode.len() && (#[trigger] mode[k]).device_uid == uid;
            let ms = mode[k0].settings;
            assert(act[j].settings == ms);
            assert forall|k: int| 0 <= k < mode.len() && (#[trigger] mode[k]).device_uid == uid implies channels_match(mode[k].settings, ms) by {
                if k != k0 {
                    if k < k0 {
                        assert(mode[k].device_uid != mode[k0].device_uid);
                    } else {
                        assert(mode[k0].device_uid != mode[k].device_uid);
                    }
                }
                assert forall|i: int| 0 <= i < ms.len() implies has_channel(ms, (#[trigger] ms[i]).channel_name) || ms[i].is_default() by {
                    assert(ms[i] == ms[i]);
                }
                assert forall|b: int| 0 <= b < ms.len() implies (exists|i: int|
                    0 <= i < ms.len() && #[trigger] ms[i] == #[trigger] ms[b]) || (!has_channel(
                    ms,
                    ms[b].channel_name,
                ) && ms[b].is_default()) by {
                    assert(ms[b] == ms[b]);
                }
            }
        } else {
            assert(act[j].settings.len() == 0);
        }
    }
}


/// Pruning Profile `p` from device entries: no remaining setting uses it; every setting that did
/// not use it stays under its device; a device whose settings all used it loses its entry; and
/// every remaining entry is for a device of `ds`.
pub proof fn lemma_prune_entries(ds: Seq<DeviceSettingsView>, p: Seq<char>)
    requires
        devices_wf(ds),
    ensures
        forall|k: int, j: int|
            0 <= k < prune_devices(ds, p).len() && 0 <= j < prune_devices(ds, p)[k].settings.len()
                ==> !uses_profile(#[trigger] prune_devices(ds, p)[k].settings[j], p),
        forall|k: int, j: int|
            0 <= k < ds.len() && 0 <= j < ds[k].settings.len() && !uses_profile(#[trigger] ds[k].settings[j], p)
                ==> exists|k2: int|
                0 <= k2 < prune_devices(ds, p).len() && (#[trigger] prune_devices(ds, p)[k2]).device_uid
                    == ds[k].device_uid && prune_devices(ds, p)[k2].settings.contains(ds[k].settings[j]),
        forall|k: int|
            0 <= k < ds.len() && (forall|j: int| 0 <= j < ds[k].settings.len() ==> uses_profile(#[trigger] ds[k].settings[j], p))
                ==> !has_device(prune_devices(ds, p), (#[trigger] ds[k]).device_uid),
        forall|k2: int| 0 <= k2 < prune_devices(ds, p).len() ==> has_device(ds, (#[trigger] prune_devices(ds, p)[k2]).device_uid),
    decreases ds.len(),
{
    if ds.len() == 0 {
        return;
    }
    let rest = ds.drop_last();
    let last = ds.last();
    let n = ds.len() - 1;
    assert(devices_wf(rest)) by {
        assert forall|i: int, j: int| 0 <= i < j < rest.len() implies (#[trigger] rest[i]).device_uid != (#[trigger] rest[j]).device_uid by {
            assert(ds[i].device_uid != ds[j].device_uid);
        }
        assert forall|i: int| 0 <= i < rest.len() implies channels_unique((#[trigger] rest[i]).settings) by {
            assert(rest[i] == ds[i]);
        }
    }
    lemma_prune_entries(rest, p);
    let pr = prune_devices(rest, p);
    let out = prune_devices(ds, p);
    let pred = |x: SettingView| !uses_profile(x, p);
    let kept = last.settings.filter(pred);
    let f = |d: DeviceSettingsView| prune_device(d, p);
    assert(out == pr + match f(last) {
        Some(e) => seq![e],
        None => Seq::empty(),
    });
    assert forall|k: int, j: int| 0 <= k < out.len() && 0 <= j < out[k].settings.len() implies !uses_profile(#[trigger] out[k].settings[j], p) by {
        if k < pr.len() {
            assert(out[k] == pr[k]);
        } else {
            assert(out[k].settings == kept);
            last.settings.lemma_filter_pred(pred, j);
        }
    }
    assert forall|k2: int| 0 <= k2 < out.len() implies has_device(ds, (#[trigger] out[k2]).device_uid) by {
        if k2 < pr.len() {
            assert(out[k2] == pr[k2]);
            let k = choose|k: int| 0 <= k < rest.len() && (#[trigger] rest[k]).device_uid == pr[k2].device_uid;
            assert(ds[k] == rest[k]);
        } else {
            assert(out[k2].device_uid == ds[n].device_uid);
        }
    }
    assert forall|k: int, j: int|
        0 <= k < ds.len() && 0 <= j < ds[k].settings.len() && !uses_profile(#[trigger] ds[k].settings[j], p)
            implies exists|k2: int|
            0 <= k2 < out.len() && (#[trigger] out[k2]).device_uid == ds[k].device_uid && out[k2].settings.contains(ds[k].settings[j]) by {
        if k < n {
            assert(rest[k] == ds[k]);
            let k2 = choose|k2: int|
                0 <= k2 < pr.len() && (#[trigger] pr[k2]).device_uid == rest[k].device_uid && pr[k2].settings.contains(rest[k].settings[j]);
            assert(out[k2] == pr[k2]);
        } else {
            last.settings.lemma_filter_contains(pred, j);
            assert(kept.len() > 0);
            assert(out[pr.len() as int].settings == kept);
        }
    }
    assert forall|k: int|
        0 <= k < ds.len() && (forall|j: int| 0 <= j < ds[k].settings.len() ==> uses_profile(#[trigger] ds[k].settings[j], p))
            implies !has_device(out, (#[trigger] ds[k]).device_uid) by {
        if k < n {
            assert(rest[k] == ds[k]);
            assert(!has_device(pr, rest[k].device_uid));
            if has_device(out, ds[k].device_uid) {
                let k2 = choose|k2: int| 0 <= k2 < out.len() && (#[trigger] out[k2]).device_uid == ds[k].device_uid;
                if k2 < pr.len() {
                    assert(out[k2] == pr[k2]);
                } else {
                    assert(out[k2].device_uid == ds[n].device_uid);
                    assert(ds[k].device_uid != ds[n].device_uid);
                }
            }
        } else {
            if kept.len() > 0 {
                last.settings.lemma_filter_pred(pred, 0);
                assert(kept.contains(kept[0]));
                last.settings.lemma_filter_contains_rev(pred, kept[0]);
                let j = choose|j: int| 0 <= j < last.settings.len() && last.settings[j] == kept[0];
                assert(uses_profile(ds[k].settings[j], p));
            }
            assert(out =~= pr);
            if has_device(out, ds[k].device_uid) {
                let k2 = choose|k2: int| 0 <= k2 < out.len() && (#[trigger] out[k2]).device_uid == ds[k].device_uid;
                assert(out[k2] == pr[k2]);
                let k3 = choose|k3: int| 0 <= k3 < rest.len() && (#[trigger] rest[k3]).device_uid == pr[k2].device_uid;
                assert(ds[k3] == rest[k3]);
                assert(ds[k3].device_uid != ds[n].device_uid);
            }
        }
    }
}

} // verus!
