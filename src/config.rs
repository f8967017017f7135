//! The configuration store: profiles, functions, saved device settings and general settings,
//! held as the daemon works with them. Reading and writing the file is left to the caller.
use vstd::prelude::*;

use crate::device_settings::{
    channels_unique, copy_devices, copy_settings, devices_view, devices_wf, find_device,
    has_device, prune_device, prune_devices, prune_devices_exec, settings_view, uses_profile, DeviceSettings,
    DeviceSettingsView,
};
use crate::error::CCError;
use crate::profile::{
    contains_uid, all_valid, find_profile, first_profile, profiles_view, resolve, resolve_profile_duty, temps_view,
    uids_view,
};
use crate::setting::{
    normalized, lemma_normalized, valid_setting, CoolerControlDeviceSettings, CoolerControlSettings, Function, FunctionView,
    Profile, ProfileView, Setting, SettingView, UID, ProfileType, is_default_uid, valid_profile, Milli,
    MAX_SMOOTHING_LEVEL, MAX_STARTUP_DELAY,
};

verus! {

/// `want` names each uid of `have` exactly once.
pub open spec fn is_reordering(have: Seq<Seq<char>>, want: Seq<Seq<char>>) -> bool {
    &&& want.len() == have.len()
    &&& forall|a: int, b: int| 0 <= a < b < want.len() ==> want[a] != want[b]
    &&& forall|a: int| 0 <= a < want.len() ==> have.contains(#[trigger] want[a])
}

/// Where each uid of `want` stands in `have`, if `want` is a reordering of `have`.
pub fn reorder_plan(have: &Vec<UID>, want: &Vec<UID>) -> (r: Option<Vec<usize>>)
    ensures
        r.is_some() <==> is_reordering(uids_view(have@), uids_view(want@)),
        r.is_some() ==> r.unwrap().len() == want.len() && forall|k: int|
            0 <= k < want.len() ==> (#[trigger] r.unwrap()@[k]) < have.len() && have@[r.unwrap()@[k] as int]@
                == want@[k]@,
{
    let ghost hv = uids_view(have@);
    let ghost wv = uids_view(want@);
    if have.len() != want.len() {
        return None;
    }
    let mut idx: Vec<usize> = Vec::new();
    let mut k: usize = 0;
    while k < want.len()
        invariant
            k <= want.len(),
            have.len() == want.len(),
            hv == uids_view(have@),
            wv == uids_view(want@),
            idx.len() == k,
            forall|a: int| 0 <= a < k ==> (#[trigger] idx@[a]) < have.len() && have@[idx@[a] as int]@ == want@[a]@,
            forall|a: int, b: int| 0 <= a < b < k ==> wv[a] != wv[b],
        decreases want.len() - k,
    {
        let mut j: usize = 0;
        let mut found: Option<usize> = None;
        while j < have.len()
            invariant
                j <= have.len(),
                k < want.len(),
                found.is_none() ==> forall|c: int| 0 <= c < j ==> have@[c]@ != want@[k as int]@,
                found.is_some() ==> found.unwrap() < have.len() && have@[found.unwrap() as int]@ == want@[k as int]@,
            decreases have.len() - j,
        {
            if found.is_none() && have[j].eq(&want[k]) {
                found = Some(j);
            }
            j += 1;
        }
        if found.is_none() {
            assert(!is_reordering(hv, wv)) by {
                if hv.contains(wv[k as int]) {
                    let c = choose|c: int| 0 <= c < hv.len() && hv[c] == wv[k as int];
                    assert(have@[c]@ == want@[k as int]@);
                }
            }
            return None;
        }
        let mut a: usize = 0;
        while a < k
            invariant
                a <= k,
                k < want.len(),
                wv == uids_view(want@),
                forall|c: int| 0 <= c < a ==> wv[c] != wv[k as int],
            decreases k - a,
        {
            if want[a].eq(&want[k]) {
                assert(!is_reordering(hv, wv)) by {
                    assert(wv[a as int] == wv[k as int]);
                }
                return None;
            }
            a += 1;
        }
        idx.push(found.unwrap());
        k += 1;
    }
    assert forall|a: int| 0 <= a < wv.len() implies hv.contains(#[trigger] wv[a]) by {
        assert(hv[idx@[a] as int] == wv[a]);
    }
    Some(idx)
}

pub open spec fn functions_view(s: Seq<Function>) -> Seq<FunctionView> {
    s.map_values(|f: Function| f@)
}

/// Profile uids are unique.
pub open spec fn profile_uids_unique(s: Seq<ProfileView>) -> bool {
    forall|i: int, j: int| 0 <= i < j < s.len() ==> (#[trigger] s[i]).uid != (#[trigger] s[j]).uid
}

/// Function uids are unique.
pub open spec fn function_uids_unique(s: Seq<FunctionView>) -> bool {
    forall|i: int, j: int| 0 <= i < j < s.len() ==> (#[trigger] s[i]).uid != (#[trigger] s[j]).uid
}

/// Every saved channel setting satisfies [`valid_setting`] and is no reset marker.
pub open spec fn all_settings_valid(s: Seq<DeviceSettingsView>) -> bool {
    forall|i: int, j: int|
        0 <= i < s.len() && 0 <= j < s[i].settings.len() ==> stored_ok(#[trigger] s[i].settings[j])
}

/// A setting as the store keeps it: valid, no reset marker, one control variant.
pub open spec fn stored_ok(s: SettingView) -> bool {
    valid_setting(s) && !s.is_reset() && normalized(s) == s
}

/// A setting that the store accepts: a reset marker, whatever else it holds, or a valid setting.
pub open spec fn accepted(s: SettingView) -> bool {
    s.is_reset() || valid_setting(s)
}

/// The settings saved for device `uid`: its entry's, or none.
pub open spec fn saved_for(s: Seq<DeviceSettingsView>, uid: Seq<char>) -> Seq<SettingView> {
    if has_device(s, uid) {
        s[choose|i: int| 0 <= i < s.len() && (#[trigger] s[i]).device_uid == uid].settings
    } else {
        Seq::empty()
    }
}

/// The saved settings of device `uid` once `setting` is saved for it: a reset removes the
/// channel's setting; any other, with only its first control kept ([`normalized`]), replaces it
/// or is added after the others.
pub open spec fn with_setting(saved: Seq<SettingView>, setting: SettingView) -> Seq<SettingView> {
    let rest = saved.filter(|s: SettingView| s.channel_name != setting.channel_name);
    if setting.is_reset() {
        rest
    } else {
        rest.push(normalized(setting))
    }
}

/// The configuration the daemon works with.
pub struct Config {
    device_settings: Vec<DeviceSettings>,
    profiles: Vec<Profile>,
    functions: Vec<Function>,
    settings: CoolerControlSettings,
    cc_device_settings: Vec<(UID, CoolerControlDeviceSettings)>,
    legacy690: Vec<(UID, bool)>,
}

impl Config {
    pub closed spec fn devices(&self) -> Seq<DeviceSettingsView> {
        devices_view(self.device_settings@)
    }

    pub closed spec fn profiles(&self) -> Seq<ProfileView> {
        profiles_view(self.profiles@)
    }

    pub closed spec fn functions(&self) -> Seq<FunctionView> {
        functions_view(self.functions@)
    }

    pub closed spec fn general(&self) -> CoolerControlSettings {
        self.settings
    }

    /// The legacy 690 flags, by device uid.
    pub closed spec fn legacy(&self) -> Seq<(Seq<char>, bool)> {
        self.legacy690@.map_values(|e: (UID, bool)| (e.0@, e.1))
    }

    /// The settings the daemon applies itself, by device uid.
    pub closed spec fn cc(&self) -> Seq<(Seq<char>, CoolerControlDeviceSettings)> {
        self.cc_device_settings@.map_values(|e: (UID, CoolerControlDeviceSettings)| (e.0@, e.1))
    }

    /// The store's invariant: unique device entries and channels, valid saved settings, unique
    /// and valid Profiles, unique Functions, general settings within their bounds.
    pub open spec fn wf(&self) -> bool {
        &&& devices_wf(self.devices())
        &&& all_settings_valid(self.devices())
        &&& profile_uids_unique(self.profiles())
        &&& all_valid(self.profiles())
        &&& function_uids_unique(self.functions())
        &&& self.general().wf()
        &&& legacy_unique(self.legacy())
    }

    /// A store holding the Default Profile, the Identity Function and the given general settings.
    pub fn new(settings: CoolerControlSettings) -> (r: Config)
        requires
            settings.wf(),
        ensures
            r.wf(),
            r.devices().len() == 0,
            r.profiles().len() == 1 && r.profiles()[0].p_type == ProfileType::Default
                && is_default_uid(r.profiles()[0].uid),
            r.functions().len() == 1,
            r.general() == settings,
    {
        let p = Profile::default_profile();
        let ghost pv = p@;
        let r = Config {
            device_settings: Vec::new(),
            profiles: vec![p],
            functions: vec![Function::identity()],
            settings,
            cc_device_settings: Vec::new(),
            legacy690: Vec::new(),
        };
        assert(r.devices() =~= Seq::<DeviceSettingsView>::empty());
        assert(r.legacy() =~= Seq::<(Seq<char>, bool)>::empty());
        assert(legacy_unique(r.legacy())) by {
            reveal(legacy_unique);
        }
        assert(r.profiles()[0] == pv);
        r
    }
}


/// `saved` with `setting` saved, as [`with_setting`] states.
fn set_channel(saved: &Vec<Setting>, setting: Setting) -> (r: Vec<Setting>)
    requires
        channels_unique(settings_view(saved@)),
    ensures
        settings_view(r@) == with_setting(settings_view(saved@), setting@),
        channels_unique(settings_view(r@)),
{
    let ghost sv = settings_view(saved@);
    let ghost pred = |s: SettingView| s.channel_name != setting@.channel_name;
    let mut r: Vec<Setting> = Vec::new();
    let ghost mut idx: Seq<int> = Seq::empty();
    let mut i: usize = 0;
    while i < saved.len()
        invariant
            i <= saved.len(),
            sv == settings_view(saved@),
            channels_unique(sv),
            pred == (|s: SettingView| s.channel_name != setting@.channel_name),
            settings_view(r@) == sv.subrange(0, i as int).filter(pred),
            idx.len() == r.len(),
            forall|a: int| 0 <= a < r.len() ==> 0 <= #[trigger] idx[a] < i && r@[a]@ == sv[idx[a]],
            forall|a: int, b: int| 0 <= a < b < r.len() ==> #[trigger] idx[a] < #[trigger] idx[b],
        decreases saved.len() - i,
    {
        assert(sv.subrange(0, i + 1).drop_last() =~= sv.subrange(0, i as int));
        reveal(Seq::filter);
        assert(saved@[i as int]@ == sv[i as int]);
        if !saved[i].channel_name.eq(&setting.channel_name) {
            r.push(saved[i].clone());
            proof {
                idx = idx.push(i as int);
            }
        }
        assert(settings_view(r@) =~= sv.subrange(0, i + 1).filter(pred));
        i += 1;
    }
    assert(sv.subrange(0, saved.len() as int) =~= sv);
    let ghost rest = settings_view(r@);
    assert forall|a: int, b: int| 0 <= a < b < rest.len() implies (#[trigger] rest[a]).channel_name != (#[trigger] rest[b]).channel_name by {
        assert(sv[idx[a]].channel_name != sv[idx[b]].channel_name);
    }
    if setting.reset_to_default == Some(true) {
        return r;
    }
    let ghost sval = setting@;
    let n = setting.normalized();
    proof { lemma_normalized(sval); }
    r.push(n);
    assert(settings_view(r@) =~= rest.push(normalized(sval)));
    assert forall|a: int| 0 <= a < rest.len() implies (#[trigger] rest[a]).channel_name != sval.channel_name by {
        sv.lemma_filter_pred(pred, a);
    }
    r
}

impl Config {
    /// The settings saved for device `uid`, one per channel.
    pub fn get_device_settings(&self, uid: &String) -> (r: Vec<Setting>)
        requires
            self.wf(),
        ensures
            settings_view(r@) == saved_for(self.devices(), uid@),
    {
        match find_device(&self.device_settings, uid) {
            Some(i) => {
                proof { self.lemma_saved_for_index(uid@, i as int); }
                copy_settings(&self.device_settings[i].settings)
            },
            None => {
                let r: Vec<Setting> = Vec::new();
                assert(settings_view(r@) =~= Seq::<SettingView>::empty());
                r
            },
        }
    }

    /// The entry at index `i`, of device `uid`, is the one [`saved_for`] reads.
    proof fn lemma_saved_for_index(&self, uid: Seq<char>, i: int)
        requires
            self.wf(),
            0 <= i < self.devices().len(),
            self.devices()[i].device_uid == uid,
        ensures
            saved_for(self.devices(), uid) == self.devices()[i].settings,
    {
        let s = self.devices();
        assert(has_device(s, uid));
        let c = choose|k: int| 0 <= k < s.len() && (#[trigger] s[k]).device_uid == uid;
        if c < i {
            assert(s[c].device_uid != s[i].device_uid);
        } else if c > i {
            assert(s[i].device_uid != s[c].device_uid);
        }
    }

    /// All saved device settings.
    pub fn get_all_devices_settings(&self) -> (r: Vec<DeviceSettings>)
        ensures
            devices_view(r@) == self.devices(),
    {
        copy_devices(&self.device_settings)
    }

    /// Saves `setting` for device `uid`: a reset marker removes the channel's setting, any other
    /// setting replaces it. A setting that is not valid is refused.
    pub fn set_device_setting(&mut self, uid: &String, setting: Setting) -> (r: Result<(), CCError>)
        requires
            old(self).wf(),
        ensures
            final(self).wf(),
            r is Ok <==> accepted(setting@),
            setting@.is_reset() ==> r is Ok,
            r is Err ==> r->Err_0 is UserError && final(self).devices() == old(self).devices(),
            r is Ok && !setting@.is_reset() ==> saved_for(final(self).devices(), uid@).last() == normalized(setting@),
            r is Ok && !setting@.is_reset() && setting@.speed_fixed.is_some() ==> ({
                let st = saved_for(final(self).devices(), uid@).last();
                st.speed_fixed == setting@.speed_fixed && st.speed_profile.is_none() && st.temp_source.is_none()
                    && st.profile_uid.is_none() && st.lighting.is_none() && st.lcd.is_none()
            }),
            r is Ok ==> saved_for(final(self).devices(), uid@) == with_setting(
                saved_for(old(self).devices(), uid@),
                setting@,
            ),
            r is Ok ==> forall|u: Seq<char>| u != uid@ ==> saved_for(final(self).devices(), u) == saved_for(
                old(self).devices(), u),
            final(self).profiles() == old(self).profiles(),
            final(self).functions() == old(self).functions(),
            final(self).general() == old(self).general(),
    {
        if setting.reset_to_default != Some(true) && !setting.is_valid() {
            return Err(CCError::user_error("The setting is not valid"));
        }
        let ghost old_d = self.devices();
        let ghost sval = setting@;
        match find_device(&self.device_settings, uid) {
            Some(i) => {
                proof { self.lemma_saved_for_index(uid@, i as int); }
                assert(channels_unique(old_d[i as int].settings));
                let updated = set_channel(&self.device_settings[i].settings, setting);
                let entry = DeviceSettings { device_uid: uid.clone(), settings: updated };
                let ghost ev = entry@;
                self.device_settings.set(i, entry);
                assert(self.devices() =~= old_d.update(i as int, ev));
                proof {
                    self.lemma_valid_after_set(old_d, i as int, sval);
                    self.lemma_saved_for_index(uid@, i as int);
                    self.lemma_others_unchanged(old_d, uid@);
                }
            },
            None => {
                let empty: Vec<Setting> = Vec::new();
                assert(settings_view(empty@) =~= Seq::<SettingView>::empty());
                let updated = set_channel(&empty, setting);
                let entry = DeviceSettings { device_uid: uid.clone(), settings: updated };
                let ghost ev = entry@;
                self.device_settings.push(entry);
                assert(self.devices() =~= old_d.push(ev));
                proof {
                    self.lemma_valid_after_push(old_d, sval);
                    self.lemma_saved_for_index(uid@, old_d.len() as int);
                    self.lemma_others_unchanged(old_d, uid@);
                }
            },
        }
        Ok(())
    }

    proof fn lemma_valid_after_set(&self, old_d: Seq<DeviceSettingsView>, i: int, sval: SettingView)
        requires
            devices_wf(old_d),
            all_settings_valid(old_d),
            0 <= i < old_d.len(),
            accepted(sval),
            self.devices() == old_d.update(i, self.devices()[i]),
            self.devices()[i].device_uid == old_d[i].device_uid,
            self.devices()[i].settings == with_setting(old_d[i].settings, sval),
            channels_unique(self.devices()[i].settings),
        ensures
            devices_wf(self.devices()),
            all_settings_valid(self.devices()),
    {
        let s = self.devices();
        lemma_normalized(sval);
        let pred = |x: SettingView| x.channel_name != sval.channel_name;
        let rest = old_d[i].settings.filter(pred);
        assert forall|a: int, b: int| 0 <= a < s.len() && 0 <= b < s[a].settings.len() implies stored_ok(#[trigger] s[a].settings[b]) by {
            if a == i {
                if b < rest.len() {
                    assert(rest.contains(rest[b]));
                    old_d[i].settings.lemma_filter_contains_rev(pred, rest[b]);
                    let c = choose|c: int| 0 <= c < old_d[i].settings.len() && old_d[i].settings[c] == rest[b];
                    assert(stored_ok(old_d[i].settings[c]));
                }
            }
        }
        assert forall|a: int, b: int| 0 <= a < b < s.len() implies (#[trigger] s[a]).device_uid != (#[trigger] s[b]).device_uid by {
            assert(old_d[a].device_uid != old_d[b].device_uid);
        }
        assert forall|a: int| 0 <= a < s.len() implies channels_unique((#[trigger] s[a]).settings) by {
            if a != i {
                assert(s[a] == old_d[a]);
            }
        }
    }

    proof fn lemma_valid_after_push(&self, old_d: Seq<DeviceSettingsView>, sval: SettingView)
        requires
            devices_wf(old_d),
            all_settings_valid(old_d),
            accepted(sval),
            self.devices().len() == old_d.len() + 1,
            forall|k: int| 0 <= k < old_d.len() ==> self.devices()[k] == old_d[k],
            !has_device(old_d, self.devices()[old_d.len() as int].device_uid),
            self.devices()[old_d.len() as int].settings == with_setting(Seq::empty(), sval),
            channels_unique(self.devices()[old_d.len() as int].settings),
        ensures
            devices_wf(self.devices()),
            all_settings_valid(self.devices()),
    {
        let s = self.devices();
        let n = old_d.len() as int;
        lemma_normalized(sval);
        let pred = |x: SettingView| x.channel_name != sval.channel_name;
        assert(Seq::<SettingView>::empty().filter(pred) =~= Seq::<SettingView>::empty()) by {
            reveal(Seq::filter);
        }
        assert forall|a: int, b: int| 0 <= a < s.len() && 0 <= b < s[a].settings.len() implies stored_ok(#[trigger] s[a].settings[b]) by {
            if a < n {
                assert(s[a] == old_d[a]);
            }
        }
        assert forall|a: int, b: int| 0 <= a < b < s.len() implies (#[trigger] s[a]).device_uid != (#[trigger] s[b]).device_uid by {
            if b < n {
                assert(old_d[a].device_uid != old_d[b].device_uid);
            } else {
                assert(s[a] == old_d[a]);
            }
        }
        assert forall|a: int| 0 <= a < s.len() implies channels_unique((#[trigger] s[a]).settings) by {
            if a < n {
                assert(s[a] == old_d[a]);
            }
        }
    }

    proof fn lemma_others_unchanged(&self, old_d: Seq<DeviceSettingsView>, uid: Seq<char>)
        requires
            devices_wf(old_d),
            devices_wf(self.devices()),
            self.devices().len() >= old_d.len(),
            forall|k: int| 0 <= k < old_d.len() && old_d[k].device_uid != uid ==> self.devices()[k] == old_d[k],
            forall|k: int| 0 <= k < self.devices().len() ==> (k < old_d.len() ==> (#[trigger] self.devices()[k]).device_uid == old_d[k].device_uid),
            forall|k: int| old_d.len() <= k < self.devices().len() ==> (#[trigger] self.devices()[k]).device_uid == uid,
        ensures
            forall|u: Seq<char>| u != uid ==> saved_for(self.devices(), u) == saved_for(old_d, u),
    {
        let s = self.devices();
        assert forall|u: Seq<char>| u != uid implies saved_for(s, u) == saved_for(old_d, u) by {
            if has_device(old_d, u) {
                let c = choose|k: int| 0 <= k < old_d.len() && (#[trigger] old_d[k]).device_uid == u;
                assert(s[c].device_uid == u);
                assert(has_device(s, u));
                let c2 = choose|k: int| 0 <= k < s.len() && (#[trigger] s[k]).device_uid == u;
                if c2 < c {
                    assert(s[c2].device_uid != s[c].device_uid);
                } else if c2 > c {
                    assert(s[c].device_uid != s[c2].device_uid);
                }
            } else {
                if has_device(s, u) {
                    let c2 = choose|k: int| 0 <= k < s.len() && (#[trigger] s[k]).device_uid == u;
                    assert(old_d[c2].device_uid == u);
                }
            }
        }
    }
}


/// The setting hands its channel to one of the Profiles `ps`.
pub open spec fn uses_any(s: SettingView, ps: Seq<Seq<char>>) -> bool {
    s.profile_uid.is_some() && ps.contains(s.profile_uid.unwrap())
}

/// The uids of the Mix Profiles of `ps` that have Profile `uid` among their members.
pub open spec fn mix_parents(ps: Seq<ProfileView>, uid: Seq<char>) -> Seq<Seq<char>> {
    ps.filter(|p: ProfileView| p.p_type == ProfileType::Mix && p.member_profile_uids.contains(uid)).map_values(
        |p: ProfileView| p.uid,
    )
}

/// The channels of `ds` whose saved setting uses one of the Profiles `p`, device after device.
pub open spec fn profile_users(ds: Seq<DeviceSettingsView>, p: Seq<Seq<char>>) -> Seq<(Seq<char>, Seq<char>)>
    decreases ds.len(),
{
    if ds.len() == 0 {
        Seq::empty()
    } else {
        let d = ds.last();
        profile_users(ds.drop_last(), p) + d.settings.filter_map(
            |s: SettingView| if uses_any(s, p) {
                Some((d.device_uid, s.channel_name))
            } else {
                None
            },
        )
    }
}

pub open spec fn pairs_view(s: Seq<(UID, String)>) -> Seq<(Seq<char>, Seq<char>)> {
    s.map_values(|p: (UID, String)| (p.0@, p.1@))
}

/// Some Profile in `s` has uid `uid`.
pub open spec fn has_profile(s: Seq<ProfileView>, uid: Seq<char>) -> bool {
    exists|i: int| 0 <= i < s.len() && (#[trigger] s[i]).uid == uid
}

/// Some Function in `s` has uid `uid`.
pub open spec fn has_function(s: Seq<FunctionView>, uid: Seq<char>) -> bool {
    exists|i: int| 0 <= i < s.len() && (#[trigger] s[i]).uid == uid
}

/// Whether Profile `uid` of `ps` reaches itself through Mix members.
pub open spec fn has_cycle(ps: Seq<ProfileView>, uid: Seq<char>) -> bool {
    resolve(ps, uid, Seq::empty(), Seq::empty(), ps.len() as nat) is Err
}

/// The general settings with the startup delay and the smoothing level within their bounds.
pub open spec fn clamped(s: CoolerControlSettings) -> CoolerControlSettings {
    CoolerControlSettings {
        startup_delay: if s.startup_delay > 10 { 10 } else { s.startup_delay },
        smoothing_level: if s.smoothing_level > 5 { 5 } else { s.smoothing_level },
        ..s
    }
}

impl Config {
    /// The channels whose saved setting uses one of the Profiles `p`.
    fn users_of(&self, p: &Vec<String>) -> (r: Vec<(UID, String)>)
        ensures
            pairs_view(r@) == profile_users(self.devices(), uids_view(p@)),
    {
        let ghost ds = self.devices();
        let mut r: Vec<(UID, String)> = Vec::new();
        let mut i: usize = 0;
        while i < self.device_settings.len()
            invariant
                i <= self.device_settings.len(),
                ds == self.devices(),
                pairs_view(r@) == profile_users(ds.subrange(0, i as int), uids_view(p@)),
            decreases self.device_settings.len() - i,
        {
            assert(ds.subrange(0, i + 1).drop_last() =~= ds.subrange(0, i as int));
            let d = &self.device_settings[i];
            assert(ds.subrange(0, i + 1).last() == d@);
            let ghost dv = d@;
            let ghost f = |s: SettingView| if uses_any(s, uids_view(p@)) {
                Some((dv.device_uid, s.channel_name))
            } else {
                None
            };
            let ghost base = pairs_view(r@);
            let mut j: usize = 0;
            while j < d.settings.len()
                invariant
                    j <= d.settings.len(),
                    dv == d@,
                    f == (|s: SettingView| if uses_any(s, uids_view(p@)) {
                        Some((dv.device_uid, s.channel_name))
                    } else {
                        None
                    }),
                    pairs_view(r@) == base + dv.settings.subrange(0, j as int).filter_map(f),
                decreases d.settings.len() - j,
            {
                let sv = &d.settings[j];
                assert(dv.settings.subrange(0, j + 1).drop_last() =~= dv.settings.subrange(0, j as int));
                assert(dv.settings.subrange(0, j + 1).last() == sv@);
                let ghost old_r = pairs_view(r@);
                let ghost old_fm = dv.settings.subrange(0, j as int).filter_map(f);
                let uses = match &sv.profile_uid {
                    Some(u) => contains_uid(p, u),
                    None => false,
                };
                if uses {
                    r.push((d.device_uid.clone(), sv.channel_name.clone()));
                    assert(pairs_view(r@) =~= old_r.push((dv.device_uid, sv@.channel_name)));
                    assert(base + (old_fm + seq![(dv.device_uid, sv@.channel_name)]) =~= (base + old_fm).push((dv.device_uid, sv@.channel_name)));
                } else {
                    assert(base + (old_fm + Seq::empty()) =~= base + old_fm);
                }
                assert(pairs_view(r@) =~= base + dv.settings.subrange(0, j + 1).filter_map(f));
                j += 1;
            }
            assert(dv.settings.subrange(0, d.settings.len() as int) =~= dv.settings);
            i += 1;
        }
        assert(ds.subrange(0, ds.len() as int) =~= ds);
        r
    }

    /// All Profiles, in order.
    pub fn get_profiles(&self) -> (r: Vec<Profile>)
        ensures
            profiles_view(r@) == self.profiles(),
    {
        let mut r: Vec<Profile> = Vec::new();
        let mut i: usize = 0;
        while i < self.profiles.len()
            invariant
                i <= self.profiles.len(),
                r.len() == i,
                forall|k: int| 0 <= k < i ==> (#[trigger] r@[k])@ == self.profiles@[k]@,
            decreases self.profiles.len() - i,
        {
            r.push(self.profiles[i].clone());
            i += 1;
        }
        assert(profiles_view(r@) =~= self.profiles());
        r
    }

    /// Adds a new Profile. One whose uid exists, one that is not valid, and a Mix that would
    /// reach itself are refused.
    #[verifier::rlimit(80)]
    pub fn set_profile(&mut self, profile: Profile) -> (r: Result<(), CCError>)
        requires
            old(self).wf(),
        ensures
            final(self).wf(),
            r is Ok <==> !has_profile(old(self).profiles(), profile@.uid) && valid_profile(profile@)
                && !has_cycle(old(self).profiles().push(profile@), profile@.uid),
            r is Err ==> r->Err_0 is UserError && final(self).profiles() == old(self).profiles(),
            r is Ok ==> final(self).profiles() == old(self).profiles().push(profile@),
            final(self).devices() == old(self).devices(),
            final(self).functions() == old(self).functions(),
            final(self).general() == old(self).general(),
    {
        let ghost pv = profile@;
        match find_profile(&self.profiles, &profile.uid) {
            Some(i) => {
                assert(self.profiles()[i as int].uid == pv.uid);
                return Err(CCError::user_error("The Profile already exists"));
            },
            None => {},
        }
        assert(!has_profile(self.profiles(), pv.uid)) by {
            if has_profile(self.profiles(), pv.uid) {
                let c = choose|c: int| 0 <= c < self.profiles().len() && (#[trigger] self.profiles()[c]).uid == pv.uid;
                let k = choose|k: int| 0 <= k <= c && self.profiles()[k].uid == pv.uid && forall|m: int| 0 <= m < k ==> self.profiles()[m].uid != pv.uid;
                assert(first_profile(self.profiles(), pv.uid, k));
            }
        }
        if !profile.is_valid() {
            return Err(CCError::user_error("The Profile is not valid"));
        }
        let uid = profile.uid.clone();
        let ghost before = self.profiles();
        self.profiles.push(profile);
        assert(self.profiles() =~= before.push(pv));
        assert(all_valid(self.profiles()));
        let empty: Vec<(String, Milli)> = Vec::new();
        assert(temps_view(empty@) =~= Seq::empty());
        if resolve_profile_duty(&self.profiles, &uid, &empty).is_err() {
            self.profiles.pop();
            assert(self.profiles() =~= before);
            return Err(CCError::user_error("The Mix Profile would contain itself"));
        }
        assert forall|a: int, b: int| 0 <= a < b < self.profiles().len() implies (#[trigger] self.profiles()[a]).uid != (#[trigger] self.profiles()[b]).uid by {
            if b == before.len() {
                if self.profiles()[a].uid == pv.uid {
                    assert(before[a].uid == pv.uid);
                }
            }
        }
        Ok(())
    }

    /// Replaces the Profile with the uid of `profile`. An unknown uid is not found; a Profile
    /// that is not valid, and a Mix that would reach itself, are refused.
    #[verifier::rlimit(80)]
    pub fn update_profile(&mut self, profile: Profile) -> (r: Result<(), CCError>)
        requires
            old(self).wf(),
        ensures
            final(self).wf(),
            !has_profile(old(self).profiles(), profile@.uid) ==> r is Err && r->Err_0 is NotFound,
            r is Err ==> final(self).profiles() == old(self).profiles(),
            r is Ok ==> exists|i: int|
                0 <= i < old(self).profiles().len() && (#[trigger] old(self).profiles()[i]).uid == profile@.uid
                    && final(self).profiles() == old(self).profiles().update(i, profile@)
                    && !has_cycle(final(self).profiles(), profile@.uid),
            has_profile(old(self).profiles(), profile@.uid) && valid_profile(profile@) ==> (r is Ok <==> exists|i: int|
                0 <= i < old(self).profiles().len() && (#[trigger] old(self).profiles()[i]).uid == profile@.uid
                    && !has_cycle(old(self).profiles().update(i, profile@), profile@.uid)),
            !valid_profile(profile@) ==> r is Err,
            final(self).devices() == old(self).devices(),
            final(self).functions() == old(self).functions(),
            final(self).general() == old(self).general(),
    {
        let ghost pv = profile@;
        let ghost before = self.profiles();
        let i = match find_profile(&self.profiles, &profile.uid) {
            Some(i) => i,
            None => {
                assert(!has_profile(before, pv.uid)) by {
                    if has_profile(before, pv.uid) {
                        let c = choose|c: int| 0 <= c < before.len() && (#[trigger] before[c]).uid == pv.uid;
                        let k = choose|k: int| 0 <= k <= c && before[k].uid == pv.uid && forall|m: int| 0 <= m < k ==> before[m].uid != pv.uid;
                        assert(first_profile(before, pv.uid, k));
                    }
                }
                return Err(CCError::not_found("Profile not found"));
            },
        };
        if !profile.is_valid() {
            return Err(CCError::user_error("The Profile is not valid"));
        }
        let uid = profile.uid.clone();
        let previous = self.profiles[i].clone();
        self.profiles.set(i, profile);
        assert(self.profiles() =~= before.update(i as int, pv));
        assert(all_valid(self.profiles()));
        let empty: Vec<(String, Milli)> = Vec::new();
        assert(temps_view(empty@) =~= Seq::empty());
        if resolve_profile_duty(&self.profiles, &uid, &empty).is_err() {
            self.profiles.set(i, previous);
            assert(self.profiles() =~= before);
            proof {
                assert forall|j: int| 0 <= j < before.len() && (#[trigger] before[j]).uid == pv.uid implies j == i by {
                    if j < i { assert(before[j].uid != before[i as int].uid); }
                    if j > i { assert(before[i as int].uid != before[j].uid); }
                }
            }
            return Err(CCError::user_error("The Mix Profile would contain itself"));
        }
        assert forall|a: int, b: int| 0 <= a < b < self.profiles().len() implies (#[trigger] self.profiles()[a]).uid != (#[trigger] self.profiles()[b]).uid by {
            assert(before[a].uid != before[b].uid);
        }
        Ok(())
    }

    /// Removes the Profile with uid `uid`, and every saved channel setting that uses it.
    /// Returns those channels, device by device: each is to be reset.
    #[verifier::rlimit(80)]
    pub fn delete_profile(&mut self, uid: &String) -> (r: Result<Vec<(UID, String)>, CCError>)
        requires
            old(self).wf(),
        ensures
            final(self).wf(),
            !has_profile(old(self).profiles(), uid@) <==> r is Err,
            r is Err ==> r->Err_0 is NotFound && final(self).profiles() == old(self).profiles()
                && final(self).devices() == old(self).devices(),
            r is Ok ==> exists|i: int|
                0 <= i < old(self).profiles().len() && (#[trigger] old(self).profiles()[i]).uid == uid@
                    && final(self).profiles() == old(self).profiles().remove(i),
            r is Ok ==> final(self).devices() == prune_devices(old(self).devices(), uid@),
            r is Ok ==> pairs_view(r->Ok_0@) == profile_users(old(self).devices(), seq![uid@]),
            final(self).functions() == old(self).functions(),
            final(self).general() == old(self).general(),
    {
        let ghost before = self.profiles();
        let i = match find_profile(&self.profiles, uid) {
            Some(i) => i,
            None => {
                assert(!has_profile(before, uid@)) by {
                    if has_profile(before, uid@) {
                        let c = choose|c: int| 0 <= c < before.len() && (#[trigger] before[c]).uid == uid@;
                        let k = choose|k: int| 0 <= k <= c && before[k].uid == uid@ && forall|m: int| 0 <= m < k ==> before[m].uid != uid@;
                        assert(first_profile(before, uid@, k));
                    }
                }
                return Err(CCError::not_found("Profile not found"));
            },
        };
        let targets = vec![uid.clone()];
        assert(uids_view(targets@) =~= seq![uid@]);
        let resets = self.users_of(&targets);
        self.profiles.remove(i);
        assert(self.profiles() =~= before.remove(i as int));
        let ghost old_d = self.devices();
        let pruned = prune_devices_exec(&self.device_settings, uid);
        self.device_settings = pruned;
        proof {
            lemma_prune_keeps_valid(old_d, uid@);
        }
        assert forall|a: int, b: int| 0 <= a < b < self.profiles().len() implies (#[trigger] self.profiles()[a]).uid != (#[trigger] self.profiles()[b]).uid by {
            if b < i {
                assert(before[a].uid != before[b].uid);
            } else if a < i {
                assert(before[a].uid != before[b + 1].uid);
            } else {
                assert(before[a + 1].uid != before[b + 1].uid);
            }
        }
        Ok(resets)
    }
}

/// Pruning keeps every remaining setting valid.
proof fn lemma_prune_keeps_valid(ds: Seq<DeviceSettingsView>, p: Seq<char>)
    requires
        all_settings_valid(ds),
    ensures
        all_settings_valid(prune_devices(ds, p)),
    decreases ds.len(),
{
    let f = |d: DeviceSettingsView| prune_device(d, p);
    if ds.len() > 0 {
        let rest = ds.drop_last();
        assert forall|a: int, b: int| 0 <= a < rest.len() && 0 <= b < rest[a].settings.len() implies stored_ok(#[trigger] rest[a].settings[b]) by {
            assert(rest[a] == ds[a]);
        }
        lemma_prune_keeps_valid(rest, p);
        let out = prune_devices(ds, p);
        let last = ds.last();
        let pred = |x: SettingView| !uses_profile(x, p);
        match f(last) {
            Some(e) => {
                assert(out == prune_devices(rest, p) + seq![e]);
                assert forall|b: int| 0 <= b < e.settings.len() implies stored_ok(#[trigger] e.settings[b]) by {
                    assert(e.settings.contains(e.settings[b]));
                    last.settings.lemma_filter_contains_rev(pred, e.settings[b]);
                    let c = choose|c: int| 0 <= c < last.settings.len() && last.settings[c] == e.settings[b];
                    assert(stored_ok(ds[ds.len() - 1].settings[c]));
                }
                assert forall|a: int, b: int| 0 <= a < out.len() && 0 <= b < out[a].settings.len() implies stored_ok(#[trigger] out[a].settings[b]) by {
                    if a < out.len() - 1 {
                        assert(out[a] == prune_devices(rest, p)[a]);
                        assert(stored_ok(prune_devices(rest, p)[a].settings[b]));
                    } else {
                        assert(out[a] == e);
                        assert(stored_ok(e.settings[b]));
                    }
                }
            },
            None => {
                assert(out == prune_devices(rest, p) + Seq::empty());
                assert(out =~= prune_devices(rest, p));
            },
        }
    }
}


impl Config {
    fn find_function(&self, uid: &String) -> (r: Option<usize>)
        ensures
            match r {
                Some(i) => i < self.functions().len() && self.functions()[i as int].uid == uid@,
                None => !has_function(self.functions(), uid@),
            },
    {
        let mut i: usize = 0;
        while i < self.functions.len()
            invariant
                i <= self.functions.len(),
                forall|k: int| 0 <= k < i ==> self.functions()[k].uid != uid@,
            decreases self.functions.len() - i,
        {
            if self.functions[i].uid.eq(uid) {
                return Some(i);
            }
            i += 1;
        }
        None
    }

    /// All Functions, in order.
    pub fn get_functions(&self) -> (r: Vec<Function>)
        ensures
            functions_view(r@) == self.functions(),
    {
        let mut r: Vec<Function> = Vec::new();
        let mut i: usize = 0;
        while i < self.functions.len()
            invariant
                i <= self.functions.len(),
                r.len() == i,
                forall|k: int| 0 <= k < i ==> (#[trigger] r@[k])@ == self.functions@[k]@,
            decreases self.functions.len() - i,
        {
            r.push(self.functions[i].clone());
            i += 1;
        }
        assert(functions_view(r@) =~= self.functions());
        r
    }

    /// Adds a new Function; one whose uid exists is refused.
    pub fn set_function(&mut self, function: Function) -> (r: Result<(), CCError>)
        requires
            old(self).wf(),
        ensures
            final(self).wf(),
            has_function(old(self).functions(), function@.uid) <==> r is Err,
            r is Err ==> r->Err_0 is UserError && final(self).functions() == old(self).functions(),
            r is Ok ==> final(self).functions() == old(self).functions().push(function@),
            final(self).devices() == old(self).devices(),
            final(self).profiles() == old(self).profiles(),
            final(self).general() == old(self).general(),
    {
        if self.find_function(&function.uid).is_some() {
            return Err(CCError::user_error("The Function already exists"));
        }
        let ghost fv = function@;
        let ghost before = self.functions();
        self.functions.push(function);
        assert(self.functions() =~= before.push(fv));
        assert forall|a: int, b: int| 0 <= a < b < self.functions().len() implies (#[trigger] self.functions()[a]).uid != (#[trigger] self.functions()[b]).uid by {
            if b == before.len() {
                assert(self.functions()[a] == before[a]);
            }
        }
        Ok(())
    }

    /// Replaces the Function with the uid of `function`.
    pub fn update_function(&mut self, function: Function) -> (r: Result<(), CCError>)
        requires
            old(self).wf(),
        ensures
            final(self).wf(),
            !has_function(old(self).functions(), function@.uid) <==> r is Err,
            r is Err ==> r->Err_0 is NotFound && final(self).functions() == old(self).functions(),
            r is Ok ==> exists|i: int|
                0 <= i < old(self).functions().len() && (#[trigger] old(self).functions()[i]).uid == function@.uid
                    && final(self).functions() == old(self).functions().update(i, function@),
            final(self).devices() == old(self).devices(),
            final(self).profiles() == old(self).profiles(),
            final(self).general() == old(self).general(),
    {
        let i = match self.find_function(&function.uid) {
            Some(i) => i,
            None => {
                return Err(CCError::not_found("Function not found"));
            },
        };
        let ghost fv = function@;
        let ghost before = self.functions();
        self.functions.set(i, function);
        assert(self.functions() =~= before.update(i as int, fv));
        assert forall|a: int, b: int| 0 <= a < b < self.functions().len() implies (#[trigger] self.functions()[a]).uid != (#[trigger] self.functions()[b]).uid by {
            assert(before[a].uid != before[b].uid);
        }
        Ok(())
    }

    /// Removes the Function with uid `uid`.
    pub fn delete_function(&mut self, uid: &String) -> (r: Result<(), CCError>)
        requires
            old(self).wf(),
        ensures
            final(self).wf(),
            !has_function(old(self).functions(), uid@) <==> r is Err,
            r is Err ==> r->Err_0 is NotFound && final(self).functions() == old(self).functions(),
            r is Ok ==> exists|i: int|
                0 <= i < old(self).functions().len() && (#[trigger] old(self).functions()[i]).uid == uid@
                    && final(self).functions() == old(self).functions().remove(i),
            final(self).devices() == old(self).devices(),
            final(self).profiles() == old(self).profiles(),
            final(self).general() == old(self).general(),
    {
        let i = match self.find_function(uid) {
            Some(i) => i,
            None => {
                return Err(CCError::not_found("Function not found"));
            },
        };
        let ghost before = self.functions();
        self.functions.remove(i);
        assert(self.functions() =~= before.remove(i as int));
        assert forall|a: int, b: int| 0 <= a < b < self.functions().len() implies (#[trigger] self.functions()[a]).uid != (#[trigger] self.functions()[b]).uid by {
            if b < i {
                assert(before[a].uid != before[b].uid);
            } else if a < i {
                assert(before[a].uid != before[b + 1].uid);
            } else {
                assert(before[a + 1].uid != before[b + 1].uid);
            }
        }
        Ok(())
    }

    /// Puts the Profiles in the order of `uids`, which must name each Profile exactly once.
    pub fn set_profiles_order(&mut self, uids: &Vec<UID>) -> (r: Result<(), CCError>)
        requires
            old(self).wf(),
        ensures
            final(self).wf(),
            r is Ok <==> old(self).profiles().len() > 0 && is_reordering(old(self).profiles().map_values(|p: ProfileView| p.uid), uids_view(uids@)),
            r is Err ==> r->Err_0 is UserError && final(self).profiles() == old(self).profiles(),
            r is Ok ==> final(self).profiles().len() == old(self).profiles().len() && forall|k: int|
                0 <= k < uids.len() ==> (#[trigger] final(self).profiles()[k]).uid == uids@[k]@
                    && old(self).profiles().contains(final(self).profiles()[k]),
            final(self).devices() == old(self).devices(),
            final(self).functions() == old(self).functions(),
            final(self).general() == old(self).general(),
    {
        if self.profiles.len() == 0 {
            return Err(CCError::user_error("There are no stored profiles to order"));
        }
        let ghost before = self.profiles();
        let mut have: Vec<UID> = Vec::new();
        let mut i: usize = 0;
        while i < self.profiles.len()
            invariant
                i <= self.profiles.len(),
                before == self.profiles(),
                have.len() == i,
                forall|k: int| 0 <= k < i ==> (#[trigger] have@[k])@ == before[k].uid,
            decreases self.profiles.len() - i,
        {
            have.push(self.profiles[i].uid.clone());
            i += 1;
        }
        assert(uids_view(have@) =~= before.map_values(|p: ProfileView| p.uid));
        let idx = match reorder_plan(&have, uids) {
            Some(idx) => idx,
            None => {
                return Err(CCError::user_error("The order must name each Profile exactly once"));
            },
        };
        let mut next: Vec<Profile> = Vec::new();
        let mut j: usize = 0;
        while j < idx.len()
            invariant
                j <= idx.len(),
                before == self.profiles(),
                have.len() == self.profiles.len(),
                forall|k: int| 0 <= k < idx.len() ==> (#[trigger] idx@[k]) < have.len() && have@[idx@[k] as int]@ == uids@[k]@,
                forall|k: int| 0 <= k < have.len() ==> (#[trigger] have@[k])@ == before[k].uid,
                next.len() == j,
                forall|k: int| 0 <= k < j ==> (#[trigger] next@[k])@ == before[idx@[k] as int],
            decreases idx.len() - j,
        {
            next.push(self.profiles[idx[j]].clone());
            j += 1;
        }
        self.profiles = next;
        let ghost wv = uids_view(uids@);
        assert forall|a: int, b: int| 0 <= a < b < self.profiles().len() implies (#[trigger] self.profiles()[a]).uid != (#[trigger] self.profiles()[b]).uid by {
            assert(self.profiles()[a].uid == wv[a]);
            assert(self.profiles()[b].uid == wv[b]);
        }
        assert forall|a: int| 0 <= a < self.profiles().len() implies crate::setting::valid_profile(#[trigger] self.profiles()[a]) by {
            assert(self.profiles()[a] == before[idx@[a] as int]);
        }
        assert forall|k: int| 0 <= k < uids.len() implies (#[trigger] self.profiles()[k]).uid == uids@[k]@
            && before.contains(self.profiles()[k]) by {
            assert(self.profiles()[k] == before[idx@[k] as int]);
        }
        Ok(())
    }

    /// Puts the Functions in the order of `uids`, which must name each Function exactly once.
    pub fn set_functions_order(&mut self, uids: &Vec<UID>) -> (r: Result<(), CCError>)
        requires
            old(self).wf(),
        ensures
            final(self).wf(),
            r is Ok <==> old(self).functions().len() > 0 && is_reordering(old(self).functions().map_values(|p: FunctionView| p.uid), uids_view(uids@)),
            r is Err ==> r->Err_0 is UserError && final(self).functions() == old(self).functions(),
            r is Ok ==> final(self).functions().len() == old(self).functions().len() && forall|k: int|
                0 <= k < uids.len() ==> (#[trigger] final(self).functions()[k]).uid == uids@[k]@
                    && old(self).functions().contains(final(self).functions()[k]),
            final(self).devices() == old(self).devices(),
            final(self).profiles() == old(self).profiles(),
            final(self).general() == old(self).general(),
    {
        if self.functions.len() == 0 {
            return Err(CCError::user_error("There are no stored functions to order"));
        }
        let ghost before = self.functions();
        let mut have: Vec<UID> = Vec::new();
        let mut i: usize = 0;
        while i < self.functions.len()
            invariant
                i <= self.functions.len(),
                before == self.functions(),
                have.len() == i,
                forall|k: int| 0 <= k < i ==> (#[trigger] have@[k])@ == before[k].uid,
            decreases self.functions.len() - i,
        {
            have.push(self.functions[i].uid.clone());
            i += 1;
        }
        assert(uids_view(have@) =~= before.map_values(|p: FunctionView| p.uid));
        let idx = match reorder_plan(&have, uids) {
            Some(idx) => idx,
            None => {
                return Err(CCError::user_error("The order must name each Function exactly once"));
            },
        };
        let mut next: Vec<Function> = Vec::new();
        let mut j: usize = 0;
        while j < idx.len()
            invariant
                j <= idx.len(),
                before == self.functions(),
                have.len() == self.functions.len(),
                forall|k: int| 0 <= k < idx.len() ==> (#[trigger] idx@[k]) < have.len() && have@[idx@[k] as int]@ == uids@[k]@,
                forall|k: int| 0 <= k < have.len() ==> (#[trigger] have@[k])@ == before[k].uid,
                next.len() == j,
                forall|k: int| 0 <= k < j ==> (#[trigger] next@[k])@ == before[idx@[k] as int],
            decreases idx.len() - j,
        {
            next.push(self.functions[idx[j]].clone());
            j += 1;
        }
        self.functions = next;
        let ghost wv = uids_view(uids@);
        assert forall|a: int, b: int| 0 <= a < b < self.functions().len() implies (#[trigger] self.functions()[a]).uid != (#[trigger] self.functions()[b]).uid by {
            assert(self.functions()[a].uid == wv[a]);
            assert(self.functions()[b].uid == wv[b]);
        }
        assert forall|k: int| 0 <= k < uids.len() implies (#[trigger] self.functions()[k]).uid == uids@[k]@
            && before.contains(self.functions()[k]) by {
            assert(self.functions()[k] == before[idx@[k] as int]);
        }
        Ok(())
    }

    /// The general settings.
    pub fn get_settings(&self) -> (r: CoolerControlSettings)
        ensures
            r == self.general(),
    {
        self.settings
    }

    /// Replaces the general settings; the startup delay and smoothing level are clamped to
    /// their bounds.
    pub fn set_settings(&mut self, settings: CoolerControlSettings)
        requires
            old(self).wf(),
        ensures
            final(self).wf(),
            final(self).general() == clamped(settings),
            final(self).devices() == old(self).devices(),
            final(self).profiles() == old(self).profiles(),
            final(self).functions() == old(self).functions(),
    {
        let mut s = settings;
        if s.startup_delay > MAX_STARTUP_DELAY {
            s.startup_delay = MAX_STARTUP_DELAY;
        }
        if s.smoothing_level > MAX_SMOOTHING_LEVEL {
            s.smoothing_level = MAX_SMOOTHING_LEVEL;
        }
        self.settings = s;
    }

    /// Which devices are flagged as legacy 690 coolers.
    pub fn legacy690_ids(&self) -> (r: Vec<(UID, bool)>)
        ensures
            r@.map_values(|e: (UID, bool)| (e.0@, e.1)) == self.legacy(),
    {
        let mut r: Vec<(UID, bool)> = Vec::new();
        let mut i: usize = 0;
        while i < self.legacy690.len()
            invariant
                i <= self.legacy690.len(),
                r.len() == i,
                forall|k: int| 0 <= k < i ==> (#[trigger] r@[k]).0@ == self.legacy690@[k].0@ && r@[k].1 == self.legacy690@[k].1,
            decreases self.legacy690.len() - i,
        {
            r.push((self.legacy690[i].0.clone(), self.legacy690[i].1));
            i += 1;
        }
        assert(r@.map_values(|e: (UID, bool)| (e.0@, e.1)) =~= self.legacy());
        r
    }

    /// Flags device `uid` as a legacy 690 cooler or not, replacing an earlier flag.
    pub fn set_legacy690_id(&mut self, uid: &String, is_legacy690: bool)
        requires
            old(self).wf(),
        ensures
            final(self).wf(),
            final(self).devices() == old(self).devices(),
            final(self).profiles() == old(self).profiles(),
            final(self).functions() == old(self).functions(),
            final(self).general() == old(self).general(),
            final(self).legacy() == legacy_after(old(self).legacy(), uid@, is_legacy690),
    {
        let mut i: usize = 0;
        let mut found: Option<usize> = None;
        while i < self.legacy690.len()
            invariant
                i <= self.legacy690.len(),
                found.is_some() ==> found.unwrap() < self.legacy690.len() && self.legacy()[found.unwrap() as int].0 == uid@,
                found.is_none() ==> forall|k: int| 0 <= k < i ==> self.legacy()[k].0 != uid@,
            decreases self.legacy690.len() - i,
        {
            if found.is_none() && self.legacy690[i].0.eq(uid) {
                found = Some(i);
            }
            i += 1;
        }
        let ghost before = self.legacy();
        proof {
            reveal(legacy_unique);
        }
        match found {
            Some(i) => {
                let ghost c = choose|k: int| 0 <= k < before.len() && (#[trigger] before[k]).0 == uid@;
                assert(c == i as int) by {
                    if c < i as int { assert(before[c].0 != before[i as int].0); }
                    if c > i as int { assert(before[i as int].0 != before[c].0); }
                }
                self.legacy690.set(i, (uid.clone(), is_legacy690));
                assert(self.legacy() =~= before.update(i as int, (uid@, is_legacy690)));
                reveal(legacy_unique);
                assert forall|a: int, b: int| 0 <= a < b < self.legacy().len() implies (#[trigger] self.legacy()[a]).0 != (#[trigger] self.legacy()[b]).0 by {
                    assert(before[a].0 != before[b].0);
                }
            },
            None => {
                self.legacy690.push((uid.clone(), is_legacy690));
                assert(self.legacy() =~= before.push((uid@, is_legacy690)));
                reveal(legacy_unique);
                assert forall|a: int, b: int| 0 <= a < b < self.legacy().len() implies (#[trigger] self.legacy()[a]).0 != (#[trigger] self.legacy()[b]).0 by {
                    if b < before.len() {
                        assert(before[a].0 != before[b].0);
                    }
                }
            },
        }
    }

    /// The settings the daemon applies itself to device `uid`, if any were saved.
    pub fn get_cc_settings_for_device(&self, uid: &String) -> (r: Option<CoolerControlDeviceSettings>)
        ensures
            r == cc_for(self.cc(), uid@),
    {
        let mut i: usize = 0;
        while i < self.cc_device_settings.len()
            invariant
                i <= self.cc_device_settings.len(),
                forall|k: int| 0 <= k < i ==> (#[trigger] self.cc()[k]).0 != uid@,
            decreases self.cc_device_settings.len() - i,
        {
            if self.cc_device_settings[i].0.eq(uid) {
                assert(first_cc(self.cc(), uid@, i as int));
                let ghost c = choose|c: int| first_cc(self.cc(), uid@, c);
                assert(c == i as int) by {
                    if c < i as int { assert(self.cc()[c].0 != uid@); }
                    if c > i as int { assert(self.cc()[i as int].0 != uid@); }
                }
                return Some(self.cc_device_settings[i].1);
            }
            i += 1;
        }
        None
    }

    /// Saves the settings the daemon applies itself to device `uid`.
    pub fn set_cc_settings_for_device(&mut self, uid: &String, settings: CoolerControlDeviceSettings)
        requires
            old(self).wf(),
        ensures
            final(self).wf(),
            final(self).devices() == old(self).devices(),
            final(self).profiles() == old(self).profiles(),
            final(self).functions() == old(self).functions(),
            final(self).general() == old(self).general(),
            cc_for(final(self).cc(), uid@) == Some(settings),
    {
        let mut i: usize = 0;
        let mut found: Option<usize> = None;
        while i < self.cc_device_settings.len()
            invariant
                i <= self.cc_device_settings.len(),
                found.is_none() ==> forall|k: int| 0 <= k < i ==> (#[trigger] self.cc()[k]).0 != uid@,
                found.is_some() ==> first_cc(self.cc(), uid@, found.unwrap() as int),
            decreases self.cc_device_settings.len() - i,
        {
            if found.is_none() && self.cc_device_settings[i].0.eq(uid) {
                found = Some(i);
            }
            i += 1;
        }
        let ghost before = self.cc();
        match found {
            Some(i) => {
                self.cc_device_settings.set(i, (uid.clone(), settings));
                assert(self.cc() =~= before.update(i as int, (uid@, settings)));
                assert(first_cc(self.cc(), uid@, i as int));
                let ghost c = choose|c: int| first_cc(self.cc(), uid@, c);
                assert(c == i as int) by {
                    if c < i as int { assert(self.cc()[c].0 != uid@); }
                    if c > i as int { assert(self.cc()[i as int].0 != uid@); }
                }
            },
            None => {
                self.cc_device_settings.push((uid.clone(), settings));
                assert(self.cc() =~= before.push((uid@, settings)));
                let ghost n = before.len() as int;
                assert(first_cc(self.cc(), uid@, n));
                let ghost c = choose|c: int| first_cc(self.cc(), uid@, c);
                assert(c == n) by {
                    if c < n { assert(self.cc()[c].0 != uid@); }
                }
            },
        }
    }

    /// The saved settings of each present device `present`, in that order: what a Mode is
    /// matched against.
    pub fn present_device_settings(&self, present: &Vec<UID>) -> (r: Vec<DeviceSettings>)
        requires
            self.wf(),
            forall|a: int, b: int| 0 <= a < b < present.len() ==> (#[trigger] present@[a])@ != (#[trigger] present@[b])@,
        ensures
            devices_wf(devices_view(r@)),
            devices_view(r@) == present_view(self.devices(), present@),
            r.len() == present.len(),
            forall|k: int| 0 <= k < present.len() ==> (#[trigger] devices_view(r@)[k]) == (DeviceSettingsView {
                device_uid: present@[k]@,
                settings: saved_for(self.devices(), present@[k]@),
            }),
    {
        let mut r: Vec<DeviceSettings> = Vec::new();
        let mut i: usize = 0;
        while i < present.len()
            invariant
                i <= present.len(),
                self.wf(),
                r.len() == i,
                forall|k: int| 0 <= k < i ==> (#[trigger] r@[k])@ == (DeviceSettingsView {
                    device_uid: present@[k]@,
                    settings: saved_for(self.devices(), present@[k]@),
                }),
                forall|k: int| 0 <= k < i ==> channels_unique((#[trigger] r@[k])@.settings),
            decreases present.len() - i,
        {
            let settings = self.get_device_settings(&present[i]);
            proof {
                let s = self.devices();
                if has_device(s, present@[i as int]@) {
                    let c = choose|c: int| 0 <= c < s.len() && (#[trigger] s[c]).device_uid == present@[i as int]@;
                    assert(channels_unique(s[c].settings));
                }
            }
            r.push(DeviceSettings { device_uid: present[i].clone(), settings });
            i += 1;
        }
        let ghost rv = devices_view(r@);
        assert forall|a: int, b: int| 0 <= a < b < rv.len() implies (#[trigger] rv[a]).device_uid != (#[trigger] rv[b]).device_uid by {
            assert(rv[a] == r@[a]@);
            assert(rv[b] == r@[b]@);
        }
        assert forall|a: int| 0 <= a < rv.len() implies channels_unique((#[trigger] rv[a]).settings) by {
            assert(rv[a] == r@[a]@);
        }
        assert(rv =~= present_view(self.devices(), present@));
        r
    }
}

/// No two legacy 690 flags are for the same device.
#[verifier::opaque]
pub open spec fn legacy_unique(l: Seq<(Seq<char>, bool)>) -> bool {
    forall|i: int, j: int| 0 <= i < j < l.len() ==> (#[trigger] l[i]).0 != (#[trigger] l[j]).0
}

/// The legacy 690 flags `l` once device `uid` is flagged `b`: its entry is replaced, or one is
/// added last.
pub open spec fn legacy_after(l: Seq<(Seq<char>, bool)>, uid: Seq<char>, b: bool) -> Seq<(Seq<char>, bool)> {
    if exists|k: int| 0 <= k < l.len() && (#[trigger] l[k]).0 == uid {
        l.update(choose|k: int| 0 <= k < l.len() && (#[trigger] l[k]).0 == uid, (uid, b))
    } else {
        l.push((uid, b))
    }
}

/// The saved settings of each present device `present`, in that order.
pub open spec fn present_view(s: Seq<DeviceSettingsView>, present: Seq<String>) -> Seq<DeviceSettingsView> {
    present.map_values(|u: String| DeviceSettingsView { device_uid: u@, settings: saved_for(s, u@) })
}

/// `i` is the first index in `s` of settings for device `uid`.
pub open spec fn first_cc(s: Seq<(Seq<char>, CoolerControlDeviceSettings)>, uid: Seq<char>, i: int) -> bool {
    &&& 0 <= i < s.len()
    &&& s[i].0 == uid
    &&& forall|k: int| 0 <= k < i ==> (#[trigger] s[k]).0 != uid
}

/// The first settings saved for device `uid` in `s`, if any.
pub open spec fn cc_for(s: Seq<(Seq<char>, CoolerControlDeviceSettings)>, uid: Seq<char>) -> Option<CoolerControlDeviceSettings> {
    if exists|i: int| first_cc(s, uid, i) {
        Some(s[choose|i: int| first_cc(s, uid, i)].1)
    } else {
        None
    }
}


impl Config {
    /// The channels to re-resolve once Profile `uid` changed: those whose saved setting uses it
    /// or a Mix Profile that has it among its members.
    pub fn channels_affected_by(&self, uid: &String) -> (r: Vec<(UID, String)>)
        ensures
            pairs_view(r@) == profile_users(self.devices(), seq![uid@] + mix_parents(self.profiles(), uid@)),
    {
        let ghost pv = self.profiles();
        let ghost pred = |p: ProfileView| p.p_type == ProfileType::Mix && p.member_profile_uids.contains(uid@);
        let mut targets: Vec<String> = vec![uid.clone()];
        let mut i: usize = 0;
        while i < self.profiles.len()
            invariant
                i <= self.profiles.len(),
                pv == self.profiles(),
                pred == (|p: ProfileView| p.p_type == ProfileType::Mix && p.member_profile_uids.contains(uid@)),
                uids_view(targets@) == seq![uid@] + pv.subrange(0, i as int).filter(pred).map_values(|p: ProfileView| p.uid),
            decreases self.profiles.len() - i,
        {
            assert(pv.subrange(0, i + 1).drop_last() =~= pv.subrange(0, i as int));
            reveal(Seq::filter);
            let p = &self.profiles[i];
            assert(pv[i as int] == p@);
            assert(pv.subrange(0, i + 1).last() == p@);
            let ghost before = uids_view(targets@);
            let ghost old_f = pv.subrange(0, i as int).filter(pred);
            let is_parent = match p.p_type {
                ProfileType::Mix => contains_uid(&p.member_profile_uids, uid),
                _ => false,
            };
            assert(is_parent == pred(p@));
            if is_parent {
                targets.push(p.uid.clone());
                assert(uids_view(targets@) =~= before.push(p@.uid));
                assert(old_f.push(p@).map_values(|q: ProfileView| q.uid) =~= old_f.map_values(|q: ProfileView| q.uid).push(p@.uid));
            }
            assert(uids_view(targets@) =~= seq![uid@] + pv.subrange(0, i + 1).filter(pred).map_values(|p: ProfileView| p.uid));
            i += 1;
        }
        assert(pv.subrange(0, pv.len() as int) =~= pv);
        self.users_of(&targets)
    }
}


/// The settings `s` with one control variant each.
pub open spec fn normalized_all(s: Seq<SettingView>) -> Seq<SettingView> {
    s.map_values(|x: SettingView| normalized(x))
}

/// Saving the settings `s` one after the other, from none, gives them back with one control
/// variant each, where no two are for the same channel and none is a reset marker.
proof fn lemma_replay_channels(s: Seq<SettingView>, j: int)
    requires
        0 <= j < s.len(),
        channels_unique(s),
        !s[j].is_reset(),
    ensures
        with_setting(normalized_all(s.subrange(0, j)), s[j]) == normalized_all(s.subrange(0, j + 1)),
{
    let pre = normalized_all(s.subrange(0, j));
    let pred = |x: SettingView| x.channel_name != s[j].channel_name;
    assert forall|k: int| 0 <= k < pre.len() implies pred(#[trigger] pre[k]) by {
        lemma_normalized(s[k]);
        assert(s[k].channel_name != s[j].channel_name);
    }
    lemma_filter_all(pre, pred);
    assert(pre.push(normalized(s[j])) =~= normalized_all(s.subrange(0, j + 1)));
}

/// A filter that keeps every element keeps the sequence.
proof fn lemma_filter_all(s: Seq<SettingView>, pred: spec_fn(SettingView) -> bool)
    requires
        forall|k: int| 0 <= k < s.len() ==> pred(#[trigger] s[k]),
    ensures
        s.filter(pred) == s,
    decreases s.len(),
{
    reveal(Seq::filter);
    if s.len() > 0 {
        lemma_filter_all(s.drop_last(), pred);
        assert(s.drop_last().push(s.last()) =~= s);
    } else {
        assert(s.filter(pred) =~= s);
    }
}

impl Config {
    /// Saves every setting of the device entries `ds`, device after device, as
    /// [`Config::set_device_setting`] does; it stops at the first setting that is refused. Into a
    /// store that holds no device settings, entries without reset markers give each device back
    /// the settings of its entry, each with one control variant.
    pub fn load_device_settings(&mut self, ds: &Vec<DeviceSettings>) -> (r: Result<(), CCError>)
        requires
            old(self).wf(),
        ensures
            final(self).wf(),
            final(self).profiles() == old(self).profiles(),
            final(self).functions() == old(self).functions(),
            final(self).general() == old(self).general(),
            r is Ok <==> forall|k: int, j: int|
                0 <= k < ds.len() && 0 <= j < ds@[k]@.settings.len() ==> accepted(#[trigger] ds@[k]@.settings[j]),
            r is Err ==> r->Err_0 is UserError,
            r is Ok && old(self).devices().len() == 0 && devices_wf(devices_view(ds@)) && (forall|k: int, j: int|
                0 <= k < ds.len() && 0 <= j < ds@[k]@.settings.len() ==> !(#[trigger] ds@[k]@.settings[j]).is_reset())
                ==> forall|k: int| 0 <= k < ds.len() ==> saved_for(final(self).devices(), (#[trigger] ds@[k])@.device_uid)
                == normalized_all(ds@[k]@.settings),
    {
        let ghost dv = devices_view(ds@);
        let ghost fresh = old(self).devices().len() == 0 && devices_wf(dv) && (forall|k: int, j: int|
            0 <= k < ds.len() && 0 <= j < ds@[k]@.settings.len() ==> !(#[trigger] ds@[k]@.settings[j]).is_reset());
        let mut i: usize = 0;
        while i < ds.len()
            invariant
                i <= ds.len(),
                self.wf(),
                dv == devices_view(ds@),
                fresh == (old(self).devices().len() == 0 && devices_wf(dv) && (forall|k: int, j: int|
                    0 <= k < ds.len() && 0 <= j < ds@[k]@.settings.len() ==> !(#[trigger] ds@[k]@.settings[j]).is_reset())),
                self.profiles() == old(self).profiles(),
                self.functions() == old(self).functions(),
                self.general() == old(self).general(),
                forall|k: int, j: int| 0 <= k < i && 0 <= j < ds@[k]@.settings.len() ==> accepted(#[trigger] ds@[k]@.settings[j]),
                fresh ==> forall|k: int| 0 <= k < i ==> saved_for(self.devices(), (#[trigger] dv[k]).device_uid) == normalized_all(dv[k].settings),
                fresh ==> forall|u: Seq<char>| (forall|k: int| 0 <= k < i ==> (#[trigger] dv[k]).device_uid != u)
                    ==> saved_for(self.devices(), u).len() == 0,
            decreases ds.len() - i,
        {
            let d = &ds[i];
            assert(dv[i as int] == d@);
            let ghost uid = d@.device_uid;
            proof {
                if fresh {
                    assert(forall|k: int| 0 <= k < i ==> (#[trigger] dv[k]).device_uid != uid) by {
                        assert forall|k: int| 0 <= k < i implies (#[trigger] dv[k]).device_uid != uid by {
                            assert(dv[k].device_uid != dv[i as int].device_uid);
                        }
                    }
                    assert(saved_for(self.devices(), uid).len() == 0);
                    assert(saved_for(self.devices(), uid) =~= normalized_all(d@.settings.subrange(0, 0)));
                }
            }
            let mut j: usize = 0;
            while j < d.settings.len()
                invariant
                    j <= d.settings.len(),
                    i < ds.len(),
                    self.wf(),
                    dv == devices_view(ds@),
                    dv[i as int] == d@,
                    ds@[i as int]@ == d@,
                    uid == d@.device_uid,
                    fresh == (old(self).devices().len() == 0 && devices_wf(dv) && (forall|k: int, j: int|
                        0 <= k < ds.len() && 0 <= j < ds@[k]@.settings.len() ==> !(#[trigger] ds@[k]@.settings[j]).is_reset())),
                    self.profiles() == old(self).profiles(),
                    self.functions() == old(self).functions(),
                    self.general() == old(self).general(),
                    forall|k: int, j: int| 0 <= k < i && 0 <= j < ds@[k]@.settings.len() ==> accepted(#[trigger] ds@[k]@.settings[j]),
                    forall|jj: int| 0 <= jj < j ==> accepted(#[trigger] d@.settings[jj]),
                    fresh ==> saved_for(self.devices(), uid) == normalized_all(d@.settings.subrange(0, j as int)),
                    fresh ==> forall|k: int| 0 <= k < i ==> saved_for(self.devices(), (#[trigger] dv[k]).device_uid) == normalized_all(dv[k].settings),
                    fresh ==> forall|u: Seq<char>| u != uid && (forall|k: int| 0 <= k < i ==> (#[trigger] dv[k]).device_uid != u)
                        ==> saved_for(self.devices(), u).len() == 0,
                decreases d.settings.len() - j,
            {
                let st = d.settings[j].clone();
                let ghost sv = st@;
                assert(sv == d@.settings[j as int]);
                match self.set_device_setting(&d.device_uid, st) {
                    Ok(()) => {},
                    Err(e) => {
                        assert(!accepted(ds@[i as int]@.settings[j as int]));
                        return Err(e);
                    },
                }
                proof {
                    if fresh {
                        assert(devices_wf(dv));
                        assert(channels_unique(dv[i as int].settings));
                        assert(!d@.settings[j as int].is_reset()) by {
                            assert(ds@[i as int]@.settings[j as int] == d@.settings[j as int]);
                        }
                        lemma_replay_channels(d@.settings, j as int);
                        assert forall|k: int| 0 <= k < i implies saved_for(self.devices(), (#[trigger] dv[k]).device_uid) == normalized_all(dv[k].settings) by {
                            assert(dv[k].device_uid != dv[i as int].device_uid);
                        }
                    }
                }
                j += 1;
            }
            proof {
                if fresh {
                    assert(d@.settings.subrange(0, d@.settings.len() as int) =~= d@.settings);
                }
            }
            i += 1;
        }
        proof {
            if fresh {
                assert forall|k: int| 0 <= k < ds.len() implies saved_for(self.devices(), (#[trigger] ds@[k])@.device_uid)
                    == normalized_all(ds@[k]@.settings) by {
                    assert(dv[k] == ds@[k]@);
                }
            }
        }
        Ok(())
    }
}

/// Saving then loading the device settings keeps them: what a well-formed store holds meets
/// what [`Config::load_device_settings`] asks of its entries (well formed, no reset marker), and
/// each entry holds exactly the settings that the store gives its device; so loading
/// [`Config::get_all_devices_settings`] into an empty store gives every device the same settings.
pub proof fn lemma_device_settings_round_trip(c: Config)
    requires
        c.wf(),
    ensures
        devices_wf(c.devices()),
        forall|k: int, j: int|
            0 <= k < c.devices().len() && 0 <= j < c.devices()[k].settings.len() ==> !(#[trigger] c.devices()[k].settings[j]).is_reset(),
        forall|k: int|
            0 <= k < c.devices().len() ==> saved_for(c.devices(), (#[trigger] c.devices()[k]).device_uid)
                == c.devices()[k].settings && normalized_all(c.devices()[k].settings) == c.devices()[k].settings,
{
    assert forall|k: int, j: int|
        0 <= k < c.devices().len() && 0 <= j < c.devices()[k].settings.len() implies !(#[trigger] c.devices()[k].settings[j]).is_reset() by {
        assert(stored_ok(c.devices()[k].settings[j]));
    }
    assert forall|k: int| 0 <= k < c.devices().len() implies saved_for(c.devices(), (#[trigger] c.devices()[k]).device_uid)
        == c.devices()[k].settings by {
        c.lemma_saved_for_index(c.devices()[k].device_uid, k);
        let st = c.devices()[k].settings;
        assert forall|j: int| 0 <= j < st.len() implies normalized_all(st)[j] == st[j] by {
            assert(stored_ok(st[j]));
        }
        assert(normalized_all(st) =~= st);
    }
}

} // verus!
