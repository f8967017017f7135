//! Modes: named snapshots of every device's channel settings, which can be activated, and which
//! are "active" whenever the live settings match them.
use vstd::prelude::*;

use crate::device_settings::{
    activated_device, channels_unique, copy_devices, copy_settings, contains_setting, devices_view,
    devices_wf, entry_of, find_channel, find_device, has_channel, has_device,
    mode_matches, mode_matches_exec, settings_view, DeviceSettings, DeviceSettingsView,
    activated, prune_devices, prune_devices_exec, lemma_activated_matches,
};
use crate::setting::{is_default_profile, Setting, SettingView};
use crate::config::{present_view, Config};
use crate::error::CCError;
use crate::outside::fresh_uid;
use crate::setting::UID;
use vstd::string::StringExecFns;

verus! {

/// A named snapshot of all per-device, per-channel settings.
pub struct Mode {
    pub uid: UID,
    pub name: String,
    pub all_device_settings: Vec<DeviceSettings>,
}

pub struct ModeView {
    pub uid: Seq<char>,
    pub name: Seq<char>,
    pub devices: Seq<DeviceSettingsView>,
}

impl View for Mode {
    type V = ModeView;

    open spec fn view(&self) -> ModeView {
        ModeView {
            uid: self.uid@,
            name: self.name@,
            devices: devices_view(self.all_device_settings@),
        }
    }
}

impl Clone for Mode {
    fn clone(&self) -> (r: Self)
        ensures
            r@ == self@,
    {
        Mode {
            uid: self.uid.clone(),
            name: self.name.clone(),
            all_device_settings: copy_devices(&self.all_device_settings),
        }
    }
}

pub open spec fn modes_view(s: Seq<Mode>) -> Seq<ModeView> {
    s.map_values(|m: Mode| m@)
}

/// Some Mode in `s` has uid `uid`.
pub open spec fn has_mode(s: Seq<ModeView>, uid: Seq<char>) -> bool {
    exists|i: int| 0 <= i < s.len() && (#[trigger] s[i]).uid == uid
}

/// Mode uids are unique and each Mode's device entries are well formed.
pub open spec fn modes_wf(s: Seq<ModeView>) -> bool {
    &&& forall|i: int, j: int| 0 <= i < j < s.len() ==> (#[trigger] s[i]).uid != (#[trigger] s[j]).uid
    &&& forall|i: int| 0 <= i < s.len() ==> devices_wf((#[trigger] s[i]).devices)
}

/// Mode `m` is active: it matches the live settings `live` of every present device.
#[verifier::opaque]
pub open spec fn mode_active(m: ModeView, live: Seq<DeviceSettingsView>) -> bool {
    mode_matches(m.devices, live)
}

/// Some Mode in `modes` with uid `uid` is active under `live`.
pub open spec fn active_uid(modes: Seq<ModeView>, uid: Seq<char>, live: Seq<DeviceSettingsView>) -> bool {
    exists|i: int| 0 <= i < modes.len() && (#[trigger] modes[i]).uid == uid && mode_active(modes[i], live)
}

/// Holds the Modes in their user-given order.
pub struct ModeController {
    modes: Vec<Mode>,
}

impl View for ModeController {
    type V = Seq<ModeView>;

    closed spec fn view(&self) -> Seq<ModeView> {
        modes_view(self.modes@)
    }
}

impl ModeController {
    pub open spec fn wf(&self) -> bool {
        modes_wf(self@)
    }

    /// A controller holding no Mode.
    pub fn new() -> (r: ModeController)
        ensures
            r.wf(),
            r@.len() == 0,
    {
        let r = ModeController { modes: Vec::new() };
        assert(r@ =~= Seq::<ModeView>::empty());
        r
    }

    /// The index of the Mode with uid `uid`, if any.
    fn find_mode(&self, uid: &String) -> (r: Option<usize>)
        ensures
            match r {
                Some(i) => i < self@.len() && self@[i as int].uid == uid@,
                None => !has_mode(self@, uid@),
            },
    {
        let mut i: usize = 0;
        while i < self.modes.len()
            invariant
                i <= self.modes.len(),
                forall|k: int| 0 <= k < i ==> self@[k].uid != uid@,
            decreases self.modes.len() - i,
        {
            if self.modes[i].uid.eq(uid) {
                return Some(i);
            }
            i += 1;
        }
        None
    }

    /// All Modes, in order.
    pub fn get_modes(&self) -> (r: Vec<Mode>)
        ensures
            modes_view(r@) == self@,
    {
        let mut r: Vec<Mode> = Vec::new();
        let mut i: usize = 0;
        while i < self.modes.len()
            invariant
                i <= self.modes.len(),
                r.len() == i,
                forall|k: int| 0 <= k < i ==> (#[trigger] r@[k])@ == self.modes@[k]@,
            decreases self.modes.len() - i,
        {
            let c = self.modes[i].clone();
            r.push(c);
            i += 1;
        }
        assert(modes_view(r@) =~= self@);
        r
    }

    /// The Mode with uid `uid`, if there is one.
    pub fn get_mode(&self, uid: &String) -> (r: Option<Mode>)
        requires
            self.wf(),
        ensures
            has_mode(self@, uid@) <==> r.is_some(),
            r.is_some() ==> r.unwrap()@.uid == uid@ && exists|i: int|
                0 <= i < self@.len() && self@[i] == r.unwrap()@,
    {
        match self.find_mode(uid) {
            Some(i) => {
                let m = self.modes[i].clone();
                assert(self@[i as int] == m@);
                Some(m)
            },
            None => None,
        }
    }

    /// The uids of the Modes that match the live settings `live` of every present device, in
    /// order. `live` holds one entry for each present device.
    pub fn determine_active_modes_uids(&self, live: &Vec<DeviceSettings>) -> (r: Vec<UID>)
        requires
            self.wf(),
        ensures
            r.len() <= self@.len(),
            forall|k: int| 0 <= k < r.len() ==> active_uid(self@, (#[trigger] r@[k])@, devices_view(live@)),
            forall|a: int, b: int| 0 <= a < b < r.len() ==> (#[trigger] r@[a])@ != (#[trigger] r@[b])@,
            forall|i: int|
                0 <= i < self@.len() && mode_active(#[trigger] self@[i], devices_view(live@))
                    ==> exists|k: int| 0 <= k < r.len() && (#[trigger] r@[k])@ == self@[i].uid,
    {
        let mut r: Vec<UID> = Vec::new();
        let ghost mut idx: Seq<int> = Seq::empty();
        let ghost lv = devices_view(live@);
        let mut i: usize = 0;
        while i < self.modes.len()
            invariant
                i <= self.modes.len(),
                self.wf(),
                lv == devices_view(live@),
                r.len() == idx.len(),
                r.len() <= i,
                forall|k: int|
                    0 <= k < r.len() ==> 0 <= #[trigger] idx[k] < i && self@[idx[k]].uid == r@[k]@
                        && mode_active(self@[idx[k]], lv),
                forall|a: int|
                    0 <= a < i && mode_active(#[trigger] self@[a], lv) ==> exists|k: int|
                        0 <= k < r.len() && idx[k] == a,
                forall|a: int, b: int| 0 <= a < b < r.len() ==> #[trigger] idx[a] < #[trigger] idx[b],
            decreases self.modes.len() - i,
        {
            assert(devices_wf(self@[i as int].devices));
            let m = mode_matches_exec(&self.modes[i].all_device_settings, live);
            assert(m == mode_active(self@[i as int], lv)) by {
                reveal(mode_active);
            }
            let ghost old_idx = idx;
            if m {
                r.push(self.modes[i].uid.clone());
                proof {
                    idx = idx.push(i as int);
                }
                assert(idx[idx.len() - 1] == i);
            }
            assert forall|a: int|
                0 <= a < i + 1 && mode_active(#[trigger] self@[a], lv) implies exists|k: int|
                0 <= k < r.len() && idx[k] == a by {
                if a < i {
                    let k = choose|k: int| 0 <= k < old_idx.len() && old_idx[k] == a;
                    assert(idx[k] == old_idx[k]);
                } else {
                    assert(idx[idx.len() - 1] == a);
                }
            }
            i += 1;
        }
        assert forall|k: int| 0 <= k < r.len() implies active_uid(self@, (#[trigger] r@[k])@, devices_view(live@)) by {
            let a = idx[k];
            assert(0 <= a < self@.len() && self@[a].uid == r@[k]@ && mode_active(self@[a], lv));
        }
        assert forall|a: int|
            0 <= a < self@.len() && mode_active(#[trigger] self@[a], devices_view(live@)) implies exists|
            k: int,
        | 0 <= k < r.len() && (#[trigger] r@[k])@ == self@[a].uid by {
            let k = choose|k: int| 0 <= k < r.len() && idx[k] == a;
            assert(r@[k]@ == self@[a].uid);
        }
        assert forall|a: int, b: int| 0 <= a < b < r.len() implies (#[trigger] r@[a])@ != (#[trigger] r@[b])@ by {
            assert(idx[a] < idx[b]);
            assert(self@[idx[a]].uid != self@[idx[b]].uid);
        }
        r
    }

    /// Appends a Mode with the given uid, name and device settings.
    pub fn insert_mode(&mut self, uid: String, name: String, devices: Vec<DeviceSettings>) -> (r:
        Result<Mode, CCError>)
        requires
            old(self).wf(),
            devices_wf(devices_view(devices@)),
        ensures
            final(self).wf(),
            has_mode(old(self)@, uid@) <==> r is Err,
            r is Err ==> r->Err_0 is InternalError && final(self)@ == old(self)@,
            r is Ok ==> r->Ok_0@ == (ModeView { uid: uid@, name: name@, devices: devices_view(devices@) })
                && final(self)@ == old(self)@.push(r->Ok_0@),
    {
        if self.find_mode(&uid).is_some() {
            return Err(CCError::internal("A Mode with this uid already exists"));
        }
        let mode = Mode { uid, name, all_device_settings: devices };
        let copy = mode.clone();
        self.modes.push(mode);
        assert(self@ =~= old(self)@.push(copy@));
        Ok(copy)
    }

    /// Creates a Mode named `name` that holds the current device settings `current`, under a
    /// fresh uid, and appends it to the order.
    pub fn create_mode(&mut self, name: String, current: Vec<DeviceSettings>) -> (r: Result<
        Mode,
        CCError,
    >)
        requires
            old(self).wf(),
            devices_wf(devices_view(current@)),
        ensures
            final(self).wf(),
            r is Err ==> r->Err_0 is InternalError && final(self)@ == old(self)@,
            r is Ok ==> r->Ok_0@.name == name@ && r->Ok_0@.devices == devices_view(current@)
                && !has_mode(old(self)@, r->Ok_0@.uid) && final(self)@ == old(self)@.push(r->Ok_0@),
    {
        let uid = fresh_uid();
        self.insert_mode(uid, name, current)
    }

    /// Copies the Mode with uid `uid` under a fresh uid, with " (copy)" after its name.
    pub fn duplicate_mode(&mut self, uid: &String) -> (r: Result<Mode, CCError>)
        requires
            old(self).wf(),
        ensures
            final(self).wf(),
            !has_mode(old(self)@, uid@) ==> r is Err && r->Err_0 is NotFound,
            has_mode(old(self)@, uid@) && r is Err ==> r->Err_0 is InternalError,
            r is Err ==> final(self)@ == old(self)@,
            r is Ok ==> exists|i: int|
                0 <= i < old(self)@.len() && (#[trigger] old(self)@[i]).uid == uid@
                    && r->Ok_0@.name == old(self)@[i].name + " (copy)"@ && r->Ok_0@.devices
                    == old(self)@[i].devices,
            r is Ok ==> !has_mode(old(self)@, r->Ok_0@.uid) && final(self)@ == old(self)@.push(
                r->Ok_0@,
            ),
    {
        let i = match self.find_mode(uid) {
            Some(i) => i,
            None => {
                return Err(CCError::not_found("Mode not found"));
            },
        };
        assert(devices_wf(self@[i as int].devices));
        let name = self.modes[i].name.clone().concat(" (copy)");
        let devices = copy_devices(&self.modes[i].all_device_settings);
        let new_uid = fresh_uid();
        let r = self.insert_mode(new_uid, name, devices);
        assert(r is Ok ==> old(self)@[i as int].uid == uid@ && r->Ok_0@.name == old(self)@[i as int].name
            + " (copy)"@);
        r
    }

    /// Renames the Mode with uid `uid`.
    pub fn update_mode(&mut self, uid: &String, name: String) -> (r: Result<(), CCError>)
        requires
            old(self).wf(),
        ensures
            final(self).wf(),
            !has_mode(old(self)@, uid@) <==> r is Err,
            r is Err ==> r->Err_0 is NotFound && final(self)@ == old(self)@,
            r is Ok ==> exists|i: int|
                0 <= i < old(self)@.len() && (#[trigger] old(self)@[i]).uid == uid@ && final(self)@
                    == old(self)@.update(i, ModeView { name: name@, ..old(self)@[i] }),
    {
        let i = match self.find_mode(uid) {
            Some(i) => i,
            None => {
                return Err(CCError::not_found("Mode not found"));
            },
        };
        let ghost target = self@.update(i as int, ModeView { name: name@, ..self@[i as int] });
        let mut mode = self.modes.remove(i);
        mode.name = name;
        self.modes.insert(i, mode);
        assert(self@ =~= target);
        assert(old(self)@[i as int].uid == uid@);
        Ok(())
    }

    /// Replaces the settings held by the Mode with uid `uid` with the current device settings
    /// `current`.
    pub fn update_mode_with_current_settings(&mut self, uid: &String, current: Vec<DeviceSettings>) -> (r:
        Result<Mode, CCError>)
        requires
            old(self).wf(),
            devices_wf(devices_view(current@)),
        ensures
            final(self).wf(),
            !has_mode(old(self)@, uid@) <==> r is Err,
            r is Err ==> r->Err_0 is NotFound && final(self)@ == old(self)@,
            r is Ok ==> exists|i: int|
                0 <= i < old(self)@.len() && (#[trigger] old(self)@[i]).uid == uid@ && r->Ok_0@
                    == (ModeView { devices: devices_view(current@), ..old(self)@[i] }) && final(self)@
                    == old(self)@.update(i, r->Ok_0@),
    {
        let i = match self.find_mode(uid) {
            Some(i) => i,
            None => {
                return Err(CCError::not_found("Mode not found"));
            },
        };
        let mut mode = self.modes.remove(i);
        mode.all_device_settings = current;
        let copy = mode.clone();
        self.modes.insert(i, mode);
        assert(self@ =~= old(self)@.update(i as int, copy@));
        assert(old(self)@[i as int].uid == uid@);
        Ok(copy)
    }

    /// Removes the Mode with uid `uid`.
    pub fn delete_mode(&mut self, uid: &String) -> (r: Result<(), CCError>)
        requires
            old(self).wf(),
        ensures
            final(self).wf(),
            !has_mode(old(self)@, uid@) <==> r is Err,
            r is Err ==> r->Err_0 is NotFound && final(self)@ == old(self)@,
            r is Ok ==> exists|i: int|
                0 <= i < old(self)@.len() && (#[trigger] old(self)@[i]).uid == uid@ && final(self)@
                    == old(self)@.remove(i),
            !has_mode(final(self)@, uid@),
    {
        let i = match self.find_mode(uid) {
            Some(i) => i,
            None => {
                return Err(CCError::not_found("Mode not found"));
            },
        };
        self.modes.remove(i);
        assert(self@ =~= old(self)@.remove(i as int));
        assert(old(self)@[i as int].uid == uid@);
        assert(!has_mode(self@, uid@)) by {
            if has_mode(self@, uid@) {
                let k = choose|k: int| 0 <= k < self@.len() && (#[trigger] self@[k]).uid == uid@;
                if k < i {
                    assert(old(self)@[k].uid != old(self)@[i as int].uid);
                } else {
                    assert(old(self)@[i as int].uid != old(self)@[k + 1].uid);
                }
            }
        }
        Ok(())
    }

    /// Puts the Modes in the order of `uids`, which must name each Mode exactly once.
    pub fn update_mode_order(&mut self, uids: &Vec<UID>) -> (r: Result<(), CCError>)
        requires
            old(self).wf(),
        ensures
            final(self).wf(),
            r is Ok <==> is_reordering(old(self)@, uids@.map_values(|u: String| u@)),
            r is Err ==> r->Err_0 is UserError && final(self)@ == old(self)@,
            r is Ok ==> final(self)@.len() == old(self)@.len(),
            r is Ok ==> forall|k: int|
                0 <= k < uids.len() ==> (#[trigger] final(self)@[k]).uid == uids@[k]@,
            r is Ok ==> forall|k: int|
                0 <= k < uids.len() ==> old(self)@.contains(#[trigger] final(self)@[k]),
    {
        let ghost uv = uids@.map_values(|u: String| u@);
        if uids.len() != self.modes.len() {
            return Err(CCError::user_error("Mode order list length doesn't match the number of modes"));
        }
        let mut picked: Vec<usize> = Vec::new();
        let mut k: usize = 0;
        while k < uids.len()
            invariant
                k <= uids.len(),
                self.wf(),
                uids.len() == self.modes.len(),
                uv == uids@.map_values(|u: String| u@),
                picked.len() == k,
                forall|a: int| 0 <= a < k ==> (#[trigger] picked@[a]) < self.modes.len() && self@[picked@[a] as int].uid == uv[a],
                forall|a: int, b: int| 0 <= a < b < k ==> uv[a] != uv[b],
            decreases uids.len() - k,
        {
            let found = self.find_mode(&uids[k]);
            if found.is_none() {
                assert(!is_reordering(self@, uv)) by {
                    assert(!has_mode(self@, uv[k as int]));
                }
                return Err(CCError::user_error("Mode order names an unknown mode"));
            }
            let mut a: usize = 0;
            while a < k
                invariant
                    a <= k,
                    k < uids.len(),
                    self.wf(),
                    uv == uids@.map_values(|u: String| u@),
                    forall|c: int| 0 <= c < a ==> uv[c] != uv[k as int],
                decreases k - a,
            {
                if uids[a].eq(&uids[k]) {
                    assert(!is_reordering(self@, uv)) by {
                        assert(uv[a as int] == uv[k as int]);
                    }
                    return Err(CCError::user_error("Mode order names a mode twice"));
                }
                a += 1;
            }
            picked.push(found.unwrap());
            k += 1;
        }
        assert forall|a: int| 0 <= a < uv.len() implies has_mode(self@, #[trigger] uv[a]) by {
            assert(self@[picked@[a] as int].uid == uv[a]);
        }
        assert(is_reordering(self@, uv));
        let mut ordered: Vec<Mode> = Vec::new();
        let mut j: usize = 0;
        while j < picked.len()
            invariant
                j <= picked.len(),
                self.wf(),
                uv == uids@.map_values(|u: String| u@),
                picked.len() == uids.len(),
                uids.len() == self.modes.len(),
                forall|a: int| 0 <= a < picked.len() ==> (#[trigger] picked@[a]) < self.modes.len() && self@[picked@[a] as int].uid == uv[a],
                ordered.len() == j,
                forall|a: int| 0 <= a < j ==> (#[trigger] ordered@[a])@ == self@[picked@[a] as int],
            decreases picked.len() - j,
        {
            ordered.push(self.modes[picked[j]].clone());
            j += 1;
        }
        let ghost before = self@;
        self.modes = ordered;
        assert forall|a: int, b: int| 0 <= a < b < self@.len() implies (#[trigger] self@[a]).uid != (#[trigger] self@[b]).uid by {
            assert(self@[a] == before[picked@[a] as int]);
            assert(self@[b] == before[picked@[b] as int]);
        }
        assert forall|a: int| 0 <= a < self@.len() implies devices_wf((#[trigger] self@[a]).devices) by {
            assert(self@[a] == before[picked@[a] as int]);
        }
        assert forall|a: int| 0 <= a < uids.len() implies (#[trigger] self@[a]).uid == uids@[a]@ && before.contains(self@[a]) by {
            let i = picked@[a] as int;
            assert(0 <= i < before.len() && before[i] == self@[a]);
        }
        assert(before == old(self)@);
        Ok(())
    }
}

/// `uids` names each Mode of `modes` exactly once.
pub open spec fn is_reordering(modes: Seq<ModeView>, uids: Seq<Seq<char>>) -> bool {
    &&& uids.len() == modes.len()
    &&& forall|a: int, b: int| 0 <= a < b < uids.len() ==> uids[a] != uids[b]
    &&& forall|a: int| 0 <= a < uids.len() ==> has_mode(modes, #[trigger] uids[a])
}


/// What activating a Mode asks of a device's channel.
pub enum ModeAction {
    /// Hand the channel back to the device's automatic control and forget its setting.
    Reset { device_uid: UID, channel_name: String },
    /// Apply the setting to the channel and save it.
    Apply { device_uid: UID, setting: Setting },
}

pub enum ModeActionView {
    Reset { device_uid: Seq<char>, channel_name: Seq<char> },
    Apply { device_uid: Seq<char>, setting: SettingView },
}

impl View for ModeAction {
    type V = ModeActionView;

    open spec fn view(&self) -> ModeActionView {
        match self {
            ModeAction::Reset { device_uid, channel_name } => ModeActionView::Reset {
                device_uid: device_uid@,
                channel_name: channel_name@,
            },
            ModeAction::Apply { device_uid, setting } => ModeActionView::Apply {
                device_uid: device_uid@,
                setting: setting@,
            },
        }
    }
}

pub open spec fn actions_view(s: Seq<ModeAction>) -> Seq<ModeActionView> {
    s.map_values(|a: ModeAction| a@)
}

/// A live setting of a device that the Mode holds, whose channel the Mode leaves unset, is reset.
pub open spec fn reset_if_unset(ms: Seq<SettingView>, uid: Seq<char>, l: SettingView) -> Option<ModeActionView> {
    if !has_channel(ms, l.channel_name) {
        Some(ModeActionView::Reset { device_uid: uid, channel_name: l.channel_name })
    } else {
        None
    }
}

/// A Mode setting that is not live is applied.
pub open spec fn apply_if_missing(live: Seq<SettingView>, uid: Seq<char>, m: SettingView) -> Option<ModeActionView> {
    if !live.contains(m) {
        Some(ModeActionView::Apply { device_uid: uid, setting: m })
    } else {
        None
    }
}

/// The actions that activating a Mode holding `mode` asks of device `d`: where the Mode holds
/// the device, the resets of its unset channels and then the Mode's settings that are not
/// live; otherwise a reset of every live channel.
pub open spec fn device_plan(mode: Seq<DeviceSettingsView>, d: DeviceSettingsView) -> Seq<ModeActionView> {
    if has_device(mode, d.device_uid) {
        let ms = entry_of(mode, d.device_uid);
        d.settings.filter_map(|l: SettingView| reset_if_unset(ms, d.device_uid, l)) + ms.filter_map(
            |m: SettingView| apply_if_missing(d.settings, d.device_uid, m),
        )
    } else {
        d.settings.map_values(
            |l: SettingView| ModeActionView::Reset { device_uid: d.device_uid, channel_name: l.channel_name },
        )
    }
}

/// The actions of activating a Mode holding `mode`, device after device.
pub open spec fn plan(mode: Seq<DeviceSettingsView>, live: Seq<DeviceSettingsView>) -> Seq<ModeActionView>
    decreases live.len(),
{
    if live.len() == 0 {
        Seq::empty()
    } else {
        plan(mode, live.drop_last()) + device_plan(mode, live.last())
    }
}

/// The actions and the resulting settings of activating a Mode holding `mode` on device `d`.
fn activate_device(mode: &Vec<DeviceSettings>, d: &DeviceSettings) -> (r: (Vec<ModeAction>, DeviceSettings))
    requires
        devices_wf(devices_view(mode@)),
        channels_unique(d@.settings),
    ensures
        actions_view(r.0@) == device_plan(devices_view(mode@), d@),
        r.1@ == activated_device(devices_view(mode@), d@),
        channels_unique(r.1@.settings),
{
    let ghost mv = devices_view(mode@);
    let ghost lv = d@.settings;
    let ghost uid = d.device_uid@;
    let mut actions: Vec<ModeAction> = Vec::new();
    match find_device(mode, &d.device_uid) {
        None => {
            let mut i: usize = 0;
            while i < d.settings.len()
                invariant
                    i <= d.settings.len(),
                    lv == d@.settings,
                    uid == d.device_uid@,
                    actions.len() == i,
                    forall|a: int| 0 <= a < i ==> (#[trigger] actions@[a])@ == (ModeActionView::Reset { device_uid: uid, channel_name: lv[a].channel_name }),
                decreases d.settings.len() - i,
            {
                actions.push(ModeAction::Reset { device_uid: d.device_uid.clone(), channel_name: d.settings[i].channel_name.clone() });
                i += 1;
            }
            assert(actions_view(actions@) =~= device_plan(mv, d@));
            let nd = DeviceSettings { device_uid: d.device_uid.clone(), settings: Vec::new() };
            assert(nd@.settings =~= Seq::<SettingView>::empty());
            (actions, nd)
        },
        Some(k) => {
            assert(mv[k as int].device_uid == uid);
            let ghost k0 = choose|k: int| 0 <= k < mv.len() && (#[trigger] mv[k]).device_uid == uid;
            proof {
                if k0 != k as int {
                    if k0 < k as int {
                        assert(mv[k0].device_uid != mv[k as int].device_uid);
                    } else {
                        assert(mv[k as int].device_uid != mv[k0].device_uid);
                    }
                }
            }
            let ms = &mode[k].settings;
            let ghost msv = settings_view(ms@);
            assert(msv == entry_of(mv, uid));
            assert(channels_unique(msv));
            let ghost f = |l: SettingView| reset_if_unset(msv, uid, l);
            let ghost g = |m: SettingView| apply_if_missing(lv, uid, m);
            let mut i: usize = 0;
            while i < d.settings.len()
                invariant
                    i <= d.settings.len(),
                    lv == d@.settings,
                    uid == d.device_uid@,
                    msv == settings_view(ms@),
                    channels_unique(msv),
                    f == (|l: SettingView| reset_if_unset(msv, uid, l)),
                    actions_view(actions@) == lv.subrange(0, i as int).filter_map(f),
                decreases d.settings.len() - i,
            {
                assert(lv.subrange(0, i + 1).drop_last() =~= lv.subrange(0, i as int));
                let l = &d.settings[i];
                let found = find_channel(ms, &l.channel_name);
                let in_mode = found.is_some();
                assert(l@ == lv[i as int]);
                assert(lv.subrange(0, i + 1).last() == lv[i as int]);
                proof {
                    if in_mode {
                        let w = found.unwrap() as int;
                        assert(msv[w].channel_name == l@.channel_name);
                    }
                }
                assert(in_mode == has_channel(msv, l@.channel_name));
                if !in_mode {
                    actions.push(ModeAction::Reset { device_uid: d.device_uid.clone(), channel_name: l.channel_name.clone() });
                }
                assert(actions_view(actions@) =~= lv.subrange(0, i + 1).filter_map(f));
                i += 1;
            }
            assert(lv.subrange(0, lv.len() as int) =~= lv);
            let mut j: usize = 0;
            let ghost base = actions_view(actions@);
            while j < ms.len()
                invariant
                    j <= ms.len(),
                    lv == d@.settings,
                    uid == d.device_uid@,
                    msv == settings_view(ms@),
                    g == (|m: SettingView| apply_if_missing(lv, uid, m)),
                    actions_view(actions@) == base + msv.subrange(0, j as int).filter_map(g),
                decreases ms.len() - j,
            {
                assert(msv.subrange(0, j + 1).drop_last() =~= msv.subrange(0, j as int));
                let m = &ms[j];
                assert(m@ == msv[j as int]);
                assert(msv.subrange(0, j + 1).last() == msv[j as int]);
                assert(msv.subrange(0, j + 1).filter_map(g) == msv.subrange(0, j as int).filter_map(g) + match g(msv[j as int]) {
                    Some(x) => seq![x],
                    None => Seq::empty(),
                });
                let ghost old_a = actions_view(actions@);
                let ghost old_fm = msv.subrange(0, j as int).filter_map(g);
                if !contains_setting(&d.settings, m) {
                    let c = m.clone();
                    let a = ModeAction::Apply { device_uid: d.device_uid.clone(), setting: c };
                    assert(a@ == ModeActionView::Apply { device_uid: uid, setting: msv[j as int] });
                    actions.push(a);
                    assert(actions_view(actions@) =~= old_a.push(a@));
                    assert(base + (old_fm + seq![a@]) =~= (base + old_fm).push(a@));
                } else {
                    assert(actions_view(actions@) =~= old_a);
                    assert(base + (old_fm + Seq::empty()) =~= base + old_fm);
                }
                assert(actions_view(actions@) =~= base + msv.subrange(0, j + 1).filter_map(g));
                j += 1;
            }
            assert(msv.subrange(0, msv.len() as int) =~= msv);
            assert(actions_view(actions@) =~= device_plan(mv, d@));
            let nd = DeviceSettings { device_uid: d.device_uid.clone(), settings: copy_settings(ms) };
            assert(nd@ == activated_device(mv, d@));
            (actions, nd)
        },
    }
}


/// The Mode of `modes` with uid `uid`. Meaningful where there is one.
pub open spec fn mode_with_uid(modes: Seq<ModeView>, uid: Seq<char>) -> ModeView {
    modes[choose|i: int| 0 <= i < modes.len() && (#[trigger] modes[i]).uid == uid]
}

impl ModeController {
    /// Activates the Mode with uid `uid` over the present devices, whose saved settings are
    /// `live`: returns the resets and applies to perform, and leaves in `live` the settings saved
    /// once they are done. A Mode that is already active asks for nothing.
    pub fn activate_mode(&self, uid: &String, live: &mut Vec<DeviceSettings>) -> (r: Result<
        Vec<ModeAction>,
        CCError,
    >)
        requires
            self.wf(),
            devices_wf(devices_view(old(live)@)),
        ensures
            !has_mode(self@, uid@) <==> r is Err,
            r is Err ==> r->Err_0 is NotFound && final(live)@ == old(live)@,
            devices_wf(devices_view(final(live)@)),
            r is Ok && mode_active(mode_with_uid(self@, uid@), devices_view(old(live)@)) ==> r->Ok_0@.len() == 0
                && final(live)@ == old(live)@,
            r is Ok && !mode_active(mode_with_uid(self@, uid@), devices_view(old(live)@)) ==> actions_view(r->Ok_0@)
                == plan(mode_with_uid(self@, uid@).devices, devices_view(old(live)@)) && devices_view(final(live)@)
                == activated(mode_with_uid(self@, uid@).devices, devices_view(old(live)@)),
    {
        let i = match self.find_mode(uid) {
            Some(i) => i,
            None => {
                return Err(CCError::not_found("Mode not found"));
            },
        };
        let ghost m = mode_with_uid(self@, uid@);
        proof {
            let i0 = choose|a: int| 0 <= a < self@.len() && (#[trigger] self@[a]).uid == uid@;
            if i0 != i as int {
                if i0 < i as int {
                    assert(self@[i0].uid != self@[i as int].uid);
                } else {
                    assert(self@[i as int].uid != self@[i0].uid);
                }
            }
        }
        assert(m == self@[i as int]);
        let mode = &self.modes[i].all_device_settings;
        assert(devices_wf(devices_view(mode@)));
        let matches = mode_matches_exec(mode, live);
        assert(matches == mode_active(m, devices_view(live@))) by {
            reveal(mode_active);
        }
        if matches {
            return Ok(Vec::new());
        }
        let ghost lv = devices_view(live@);
        let ghost mv = m.devices;
        let mut actions: Vec<ModeAction> = Vec::new();
        let mut next: Vec<DeviceSettings> = Vec::new();
        let mut j: usize = 0;
        while j < live.len()
            invariant
                j <= live.len(),
                lv == devices_view(live@),
                mv == devices_view(mode@),
                devices_wf(mv),
                devices_wf(lv),
                actions_view(actions@) == plan(mv, lv.subrange(0, j as int)),
                next.len() == j,
                forall|a: int| 0 <= a < j ==> (#[trigger] next@[a])@ == activated_device(mv, lv[a]),
                forall|a: int| 0 <= a < j ==> channels_unique((#[trigger] next@[a])@.settings),
            decreases live.len() - j,
        {
            assert(lv.subrange(0, j + 1).drop_last() =~= lv.subrange(0, j as int));
            assert(lv.subrange(0, j + 1).last() == lv[j as int]);
            assert(channels_unique(lv[j as int].settings));
            let (mut acts, nd) = activate_device(mode, &live[j]);
            let ghost old_a = actions_view(actions@);
            let ghost da = actions_view(acts@);
            actions.append(&mut acts);
            assert(actions_view(actions@) =~= old_a + da);
            next.push(nd);
            j += 1;
        }
        assert(lv.subrange(0, live.len() as int) =~= lv);
        let ghost after = devices_view(next@);
        assert(after =~= activated(mv, lv));
        assert forall|a: int, b: int| 0 <= a < b < after.len() implies (#[trigger] after[a]).device_uid != (#[trigger] after[b]).device_uid by {
            assert(after[a].device_uid == lv[a].device_uid);
            assert(after[b].device_uid == lv[b].device_uid);
        }
        assert forall|a: int| 0 <= a < after.len() implies channels_unique((#[trigger] after[a]).settings) by {
            assert(after[a] == next@[a]@);
        }
        *live = next;
        Ok(actions)
    }

    /// Removes from every Mode the channel settings that use Profile `profile_uid`, and the
    /// device entries that this leaves empty.
    pub fn profile_deleted(&mut self, profile_uid: &String)
        requires
            old(self).wf(),
        ensures
            final(self).wf(),
            final(self)@.len() == old(self)@.len(),
            forall|i: int|
                0 <= i < old(self)@.len() ==> (#[trigger] final(self)@[i]) == (ModeView {
                    devices: prune_devices(old(self)@[i].devices, profile_uid@),
                    ..old(self)@[i]
                }),
    {
        let ghost before = self@;
        let mut next: Vec<Mode> = Vec::new();
        let mut i: usize = 0;
        while i < self.modes.len()
            invariant
                i <= self.modes.len(),
                before == self@,
                modes_wf(before),
                next.len() == i,
                forall|a: int| 0 <= a < i ==> (#[trigger] next@[a])@ == (ModeView {
                    devices: prune_devices(before[a].devices, profile_uid@),
                    ..before[a]
                }),
                forall|a: int| 0 <= a < i ==> devices_wf((#[trigger] next@[a])@.devices),
            decreases self.modes.len() - i,
        {
            assert(devices_wf(before[i as int].devices));
            let devices = prune_devices_exec(&self.modes[i].all_device_settings, profile_uid);
            next.push(Mode {
                uid: self.modes[i].uid.clone(),
                name: self.modes[i].name.clone(),
                all_device_settings: devices,
            });
            i += 1;
        }
        self.modes = next;
        assert forall|a: int, b: int| 0 <= a < b < self@.len() implies (#[trigger] self@[a]).uid != (#[trigger] self@[b]).uid by {
            assert(self@[a].uid == before[a].uid);
            assert(self@[b].uid == before[b].uid);
        }
        assert forall|a: int| 0 <= a < self@.len() implies devices_wf((#[trigger] self@[a]).devices) by {
            assert(self@[a] == next@[a]@);
        }
    }
}


/// Activating a Mode twice has the effect of activating it once: after the first activation the
/// Mode is active over the settings it left, so a second activation asks for nothing and leaves
/// the settings as they are.
pub proof fn lemma_activate_idempotent(modes: Seq<ModeView>, uid: Seq<char>, live: Seq<DeviceSettingsView>)
    requires
        modes_wf(modes),
        has_mode(modes, uid),
    ensures
        mode_active(mode_with_uid(modes, uid), activated(mode_with_uid(modes, uid).devices, live)),
{
    let i = choose|i: int| 0 <= i < modes.len() && (#[trigger] modes[i]).uid == uid;
    assert(devices_wf(modes[i].devices));
    lemma_activated_matches(modes[i].devices, live);
    reveal(mode_active);
}


/// An apply of every saved setting of the devices `live`, device after device.
pub open spec fn apply_all(live: Seq<DeviceSettingsView>) -> Seq<ModeActionView>
    decreases live.len(),
{
    if live.len() == 0 {
        Seq::empty()
    } else {
        let d = live.last();
        apply_all(live.drop_last()) + d.settings.map_values(
            |s: SettingView| ModeActionView::Apply { device_uid: d.device_uid, setting: s },
        )
    }
}

impl ModeController {
    /// The applies of every saved setting of the present devices `present`, as [`apply_all`]
    /// states over their saved settings.
    pub fn apply_all_saved_device_settings(&self, config: &Config, present: &Vec<UID>) -> (r: Vec<ModeAction>)
        requires
            config.wf(),
            forall|a: int, b: int| 0 <= a < b < present.len() ==> (#[trigger] present@[a])@ != (#[trigger] present@[b])@,
        ensures
            actions_view(r@) == apply_all(present_view(config.devices(), present@)),
    {
        let live = config.present_device_settings(present);
        let ghost lv = devices_view(live@);
        let mut r: Vec<ModeAction> = Vec::new();
        let mut i: usize = 0;
        while i < live.len()
            invariant
                i <= live.len(),
                lv == devices_view(live@),
                actions_view(r@) == apply_all(lv.subrange(0, i as int)),
            decreases live.len() - i,
        {
            assert(lv.subrange(0, i + 1).drop_last() =~= lv.subrange(0, i as int));
            let d = &live[i];
            assert(lv.subrange(0, i + 1).last() == d@);
            let ghost base = actions_view(r@);
            let mut j: usize = 0;
            while j < d.settings.len()
                invariant
                    j <= d.settings.len(),
                    base + d@.settings.subrange(0, j as int).map_values(
                        |s: SettingView| ModeActionView::Apply { device_uid: d@.device_uid, setting: s },
                    ) == actions_view(r@),
                decreases d.settings.len() - j,
            {
                let ghost before = actions_view(r@);
                r.push(ModeAction::Apply { device_uid: d.device_uid.clone(), setting: d.settings[j].clone() });
                assert(actions_view(r@) =~= before.push(ModeActionView::Apply { device_uid: d@.device_uid, setting: d@.settings[j as int] }));
                assert(base + d@.settings.subrange(0, j + 1).map_values(
                    |s: SettingView| ModeActionView::Apply { device_uid: d@.device_uid, setting: s },
                ) =~= actions_view(r@));
                j += 1;
            }
            assert(d@.settings.subrange(0, d.settings.len() as int) =~= d@.settings);
            i += 1;
        }
        assert(lv.subrange(0, live.len() as int) =~= lv);
        r
    }

    /// At boot: the applies of every saved setting of the present devices where the general
    /// settings ask for it, otherwise nothing.
    pub fn handle_settings_at_boot(&self, config: &Config, present: &Vec<UID>) -> (r: Vec<ModeAction>)
        requires
            config.wf(),
            forall|a: int, b: int| 0 <= a < b < present.len() ==> (#[trigger] present@[a])@ != (#[trigger] present@[b])@,
        ensures
            config.general().apply_on_boot ==> actions_view(r@) == apply_all(
                present_view(config.devices(), present@),
            ),
            !config.general().apply_on_boot ==> r.len() == 0,
    {
        if config.get_settings().apply_on_boot {
            self.apply_all_saved_device_settings(config, present)
        } else {
            Vec::new()
        }
    }
}

} // verus!
