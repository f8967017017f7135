//! Decisions of the settings controller: when a computed duty is written to a device, and how a
//! partial update of the general settings is merged.
use vstd::prelude::*;

use crate::device::SpeedOptions;
use crate::error::CCError;
use crate::profile::{all_valid, clamp, profiles_view, resolve, resolve_profile_duty, temps_view};
use crate::setting::{CoolerControlSettings, Milli, Profile, MAX_SMOOTHING_LEVEL};

verus! {

/// The smallest temperature change, in thousandths of a degree, that is written again although
/// the duty did not change.
pub const TEMP_TOLERANCE: Milli = 100;

/// What was last written to one channel by its Profile.
#[derive(Debug, Clone, Copy)]
pub struct ChannelSpeedState {
    /// The temperature and duty of the last write, if any.
    pub last_applied: Option<(Milli, u8)>,
}

/// Whether a duty `duty` computed at temperature `temp` is written: always with dynamic
/// temperature handling or before the first write; otherwise when the duty changed or the
/// temperature moved by at least [`TEMP_TOLERANCE`] since the last write.
pub open spec fn should_apply(last: Option<(Milli, u8)>, temp: Milli, duty: u8, dynamic: bool) -> bool {
    match last {
        None => true,
        Some((t, d)) => dynamic || d != duty || t - temp >= TEMP_TOLERANCE || temp - t >= TEMP_TOLERANCE,
    }
}

impl ChannelSpeedState {
    /// A channel with nothing written yet.
    pub fn new() -> (r: ChannelSpeedState)
        ensures
            r.last_applied.is_none(),
    {
        ChannelSpeedState { last_applied: None }
    }

    /// Decides whether to write `duty`, computed at `temp`, and records the write if so.
    pub fn decide(&mut self, temp: Milli, duty: u8, handle_dynamic_temps: bool) -> (r: bool)
        ensures
            r == should_apply(old(self).last_applied, temp, duty, handle_dynamic_temps),
            r ==> final(self).last_applied == Some((temp, duty)),
            !r ==> *final(self) == *old(self),
    {
        let apply = match self.last_applied {
            None => true,
            Some((t, d)) => {
                let moved: i128 = t as i128 - temp as i128;
                handle_dynamic_temps || d != duty || moved >= TEMP_TOLERANCE as i128 || -moved
                    >= TEMP_TOLERANCE as i128
            },
        };
        if apply {
            self.last_applied = Some((temp, duty));
        }
        apply
    }
}

/// Applying the same duty twice, at temperatures less than [`TEMP_TOLERANCE`] apart and without
/// dynamic temperature handling, writes to the device at most once.
pub proof fn lemma_apply_twice_writes_once(
    last: Option<(Milli, u8)>,
    t1: Milli,
    t2: Milli,
    duty: u8,
)
    requires
        t1 - t2 < TEMP_TOLERANCE,
        t2 - t1 < TEMP_TOLERANCE,
    ensures
        should_apply(last, t1, duty, false) ==> !should_apply(Some((t1, duty)), t2, duty, false),
{
}

/// A partial update of the general settings: what is given replaces the current value.
#[derive(Debug, Clone, Copy, PartialEq, Eq, Structural)]
pub struct CoolerControlSettingsDto {
    pub apply_on_boot: Option<bool>,
    pub handle_dynamic_temps: Option<bool>,
    pub startup_delay: Option<u8>,
    pub smoothing_level: Option<u8>,
    pub thinkpad_full_speed: Option<bool>,
}

pub open spec fn or_current<T>(given: Option<T>, current: T) -> T {
    match given {
        Some(v) => v,
        None => current,
    }
}

impl CoolerControlSettingsDto {
    /// The current settings `current` with the given values in place; a given startup delay is
    /// clamped to 10 s and a given smoothing level to 5, and `no_init` is kept.
    pub fn merge(&self, current: CoolerControlSettings) -> (r: CoolerControlSettings)
        ensures
            r.apply_on_boot == or_current(self.apply_on_boot, current.apply_on_boot),
            r.no_init == current.no_init,
            r.handle_dynamic_temps == or_current(self.handle_dynamic_temps, current.handle_dynamic_temps),
            r.startup_delay == match self.startup_delay {
                Some(d) => if d > 10 { 10 } else { d as u64 },
                None => current.startup_delay,
            },
            r.smoothing_level == match self.smoothing_level {
                Some(l) => if l > 5 { 5 } else { l },
                None => current.smoothing_level,
            },
            r.thinkpad_full_speed == or_current(self.thinkpad_full_speed, current.thinkpad_full_speed),
    {
        let apply_on_boot = match self.apply_on_boot {
            Some(v) => v,
            None => current.apply_on_boot,
        };
        let handle_dynamic_temps = match self.handle_dynamic_temps {
            Some(v) => v,
            None => current.handle_dynamic_temps,
        };
        let startup_delay = match self.startup_delay {
            Some(d) => if d > 10 {
                10
            } else {
                d as u64
            },
            None => current.startup_delay,
        };
        let smoothing_level = match self.smoothing_level {
            Some(v) => if v > MAX_SMOOTHING_LEVEL {
                MAX_SMOOTHING_LEVEL
            } else {
                v
            },
            None => current.smoothing_level,
        };
        let thinkpad_full_speed = match self.thinkpad_full_speed {
            Some(v) => v,
            None => current.thinkpad_full_speed,
        };
        CoolerControlSettings {
            apply_on_boot,
            no_init: current.no_init,
            handle_dynamic_temps,
            startup_delay,
            smoothing_level,
            thinkpad_full_speed,
        }
    }

    /// The partial update that gives every current value.
    pub fn from_settings(settings: &CoolerControlSettings) -> (r: CoolerControlSettingsDto)
        requires
            settings.startup_delay <= 255,
        ensures
            r.apply_on_boot == Some(settings.apply_on_boot),
            r.handle_dynamic_temps == Some(settings.handle_dynamic_temps),
            r.startup_delay == Some(settings.startup_delay as u8),
            r.smoothing_level == Some(settings.smoothing_level),
            r.thinkpad_full_speed == Some(settings.thinkpad_full_speed),
    {
        CoolerControlSettingsDto {
            apply_on_boot: Some(settings.apply_on_boot),
            handle_dynamic_temps: Some(settings.handle_dynamic_temps),
            startup_delay: Some(settings.startup_delay as u8),
            smoothing_level: Some(settings.smoothing_level),
            thinkpad_full_speed: Some(settings.thinkpad_full_speed),
        }
    }
}


/// One tick of a channel driven by Profile `profile_uid`: the duty its Profile asks for at the
/// effective temperatures `temps`, clamped to the channel's range, and whether it is written,
/// as [`should_apply`] decides with `temp` the channel's effective temperature. Returns the duty
/// to write, or None where nothing is written.
pub fn scheduled_speed(
    profiles: &Vec<Profile>,
    profile_uid: &String,
    temps: &Vec<(String, Milli)>,
    options: SpeedOptions,
    channel: &mut ChannelSpeedState,
    temp: Milli,
    handle_dynamic_temps: bool,
) -> (r: Result<Option<u8>, CCError>)
    requires
        all_valid(profiles_view(profiles@)),
        options.min_duty <= options.max_duty,
    ensures
        match resolve(profiles_view(profiles@), profile_uid@, temps_view(temps@), Seq::empty(), profiles.len() as nat) {
            Err(()) => r is Err && r->Err_0 is UserError && *final(channel) == *old(channel),
            Ok(None) => r == Ok::<Option<u8>, CCError>(None) && *final(channel) == *old(channel),
            Ok(Some(d)) => {
                let c = clamp(d, options.min_duty as int, options.max_duty as int);
                &&& r is Ok
                &&& should_apply(old(channel).last_applied, temp, c as u8, handle_dynamic_temps) ==> r->Ok_0
                    == Some(c as u8) && final(channel).last_applied == Some((temp, c as u8))
                &&& !should_apply(old(channel).last_applied, temp, c as u8, handle_dynamic_temps) ==> r->Ok_0
                    == None::<u8> && *final(channel) == *old(channel)
            },
        },
{
    let duty = match resolve_profile_duty(profiles, profile_uid, temps) {
        Err(e) => {
            return Err(e);
        },
        Ok(None) => {
            return Ok(None);
        },
        Ok(Some(d)) => d,
    };
    let c = if duty < options.min_duty {
        options.min_duty
    } else if duty > options.max_duty {
        options.max_duty
    } else {
        duty
    };
    if channel.decide(temp, c, handle_dynamic_temps) {
        Ok(Some(c))
    } else {
        Ok(None)
    }
}


/// The general settings from the values read from the configuration file: a missing value takes
/// its default (apply at boot, startup delay 2 s, everything else off or 0), the startup delay
/// is clamped to 0..=10 s and the smoothing level to 0..=5.
pub fn settings_from_table(
    apply_on_boot: Option<bool>,
    no_init: Option<bool>,
    handle_dynamic_temps: Option<bool>,
    startup_delay: Option<i64>,
    smoothing_level: Option<i64>,
    thinkpad_full_speed: Option<bool>,
) -> (r: CoolerControlSettings)
    ensures
        r.wf(),
        r.apply_on_boot == or_current(apply_on_boot, true),
        r.no_init == or_current(no_init, false),
        r.handle_dynamic_temps == or_current(handle_dynamic_temps, false),
        r.startup_delay == clamp(or_current(startup_delay, 2) as int, 0, 10),
        r.smoothing_level == clamp(or_current(smoothing_level, 0) as int, 0, 5),
        r.thinkpad_full_speed == or_current(thinkpad_full_speed, false),
{
    let delay: i64 = match startup_delay {
        Some(d) => d,
        None => 2,
    };
    let level: i64 = match smoothing_level {
        Some(l) => l,
        None => 0,
    };
    CoolerControlSettings {
        apply_on_boot: match apply_on_boot {
            Some(v) => v,
            None => true,
        },
        no_init: match no_init {
            Some(v) => v,
            None => false,
        },
        handle_dynamic_temps: match handle_dynamic_temps {
            Some(v) => v,
            None => false,
        },
        startup_delay: if delay < 0 {
            0
        } else if delay > 10 {
            10
        } else {
            delay as u64
        },
        smoothing_level: if level < 0 {
            0
        } else if level > 5 {
            5
        } else {
            level as u8
        },
        thinkpad_full_speed: match thinkpad_full_speed {
            Some(v) => v,
            None => false,
        },
    }
}

} // verus!
