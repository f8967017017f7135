use coolercontrol_core::alerts::{AlertController, AlertEvent, AlertState};
use coolercontrol_core::config::Config;
use coolercontrol_core::device::SpeedOptions;
use coolercontrol_core::error::CCError;
use coolercontrol_core::setting::{CoolerControlDeviceSettings, CoolerControlSettings, Function, FunctionType, Profile, ProfileType, TempSource};
use coolercontrol_core::modes::{ModeAction, ModeController};
use coolercontrol_core::setting::Setting;
use coolercontrol_core::settings::{scheduled_speed, ChannelSpeedState};
use coolercontrol_core::status::{StatusHistory, TempReading};

fn s(v: &str) -> String {
    v.to_string()
}

fn reading(name: &str, temp: i64) -> TempReading {
    TempReading { name: s(name), temp }
}

#[test]
fn history_keeps_order_and_capacity() {
    let mut h = StatusHistory::new(3);
    assert!(h.push(1000, vec![reading("liquid", 30_000)]));
    assert!(!h.push(1000, vec![reading("liquid", 31_000)]));
    assert!(!h.push(500, vec![reading("liquid", 31_000)]));
    assert!(h.push(2000, vec![reading("other", 1)]));
    assert!(h.push(3000, vec![reading("liquid", 32_000)]));
    assert!(h.push(4000, vec![reading("liquid", 33_000), reading("liquid", 99)]));
    assert_eq!(h.recent_temps(&s("liquid"), 10), vec![33_000, 32_000]);
    assert_eq!(h.recent_temps(&s("liquid"), 1), vec![33_000]);
    assert!(h.recent_temps(&s("missing"), 5).is_empty());
    h.reinitialize(100);
    assert!(!h.push(50, vec![reading("liquid", 1)]));
    assert!(h.push(200, vec![reading("liquid", 34_000)]));
    assert_eq!(h.recent_temps(&s("liquid"), 10), vec![34_000, 33_000]);
}

fn graph_profiles() -> Vec<Profile> {
    vec![Profile {
        uid: s("g"),
        p_type: ProfileType::Graph,
        name: s("g"),
        speed_fixed: None,
        speed_profile: Some(vec![(20_000, 30), (40_000, 60), (60_000, 100)]),
        temp_source: Some(TempSource { temp_name: s("liquid"), device_uid: s("d1") }),
        function_uid: s("0"),
        member_profile_uids: Vec::new(),
    }]
}

#[test]
fn scheduled_speed_clamps_and_skips_repeats() {
    let ps = graph_profiles();
    let opts = SpeedOptions { min_duty: 20, max_duty: 80, profiles_enabled: true, fixed_enabled: true, manual_profiles_enabled: false };
    let mut ch = ChannelSpeedState::new();
    let hot = vec![(s("g"), 70_000)];
    assert_eq!(scheduled_speed(&ps, &s("g"), &hot, opts, &mut ch, 70_000, false).ok(), Some(Some(80)));
    let still = vec![(s("g"), 70_050)];
    assert_eq!(scheduled_speed(&ps, &s("g"), &still, opts, &mut ch, 70_050, false).ok(), Some(None));
    let mild = vec![(s("g"), 30_000)];
    assert_eq!(scheduled_speed(&ps, &s("g"), &mild, opts, &mut ch, 30_000, false).ok(), Some(Some(45)));
    assert_eq!(scheduled_speed(&ps, &s("missing"), &mild, opts, &mut ch, 30_000, false).ok(), Some(None));
}

#[test]
fn log_entries_are_timestamped_now() {
    let mut alerts = AlertController::new();
    let log = alerts.log_alert_state_change(s("a"), s("A"), AlertState::Active, AlertEvent::DeviceNotFound);
    assert_eq!(log.uid, "a");
    assert!(log.timestamp > 1_600_000_000_000);
    assert_eq!(alerts.get_all().1.len(), 1);
}

#[test]
fn function_order_and_device_settings() {
    let mut store = Config::new(CoolerControlSettings::defaults());
    let f = Function { uid: s("f"), name: s("f"), f_type: FunctionType::Standard, response_delay: Some(1), deviance: Some(500), sample_window: None };
    store.set_function(f).unwrap();
    store.set_functions_order(&vec![s("f"), s("0")]).unwrap();
    assert_eq!(store.get_functions()[0].uid, "f");
    match store.set_functions_order(&vec![s("f"), s("x")]) {
        Err(CCError::UserError { .. }) => {}
        _ => panic!("an unknown uid is refused"),
    }
    let f2 = Function { uid: s("f"), name: s("renamed"), f_type: FunctionType::Identity, response_delay: None, deviance: None, sample_window: None };
    store.update_function(f2).unwrap();
    assert_eq!(store.get_functions()[0].name, "renamed");
    assert!(store.get_cc_settings_for_device(&s("d")).is_none());
    store.set_cc_settings_for_device(&s("d"), CoolerControlDeviceSettings { disable: true });
    store.set_cc_settings_for_device(&s("d"), CoolerControlDeviceSettings { disable: false });
    assert_eq!(store.get_cc_settings_for_device(&s("d")), Some(CoolerControlDeviceSettings { disable: false }));
}

#[test]
fn profile_update_rules() {
    let mut store = Config::new(CoolerControlSettings::defaults());
    let mut p = graph_profiles().remove(0);
    store.set_profile(graph_profiles().remove(0)).unwrap();
    p.name = s("renamed");
    store.update_profile(p).unwrap();
    assert_eq!(store.get_profiles()[1].name, "renamed");
    let mut unknown = graph_profiles().remove(0);
    unknown.uid = s("nope");
    match store.update_profile(unknown) {
        Err(CCError::NotFound { .. }) => {}
        _ => panic!("an unknown Profile is not found"),
    }
    let mut bad = graph_profiles().remove(0);
    bad.speed_profile = Some(vec![(1, 1)]);
    match store.update_profile(bad) {
        Err(CCError::UserError { .. }) => {}
        _ => panic!("an invalid Profile is refused"),
    }
}

#[test]
fn boot_applies_saved_settings_of_present_devices() {
    let mut store = Config::new(CoolerControlSettings::defaults());
    let mut fan = Setting::new(s("fan"));
    fan.speed_fixed = Some(40);
    store.set_device_setting(&s("d1"), fan).unwrap();
    let mut pump = Setting::new(s("pump"));
    pump.speed_fixed = Some(70);
    store.set_device_setting(&s("gone"), pump).unwrap();
    let modes = ModeController::new();
    let present = vec![s("d1"), s("d2")];
    let actions = modes.handle_settings_at_boot(&store, &present);
    assert_eq!(actions.len(), 1);
    match &actions[0] {
        ModeAction::Apply { device_uid, setting } => {
            assert_eq!(device_uid, "d1");
            assert_eq!(setting.speed_fixed, Some(40));
        }
        _ => panic!("only applies are planned at boot"),
    }
    let mut off = CoolerControlSettings::defaults();
    off.apply_on_boot = false;
    store.set_settings(off);
    assert!(modes.handle_settings_at_boot(&store, &present).is_empty());
}

#[test]
fn profile_change_reaches_mix_users() {
    let mut store = Config::new(CoolerControlSettings::defaults());
    store.set_profile(graph_profiles().remove(0)).unwrap();
    let mix = Profile {
        uid: s("m"),
        p_type: ProfileType::Mix,
        name: s("m"),
        speed_fixed: None,
        speed_profile: None,
        temp_source: None,
        function_uid: s("0"),
        member_profile_uids: vec![s("g")],
    };
    store.set_profile(mix).unwrap();
    let mut a = Setting::new(s("fan1"));
    a.profile_uid = Some(s("g"));
    let mut b = Setting::new(s("fan2"));
    b.profile_uid = Some(s("m"));
    let mut c = Setting::new(s("fan3"));
    c.speed_fixed = Some(30);
    store.set_device_setting(&s("d1"), a).unwrap();
    store.set_device_setting(&s("d1"), b).unwrap();
    store.set_device_setting(&s("d2"), c).unwrap();
    assert_eq!(
        store.channels_affected_by(&s("g")),
        vec![(s("d1"), s("fan1")), (s("d1"), s("fan2"))]
    );
    assert_eq!(store.channels_affected_by(&s("m")), vec![(s("d1"), s("fan2"))]);
}

#[test]
fn saved_device_settings_load_back_unchanged() {
    let mut store = Config::new(CoolerControlSettings::defaults());
    let mut fan = Setting::new(s("fan"));
    fan.speed_fixed = Some(40);
    let mut pump = Setting::new(s("pump"));
    pump.profile_uid = Some(s("0"));
    store.set_device_setting(&s("d1"), fan).unwrap();
    store.set_device_setting(&s("d1"), pump).unwrap();
    let mut other = Setting::new(s("fan"));
    other.speed_fixed = Some(10);
    store.set_device_setting(&s("d2"), other).unwrap();
    let saved = store.get_all_devices_settings();
    let mut loaded = Config::new(CoolerControlSettings::defaults());
    loaded.load_device_settings(&saved).unwrap();
    let again = loaded.get_all_devices_settings();
    assert_eq!(again.len(), saved.len());
    for (a, b) in again.iter().zip(saved.iter()) {
        assert_eq!(a.device_uid, b.device_uid);
        assert_eq!(a.settings.len(), b.settings.len());
        for (x, y) in a.settings.iter().zip(b.settings.iter()) {
            assert!(x.same_as(y));
        }
    }
}

#[test]
fn load_refuses_invalid_settings_but_takes_resets() {
    let mut fine = Config::new(CoolerControlSettings::defaults());
    let mut reset = Setting::reset_marker(s("fan"));
    reset.speed_fixed = Some(250);
    let entries = vec![coolercontrol_core::device_settings::DeviceSettings { device_uid: s("d1"), settings: vec![reset] }];
    assert!(fine.load_device_settings(&entries).is_ok());
    let mut bad = Setting::new(s("fan"));
    bad.speed_fixed = Some(101);
    let entries = vec![coolercontrol_core::device_settings::DeviceSettings { device_uid: s("d1"), settings: vec![bad] }];
    match fine.load_device_settings(&entries) {
        Err(CCError::UserError { .. }) => {}
        _ => panic!("an invalid setting is refused"),
    }
}

#[test]
fn general_settings_from_file_values() {
    let st = coolercontrol_core::settings::settings_from_table(None, None, Some(true), Some(30), Some(-2), None);
    assert!(st.apply_on_boot);
    assert!(st.handle_dynamic_temps);
    assert_eq!(st.startup_delay, 10);
    assert_eq!(st.smoothing_level, 0);
    let d = coolercontrol_core::settings::settings_from_table(None, None, None, None, None, None);
    assert_eq!(d.startup_delay, 2);
}

#[test]
fn ordering_an_empty_store_is_refused() {
    let mut store = Config::new(CoolerControlSettings::defaults());
    store.delete_function(&s("0")).unwrap();
    assert!(store.set_functions_order(&Vec::new()).is_err());
}
