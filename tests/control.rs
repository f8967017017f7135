use coolercontrol_core::alerts::{
    Alert, AlertController, AlertEvent, AlertLog, AlertState, ChannelMetric, ChannelSource,
    LOG_BUFFER_SIZE,
};
use coolercontrol_core::config::Config;
use coolercontrol_core::device::{parse_u32, Modern690LcSupport, BaseDriver};
use coolercontrol_core::device_settings::DeviceSettings;
use coolercontrol_core::error::CCError;
use coolercontrol_core::function::{effective_temp, exponential_moving_avg, simple_moving_avg, StandardState};
use coolercontrol_core::main_loop::{align_wait_ms, LoopState, TickAction};
use coolercontrol_core::modes::{ModeAction, ModeController};
use coolercontrol_core::profile::{graph_duty, mix_max, resolve_profile_duty};
use coolercontrol_core::setting::{
    CoolerControlSettings, Function, FunctionType, Profile, ProfileType, Setting, TempSource,
};
use coolercontrol_core::settings::{ChannelSpeedState, CoolerControlSettingsDto};
use coolercontrol_core::status::{ChannelReading, DeviceStatus, TempReading};

fn s(v: &str) -> String {
    v.to_string()
}

fn fixed(channel: &str, duty: u8) -> Setting {
    let mut st = Setting::new(s(channel));
    st.speed_fixed = Some(duty);
    st
}

fn with_profile(channel: &str, uid: &str) -> Setting {
    let mut st = Setting::new(s(channel));
    st.profile_uid = Some(s(uid));
    st
}

fn device(uid: &str, settings: Vec<Setting>) -> DeviceSettings {
    DeviceSettings { device_uid: s(uid), settings }
}

fn profile(uid: &str, p_type: ProfileType) -> Profile {
    Profile {
        uid: s(uid),
        p_type,
        name: s(uid),
        speed_fixed: None,
        speed_profile: None,
        temp_source: None,
        function_uid: s("0"),
        member_profile_uids: Vec::new(),
    }
}

fn curve() -> Vec<(i64, u8)> {
    vec![(20_000, 30), (40_000, 60), (60_000, 100)]
}

#[test]
fn graph_interpolation_scenario() {
    let pts = curve();
    assert_eq!(graph_duty(&pts, 30_000, 0, 100), 45);
    assert_eq!(graph_duty(&pts, 10_000, 0, 100), 30);
    assert_eq!(graph_duty(&pts, 70_000, 0, 100), 100);
    assert_eq!(graph_duty(&pts, 30_000, 20, 80), 45);
    assert_eq!(graph_duty(&pts, 10_000, 20, 80), 30);
    assert_eq!(graph_duty(&pts, 70_000, 20, 80), 80);
}

#[test]
fn graph_interpolation_rounds_to_nearest() {
    let pts = vec![(0, 0), (3_000, 1)];
    assert_eq!(graph_duty(&pts, 1_499, 0, 100), 0);
    assert_eq!(graph_duty(&pts, 1_500, 0, 100), 1);
    assert_eq!(graph_duty(&pts, 20_000, 0, 100), 1);
    let down = vec![(0, 100), (1_000, 0)];
    assert_eq!(graph_duty(&down, 250, 0, 100), 75);
    assert_eq!(graph_duty(&pts, 3_000, 0, 100), 1);
}

#[test]
fn mix_takes_the_maximum() {
    assert_eq!(mix_max(&vec![Some(40), Some(70)]), Some(70));
    assert_eq!(mix_max(&vec![Some(40), None, Some(70)]), Some(70));
    assert_eq!(mix_max(&vec![None, None]), None);
}

#[test]
fn mix_profile_resolution_skips_default_and_unknown() {
    let mut a = profile("a", ProfileType::Fixed);
    a.speed_fixed = Some(40);
    let mut g = profile("g", ProfileType::Graph);
    g.speed_profile = Some(curve());
    g.temp_source = Some(TempSource { temp_name: s("liquid"), device_uid: s("d1") });
    let mut m = profile("m", ProfileType::Mix);
    m.member_profile_uids = vec![s("a"), s("g"), s("0"), s("missing")];
    let ps = vec![Profile::default_profile(), a, g, m];
    let temps = vec![(s("g"), 50_000)];
    assert_eq!(resolve_profile_duty(&ps, &s("m"), &temps).ok(), Some(Some(80)));
    let cool = vec![(s("g"), 10_000)];
    assert_eq!(resolve_profile_duty(&ps, &s("m"), &cool).ok(), Some(Some(40)));
    assert_eq!(resolve_profile_duty(&ps, &s("0"), &temps).ok(), Some(None));
}

#[test]
fn mix_profile_cycle_is_rejected() {
    let mut m1 = profile("m1", ProfileType::Mix);
    m1.member_profile_uids = vec![s("m2")];
    let mut m2 = profile("m2", ProfileType::Mix);
    m2.member_profile_uids = vec![s("m1")];
    let ps = vec![m1, m2];
    match resolve_profile_duty(&ps, &s("m1"), &Vec::new()) {
        Err(CCError::UserError { .. }) => {}
        _ => panic!("a cycle must be refused"),
    }
}

#[test]
fn graph_profile_validation() {
    let mut g = profile("g", ProfileType::Graph);
    g.speed_profile = Some(curve());
    g.temp_source = Some(TempSource { temp_name: s("t"), device_uid: s("d") });
    assert!(g.is_valid());
    g.speed_profile = Some(vec![(20_000, 30)]);
    assert!(!g.is_valid());
    g.speed_profile = Some(vec![(20_000, 30), (20_000, 40)]);
    assert!(!g.is_valid());
    g.speed_profile = Some(vec![(20_000, 30), (30_000, 101)]);
    assert!(!g.is_valid());
    let many: Vec<(i64, u8)> = (0..18).map(|i| (i as i64 * 1000, 50)).collect();
    g.speed_profile = Some(many);
    assert!(!g.is_valid());
    g.speed_profile = Some(curve());
    g.temp_source = None;
    assert!(!g.is_valid());
}

#[test]
fn setting_with_curve_needs_temp_source() {
    let mut store = Config::new(CoolerControlSettings::defaults());
    let mut st = Setting::new(s("fan"));
    st.speed_profile = Some(curve());
    match store.set_device_setting(&s("d1"), st) {
        Err(CCError::UserError { .. }) => {}
        _ => panic!("a curve without a temperature source must be refused"),
    }
    assert!(store.get_device_settings(&s("d1")).is_empty());
    let mut ok = Setting::new(s("fan"));
    ok.speed_profile = Some(curve());
    ok.temp_source = Some(TempSource { temp_name: s("liquid"), device_uid: s("d1") });
    assert!(store.set_device_setting(&s("d1"), ok).is_ok());
    assert_eq!(store.get_device_settings(&s("d1")).len(), 1);
}

#[test]
fn device_setting_replace_and_reset() {
    let mut store = Config::new(CoolerControlSettings::defaults());
    store.set_device_setting(&s("d1"), fixed("fan", 50)).unwrap();
    store.set_device_setting(&s("d1"), fixed("pump", 60)).unwrap();
    store.set_device_setting(&s("d1"), fixed("fan", 70)).unwrap();
    let saved = store.get_device_settings(&s("d1"));
    assert_eq!(saved.len(), 2);
    assert_eq!(saved[0].channel_name, "pump");
    assert_eq!(saved[1].speed_fixed, Some(70));
    let mut odd_reset = Setting::reset_marker(s("fan"));
    odd_reset.speed_fixed = Some(200);
    store.set_device_setting(&s("d1"), odd_reset).unwrap();
    let saved = store.get_device_settings(&s("d1"));
    assert_eq!(saved.len(), 1);
    assert_eq!(saved[0].channel_name, "pump");
    assert!(store.get_device_settings(&s("other")).is_empty());
}

#[test]
fn fixed_duty_keeps_one_control_variant() {
    let mut store = Config::new(CoolerControlSettings::defaults());
    let mut st = fixed("fan", 40);
    st.profile_uid = Some(s("p"));
    st.speed_profile = Some(curve());
    st.temp_source = Some(TempSource { temp_name: s("liquid"), device_uid: s("d1") });
    store.set_device_setting(&s("d1"), st).unwrap();
    let saved = store.get_device_settings(&s("d1"));
    assert_eq!(saved[0].speed_fixed, Some(40));
    assert!(saved[0].profile_uid.is_none());
    assert!(saved[0].speed_profile.is_none());
    assert!(saved[0].temp_source.is_none());
    match store.set_device_setting(&s("d1"), fixed("fan", 101)) {
        Err(CCError::UserError { .. }) => {}
        _ => panic!("a duty above 100 is refused"),
    }
}

#[test]
fn active_mode_detection_scenario() {
    let mut modes = ModeController::new();
    modes
        .insert_mode(s("A"), s("Mode A"), vec![device("D1", vec![fixed("fan", 50)])])
        .ok()
        .unwrap();
    modes
        .insert_mode(
            s("B"),
            s("Mode B"),
            vec![device("D1", vec![fixed("fan", 50), with_profile("pump", "0")])],
        )
        .ok()
        .unwrap();
    modes
        .insert_mode(s("C"), s("Mode C"), vec![device("D1", vec![fixed("fan", 60)])])
        .ok()
        .unwrap();
    let live = vec![device("D1", vec![fixed("fan", 50)])];
    assert_eq!(modes.determine_active_modes_uids(&live), vec![s("A"), s("B")]);
}

#[test]
fn mode_matching_device_rules() {
    let mut modes = ModeController::new();
    modes.insert_mode(s("E"), s("Empty"), Vec::new()).ok().unwrap();
    // A present device without saved settings matches a Mode without an entry for it.
    let live = vec![device("D1", Vec::new())];
    assert_eq!(modes.determine_active_modes_uids(&live), vec![s("E")]);
    // A live setting on a device the Mode does not hold disqualifies it.
    let live = vec![device("D1", vec![fixed("fan", 50)])];
    assert!(modes.determine_active_modes_uids(&live).is_empty());
    // An extra live channel at the Default Profile is no obstacle where the Mode holds the device.
    modes.insert_mode(s("F"), s("Fan"), vec![device("D1", vec![fixed("fan", 50)])]).ok().unwrap();
    let live = vec![device("D1", vec![fixed("fan", 50), with_profile("pump", "0")])];
    assert_eq!(modes.determine_active_modes_uids(&live), vec![s("F")]);
    let live = vec![device("D1", vec![fixed("fan", 50), fixed("pump", 30)])];
    assert!(modes.determine_active_modes_uids(&live).is_empty());
}

#[test]
fn activate_twice_is_activate_once() {
    let mut modes = ModeController::new();
    modes
        .insert_mode(s("A"), s("A"), vec![device("D1", vec![fixed("fan", 50)])])
        .ok()
        .unwrap();
    let mut live = vec![
        device("D1", vec![fixed("fan", 30), fixed("pump", 80), with_profile("aux", "0")]),
        device("D2", vec![fixed("fan", 20)]),
    ];
    let actions = modes.activate_mode(&s("A"), &mut live).ok().unwrap();
    assert_eq!(actions.len(), 4);
    match &actions[0] {
        ModeAction::Reset { device_uid, channel_name } => {
            assert_eq!(device_uid, "D1");
            assert_eq!(channel_name, "pump");
        }
        _ => panic!("the pump is reset first"),
    }
    match &actions[1] {
        ModeAction::Reset { device_uid, channel_name } => {
            assert_eq!(device_uid, "D1");
            assert_eq!(channel_name, "aux");
        }
        _ => panic!("a Default Profile channel the Mode lacks is reset too"),
    }
    match &actions[2] {
        ModeAction::Apply { device_uid, setting } => {
            assert_eq!(device_uid, "D1");
            assert_eq!(setting.speed_fixed, Some(50));
        }
        _ => panic!("then the Mode's fan setting is applied"),
    }
    match &actions[3] {
        ModeAction::Reset { device_uid, channel_name } => {
            assert_eq!(device_uid, "D2");
            assert_eq!(channel_name, "fan");
        }
        _ => panic!("then the device the Mode does not hold is reset"),
    }
    assert_eq!(modes.determine_active_modes_uids(&live), vec![s("A")]);
    let again = modes.activate_mode(&s("A"), &mut live).ok().unwrap();
    assert!(again.is_empty());
    match modes.activate_mode(&s("missing"), &mut live) {
        Err(CCError::NotFound { .. }) => {}
        _ => panic!("an unknown Mode is not found"),
    }
}

#[test]
fn profile_deletion_cascade_scenario() {
    let mut modes = ModeController::new();
    modes
        .insert_mode(
            s("M1"),
            s("M1"),
            vec![device("D1", vec![with_profile("c", "P"), fixed("pump", 60)])],
        )
        .ok()
        .unwrap();
    modes
        .insert_mode(
            s("M2"),
            s("M2"),
            vec![device("D1", vec![with_profile("c", "P")]), device("D2", vec![fixed("fan", 40)])],
        )
        .ok()
        .unwrap();
    modes.profile_deleted(&s("P"));
    let m1 = modes.get_mode(&s("M1")).unwrap();
    assert_eq!(m1.all_device_settings.len(), 1);
    assert_eq!(m1.all_device_settings[0].settings.len(), 1);
    assert_eq!(m1.all_device_settings[0].settings[0].channel_name, "pump");
    let m2 = modes.get_mode(&s("M2")).unwrap();
    assert_eq!(m2.all_device_settings.len(), 1);
    assert_eq!(m2.all_device_settings[0].device_uid, "D2");

    let mut store = Config::new(CoolerControlSettings::defaults());
    let mut p = profile("P", ProfileType::Fixed);
    p.speed_fixed = Some(55);
    store.set_profile(p).unwrap();
    store.set_device_setting(&s("D1"), with_profile("c", "P")).unwrap();
    store.set_device_setting(&s("D1"), fixed("pump", 60)).unwrap();
    let resets = store.delete_profile(&s("P")).ok().unwrap();
    assert_eq!(resets, vec![(s("D1"), s("c"))]);
    let saved = store.get_device_settings(&s("D1"));
    assert_eq!(saved.len(), 1);
    assert_eq!(saved[0].channel_name, "pump");
    assert_eq!(store.get_profiles().len(), 1);
    match store.delete_profile(&s("P")) {
        Err(CCError::NotFound { .. }) => {}
        _ => panic!("a deleted Profile is not found"),
    }
}

fn cpu_status(temp: i64) -> Vec<DeviceStatus> {
    vec![DeviceStatus {
        device_uid: s("cpu"),
        temps: vec![TempReading { name: s("package"), temp }],
        channels: vec![ChannelReading { name: s("fan1"), rpm: Some(1200), duty: None, freq: None }],
    }]
}

fn cpu_alert(uid: &str, channel: &str, metric: ChannelMetric, min: i64, max: i64) -> Alert {
    Alert {
        uid: s(uid),
        name: s(uid),
        channel_source: ChannelSource { device_uid: s("cpu"), channel_name: s(channel), channel_metric: metric },
        min,
        max,
        state: AlertState::Inactive,
    }
}

#[test]
fn alert_cycle_scenario() {
    let mut alerts = AlertController::new();
    alerts.create(cpu_alert("a", "package", ChannelMetric::Temp, 0, 70_000)).unwrap();
    let mut fired: Vec<(usize, AlertLog)> = Vec::new();
    for (i, t) in [60, 65, 72, 75, 68].iter().enumerate() {
        for log in alerts.process_alerts_at(&cpu_status(t * 1000), 1000 + i as i64) {
            fired.push((i + 1, log));
        }
    }
    assert_eq!(fired.len(), 2);
    assert_eq!(fired[0].0, 3);
    assert_eq!(fired[0].1.state, AlertState::Active);
    assert_eq!(fired[0].1.event, AlertEvent::AboveMax { value: 72_000, max: 70_000 });
    assert_eq!(fired[1].0, 5);
    assert_eq!(fired[1].1.state, AlertState::Inactive);
    assert_eq!(fired[1].1.event, AlertEvent::BackInRange { value: 68_000, min: 0, max: 70_000 });
    assert_eq!(fired[1].1.timestamp, 1004);
    assert_eq!(alerts.get_all().1.len(), 2);
}

#[test]
fn alert_constant_input_fires_once() {
    let mut alerts = AlertController::new();
    alerts.create(cpu_alert("a", "package", ChannelMetric::Temp, 0, 70_000)).unwrap();
    let mut count = 0;
    for _ in 0..5 {
        count += alerts.process_alerts(&cpu_status(80_000)).len();
    }
    assert_eq!(count, 1);
    assert_eq!(alerts.get_all().0[0].state, AlertState::Active);
}

#[test]
fn alert_missing_sources() {
    let mut alerts = AlertController::new();
    alerts.create(cpu_alert("t", "nothing", ChannelMetric::Temp, 0, 1)).unwrap();
    alerts.create(cpu_alert("d", "fan1", ChannelMetric::Duty, 0, 1)).unwrap();
    alerts.create(cpu_alert("r", "fan1", ChannelMetric::RPM, 0, 2_000_000)).unwrap();
    let mut gone = cpu_alert("g", "package", ChannelMetric::Temp, 0, 1);
    gone.channel_source.device_uid = s("gpu");
    alerts.create(gone).unwrap();
    let logs = alerts.process_alerts_at(&cpu_status(50_000), 7);
    assert_eq!(logs.len(), 3);
    assert_eq!(logs[0].event, AlertEvent::ChannelNotFound);
    assert_eq!(logs[1].event, AlertEvent::MetricNotFound(ChannelMetric::Duty));
    assert_eq!(logs[2].event, AlertEvent::DeviceNotFound);
}

#[test]
fn alert_crud_errors() {
    let mut alerts = AlertController::new();
    alerts.create(cpu_alert("a", "package", ChannelMetric::Temp, 0, 70_000)).unwrap();
    match alerts.create(cpu_alert("a", "package", ChannelMetric::Temp, 0, 1)) {
        Err(CCError::UserError { .. }) => {}
        _ => panic!("a duplicate uid is refused"),
    }
    match alerts.update(cpu_alert("b", "package", ChannelMetric::Temp, 0, 1)) {
        Err(CCError::NotFound { .. }) => {}
        _ => panic!("an unknown Alert is not found"),
    }
    alerts.process_alerts_at(&cpu_status(90_000), 1);
    alerts.update(cpu_alert("a", "package", ChannelMetric::Temp, 0, 95_000)).unwrap();
    let (all, _) = alerts.get_all();
    assert_eq!(all[0].max, 95_000);
    assert_eq!(all[0].state, AlertState::Active);
    alerts.delete(&s("a")).unwrap();
    match alerts.delete(&s("a")) {
        Err(CCError::NotFound { .. }) => {}
        _ => panic!("a deleted Alert is not found"),
    }
}

#[test]
fn alert_log_keeps_the_newest_twenty() {
    let mut alerts = AlertController::new();
    alerts.create(cpu_alert("a", "package", ChannelMetric::Temp, 0, 70_000)).unwrap();
    for i in 0..30 {
        let t = if i % 2 == 0 { 80_000 } else { 50_000 };
        alerts.process_alerts_at(&cpu_status(t), i);
    }
    let (_, logs) = alerts.get_all();
    assert_eq!(logs.len(), LOG_BUFFER_SIZE);
    assert_eq!(logs[0].timestamp, 10);
    assert_eq!(logs[19].timestamp, 29);
}

#[test]
fn moving_averages() {
    let samples = vec![30_000, 20_000, 10_000, 0];
    assert_eq!(simple_moving_avg(&samples, 2), 25_000);
    assert_eq!(simple_moving_avg(&samples, 10), 15_000);
    assert_eq!(simple_moving_avg(&vec![-1, -2], 2), -1);
    // window 3: seed 10_000, then (2*20_000 + 2*10_000)/4 = 15_000, then (2*30_000 + 2*15_000)/4
    assert_eq!(exponential_moving_avg(&samples, 3), 22_500);
}

#[test]
fn ema_of_constant_input_is_the_input() {
    let samples = vec![42_123; 12];
    assert_eq!(exponential_moving_avg(&samples, 5), 42_123);
    assert_eq!(exponential_moving_avg(&samples, 65_535), 42_123);
    assert_eq!(simple_moving_avg(&samples, 7), 42_123);
}

#[test]
fn standard_function_dead_band_and_delay() {
    let f = Function {
        uid: s("f"),
        name: s("f"),
        f_type: FunctionType::Standard,
        response_delay: Some(2),
        deviance: Some(2_000),
        sample_window: None,
    };
    let mut st = StandardState::new();
    assert_eq!(effective_temp(&f, &vec![40_000], &mut st), Some(40_000));
    assert_eq!(effective_temp(&f, &vec![41_000], &mut st), Some(40_000));
    assert_eq!(effective_temp(&f, &vec![45_000], &mut st), Some(40_000));
    assert_eq!(effective_temp(&f, &vec![45_000], &mut st), Some(40_000));
    assert_eq!(effective_temp(&f, &vec![45_000], &mut st), Some(45_000));
    assert_eq!(effective_temp(&f, &Vec::new(), &mut st), None);
    let identity = Function::identity();
    assert_eq!(effective_temp(&identity, &vec![33_000, 1], &mut st), Some(33_000));
}

#[test]
fn apply_twice_writes_once() {
    let mut ch = ChannelSpeedState::new();
    assert!(ch.decide(40_000, 50, false));
    assert!(!ch.decide(40_050, 50, false));
    assert!(ch.decide(40_100, 50, false));
    assert!(ch.decide(40_100, 51, false));
    assert!(ch.decide(40_100, 51, true));
}

#[test]
fn suspend_resume_scenario() {
    let mut settings = CoolerControlSettings::defaults();
    settings.startup_delay = 3;
    let mut st = LoopState::new();
    assert_eq!(st.on_tick(true, &settings), TickAction::RunCycle { lcd: false });
    assert_eq!(st.on_tick(true, &settings), TickAction::RunCycle { lcd: true });
    st.suspending();
    assert_eq!(st.on_tick(true, &settings), TickAction::Idle);
    assert_eq!(st.on_tick(true, &settings), TickAction::Idle);
    st.resumed();
    assert_eq!(st.on_tick(true, &settings), TickAction::Wake { delay_s: 3, reapply: true });
    st.woke();
    assert_eq!(st.on_tick(true, &settings), TickAction::RunCycle { lcd: false });
    settings.startup_delay = 0;
    settings.apply_on_boot = false;
    st.suspending();
    st.resumed();
    assert_eq!(st.on_tick(false, &settings), TickAction::Wake { delay_s: 1, reapply: false });
    assert_eq!(align_wait_ms(250), 750);
    assert_eq!(align_wait_ms(0), 1000);
}

#[test]
fn mode_crud() {
    let mut modes = ModeController::new();
    let a = modes.create_mode(s("Quiet"), vec![device("D1", vec![fixed("fan", 20)])]).ok().unwrap();
    assert_eq!(a.uid.len(), 36);
    let b = modes.duplicate_mode(&a.uid).ok().unwrap();
    assert_ne!(a.uid, b.uid);
    assert_eq!(b.name, "Quiet (copy)");
    assert_eq!(b.all_device_settings[0].settings[0].speed_fixed, Some(20));
    modes.update_mode(&b.uid, s("Loud")).unwrap();
    assert_eq!(modes.get_mode(&b.uid).unwrap().name, "Loud");
    match modes.update_mode_order(&vec![a.uid.clone()]) {
        Err(CCError::UserError { .. }) => {}
        _ => panic!("a short order is refused"),
    }
    match modes.update_mode_order(&vec![a.uid.clone(), a.uid.clone()]) {
        Err(CCError::UserError { .. }) => {}
        _ => panic!("a repeated uid is refused"),
    }
    modes.update_mode_order(&vec![b.uid.clone(), a.uid.clone()]).unwrap();
    let names: Vec<String> = modes.get_modes().into_iter().map(|m| m.name).collect();
    assert_eq!(names, vec![s("Loud"), s("Quiet")]);
    let updated = modes
        .update_mode_with_current_settings(&a.uid, vec![device("D9", vec![fixed("pump", 90)])])
        .ok()
        .unwrap();
    assert_eq!(updated.all_device_settings[0].device_uid, "D9");
    modes.delete_mode(&a.uid).unwrap();
    assert!(modes.get_mode(&a.uid).is_none());
    match modes.delete_mode(&a.uid) {
        Err(CCError::NotFound { .. }) => {}
        _ => panic!("a deleted Mode is not found"),
    }
}

#[test]
fn parse_u32_reads_decimal_numbers() {
    assert_eq!(parse_u32(&s("1200")), Some(1200));
    assert_eq!(parse_u32(&s("+7")), Some(7));
    assert_eq!(parse_u32(&s("4294967295")), Some(u32::MAX));
    assert_eq!(parse_u32(&s("4294967296")), None);
    assert_eq!(parse_u32(&s("")), None);
    assert_eq!(parse_u32(&s("+")), None);
    assert_eq!(parse_u32(&s("-1")), None);
    assert_eq!(parse_u32(&s("12a")), None);
    assert_eq!(parse_u32(&s("33.3")), None);
}

#[test]
fn modern_690_capabilities() {
    let support = Modern690LcSupport::new();
    assert_eq!(support.supported_driver(), BaseDriver::Modern690Lc);
    let info = support.extract_info();
    assert_eq!(info.channels.len(), 3);
    assert_eq!(info.channels[0].0, "pump");
    assert_eq!(info.channels[0].1.speed_options.unwrap().min_duty, 50);
    assert_eq!(info.profile_max_length, 6);
    assert!(info.validate_setting(&fixed("pump", 60)).is_ok());
    match info.validate_setting(&fixed("pump", 40)) {
        Err(CCError::UserError { .. }) => {}
        _ => panic!("a duty below the pump's range is refused"),
    }
    match info.validate_setting(&fixed("nothing", 40)) {
        Err(CCError::NotFound { .. }) => {}
        _ => panic!("an unknown channel is not found"),
    }
    let modes = support.get_color_channel_modes();
    assert_eq!(modes[3].name, "fading");
    assert_eq!(modes[3].max_colors, 2);
}

#[test]
fn error_status_codes() {
    assert_eq!(CCError::internal("x").status_code(), 500);
    assert_eq!(CCError::external("x").status_code(), 502);
    assert_eq!(CCError::not_found("x").status_code(), 404);
    assert_eq!(CCError::user_error("x").status_code(), 400);
    assert_eq!(CCError::user_error("bad").message(), "bad");
}

#[test]
fn settings_merge() {
    let current = CoolerControlSettings::defaults();
    let dto = CoolerControlSettingsDto {
        apply_on_boot: Some(false),
        handle_dynamic_temps: None,
        startup_delay: Some(30),
        smoothing_level: Some(3),
        thinkpad_full_speed: None,
    };
    let merged = dto.merge(current);
    assert!(!merged.apply_on_boot);
    assert!(!merged.handle_dynamic_temps);
    assert_eq!(merged.startup_delay, 10);
    assert_eq!(merged.smoothing_level, 3);
    let too_smooth = CoolerControlSettingsDto {
        apply_on_boot: None,
        handle_dynamic_temps: None,
        startup_delay: None,
        smoothing_level: Some(9),
        thinkpad_full_speed: None,
    };
    assert_eq!(too_smooth.merge(current).smoothing_level, 5);
    let mut store = Config::new(current);
    let mut wild = current;
    wild.startup_delay = 99;
    wild.smoothing_level = 9;
    store.set_settings(wild);
    assert_eq!(store.get_settings().startup_delay, 10);
    assert_eq!(store.get_settings().smoothing_level, 5);
    let back = CoolerControlSettingsDto::from_settings(&store.get_settings());
    assert_eq!(back.startup_delay, Some(10));
}

#[test]
fn profile_and_function_store() {
    let mut store = Config::new(CoolerControlSettings::defaults());
    let mut p = profile("p", ProfileType::Fixed);
    p.speed_fixed = Some(30);
    store.set_profile(p).unwrap();
    let mut dup = profile("p", ProfileType::Fixed);
    dup.speed_fixed = Some(30);
    assert!(store.set_profile(dup).is_err());
    let mut m = profile("m", ProfileType::Mix);
    m.member_profile_uids = vec![s("m")];
    match store.set_profile(m) {
        Err(CCError::UserError { .. }) => {}
        _ => panic!("a Mix containing itself is refused"),
    }
    store.set_profiles_order(&vec![s("p"), s("0")]).unwrap();
    assert_eq!(store.get_profiles()[0].uid, "p");
    assert!(store.set_profiles_order(&vec![s("p")]).is_err());
    let f = Function {
        uid: s("f"),
        name: s("smooth"),
        f_type: FunctionType::SimpleMovingAvg,
        response_delay: None,
        deviance: None,
        sample_window: Some(4),
    };
    store.set_function(f).unwrap();
    assert_eq!(store.get_functions().len(), 2);
    store.delete_function(&s("f")).unwrap();
    assert!(store.delete_function(&s("f")).is_err());
    store.set_legacy690_id(&s("d"), true);
    store.set_legacy690_id(&s("d"), false);
    assert_eq!(store.legacy690_ids(), vec![(s("d"), false)]);
}
