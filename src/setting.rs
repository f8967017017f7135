//! Settings, profiles and functions as the control plane stores them.
//!
//! Temperatures are held as signed thousandths of a degree Celsius (`30_000` is 30 °C).
use vstd::prelude::*;
use vstd::string::StringExecFns;

verus! {

/// A unique identifier of a device, profile, function, mode or alert.
pub type UID = String;

/// The uid of the built-in Default Profile and of the Identity Function.
pub const DEFAULT_PROFILE_UID: &'static str = "0";

/// Thousandths of a unit (°C, %, rpm, MHz).
pub type Milli = i64;

/// Whether a uid is the Default Profile's uid, `"0"`.
pub open spec fn is_default_uid(s: Seq<char>) -> bool {
    s == seq!['0']
}

pub open spec fn opt_str_view(o: Option<String>) -> Option<Seq<char>> {
    match o {
        Some(s) => Some(s@),
        None => None,
    }
}

/// Tests whether `s` is the Default Profile's uid.
pub fn is_default_uid_str(s: &String) -> (r: bool)
    ensures
        r == is_default_uid(s@),
{
    let t = s.as_str();
    let n = t.unicode_len();
    if n != 1 {
        return false;
    }
    let c = t.get_char(0);
    assert(n == 1 ==> (c == '0' <==> s@ =~= seq!['0']));
    c == '0'
}

/// Whether an optional profile uid names the Default Profile.
pub fn is_default_profile(profile_uid: &Option<String>) -> (r: bool)
    ensures
        r == (profile_uid.is_some() && is_default_uid(profile_uid.unwrap()@)),
{
    match profile_uid {
        Some(uid) => is_default_uid_str(uid),
        None => false,
    }
}

pub fn eq_opt_str(a: &Option<String>, b: &Option<String>) -> (r: bool)
    ensures
        r == (opt_str_view(*a) == opt_str_view(*b)),
{
    match (a, b) {
        (Some(x), Some(y)) => x.eq(y),
        (None, None) => true,
        _ => false,
    }
}

pub fn clone_opt_str(a: &Option<String>) -> (r: Option<String>)
    ensures
        opt_str_view(r) == opt_str_view(*a),
{
    match a {
        Some(x) => Some(x.clone()),
        None => None,
    }
}

/// Copies a list of `(temperature, duty)` points.
pub fn copy_points(v: &Vec<(Milli, u8)>) -> (r: Vec<(Milli, u8)>)
    ensures
        r@ == v@,
{
    let mut r: Vec<(Milli, u8)> = Vec::new();
    let mut i: usize = 0;
    while i < v.len()
        invariant
            i <= v.len(),
            r@ == v@.subrange(0, i as int),
        decreases v.len() - i,
    {
        r.push(v[i]);
        i += 1;
    }
    assert(r@ =~= v@);
    r
}

/// Copies a list of RGB colours.
pub fn copy_colors(v: &Vec<(u8, u8, u8)>) -> (r: Vec<(u8, u8, u8)>)
    ensures
        r@ == v@,
{
    let mut r: Vec<(u8, u8, u8)> = Vec::new();
    let mut i: usize = 0;
    while i < v.len()
        invariant
            i <= v.len(),
            r@ == v@.subrange(0, i as int),
        decreases v.len() - i,
    {
        r.push(v[i]);
        i += 1;
    }
    assert(r@ =~= v@);
    r
}

pub fn eq_points(a: &Vec<(Milli, u8)>, b: &Vec<(Milli, u8)>) -> (r: bool)
    ensures
        r == (a@ == b@),
{
    if a.len() != b.len() {
        return false;
    }
    let mut i: usize = 0;
    while i < a.len()
        invariant
            i <= a.len(),
            a.len() == b.len(),
            a@.subrange(0, i as int) == b@.subrange(0, i as int),
        decreases a.len() - i,
    {
        let (t1, d1) = a[i];
        let (t2, d2) = b[i];
        if t1 != t2 || d1 != d2 {
            assert(a@[i as int] != b@[i as int]);
            return false;
        }
        assert(a@.subrange(0, i + 1) =~= a@.subrange(0, i as int).push(a@[i as int]));
        assert(b@.subrange(0, i + 1) =~= b@.subrange(0, i as int).push(b@[i as int]));
        i += 1;
    }
    assert(a@ =~= a@.subrange(0, a.len() as int));
    assert(b@ =~= b@.subrange(0, b.len() as int));
    true
}

pub fn eq_colors(a: &Vec<(u8, u8, u8)>, b: &Vec<(u8, u8, u8)>) -> (r: bool)
    ensures
        r == (a@ == b@),
{
    if a.len() != b.len() {
        return false;
    }
    let mut i: usize = 0;
    while i < a.len()
        invariant
            i <= a.len(),
            a.len() == b.len(),
            a@.subrange(0, i as int) == b@.subrange(0, i as int),
        decreases a.len() - i,
    {
        let (r1, g1, b1) = a[i];
        let (r2, g2, b2) = b[i];
        if r1 != r2 || g1 != g2 || b1 != b2 {
            assert(a@[i as int] != b@[i as int]);
            return false;
        }
        assert(a@.subrange(0, i + 1) =~= a@.subrange(0, i as int).push(a@[i as int]));
        assert(b@.subrange(0, i + 1) =~= b@.subrange(0, i as int).push(b@[i as int]));
        i += 1;
    }
    assert(a@ =~= a@.subrange(0, a.len() as int));
    assert(b@ =~= b@.subrange(0, b.len() as int));
    true
}


/// References a named temperature sensor of a device.
pub struct TempSource {
    /// The internal name of the sensor, not its display name.
    pub temp_name: String,
    /// The device holding the sensor.
    pub device_uid: UID,
}

pub struct TempSourceView {
    pub temp_name: Seq<char>,
    pub device_uid: Seq<char>,
}

impl View for TempSource {
    type V = TempSourceView;

    open spec fn view(&self) -> TempSourceView {
        TempSourceView { temp_name: self.temp_name@, device_uid: self.device_uid@ }
    }
}

pub open spec fn opt_temp_source_view(o: Option<TempSource>) -> Option<TempSourceView> {
    match o {
        Some(t) => Some(t@),
        None => None,
    }
}

impl TempSource {
    pub fn same_as(&self, other: &TempSource) -> (r: bool)
        ensures
            r == (self@ == other@),
    {
        self.temp_name.eq(&other.temp_name) && self.device_uid.eq(&other.device_uid)
    }
}

impl Clone for TempSource {
    fn clone(&self) -> (r: Self)
        ensures
            r@ == self@,
    {
        TempSource { temp_name: self.temp_name.clone(), device_uid: self.device_uid.clone() }
    }
}

pub fn eq_opt_temp_source(a: &Option<TempSource>, b: &Option<TempSource>) -> (r: bool)
    ensures
        r == (opt_temp_source_view(*a) == opt_temp_source_view(*b)),
{
    match (a, b) {
        (Some(x), Some(y)) => x.same_as(y),
        (None, None) => true,
        _ => false,
    }
}

pub fn clone_opt_temp_source(a: &Option<TempSource>) -> (r: Option<TempSource>)
    ensures
        opt_temp_source_view(r) == opt_temp_source_view(*a),
{
    match a {
        Some(x) => Some(x.clone()),
        None => None,
    }
}

/// Lighting settings of one channel.
pub struct LightingSettings {
    /// The lighting mode name.
    pub mode: String,
    /// The speed to set.
    pub speed: Option<String>,
    /// Run backwards or not.
    pub backward: Option<bool>,
    /// RGB colours, e.g. `[(20, 20, 120), (0, 0, 255)]`.
    pub colors: Vec<(u8, u8, u8)>,
}

pub struct LightingSettingsView {
    pub mode: Seq<char>,
    pub speed: Option<Seq<char>>,
    pub backward: Option<bool>,
    pub colors: Seq<(u8, u8, u8)>,
}

impl View for LightingSettings {
    type V = LightingSettingsView;

    open spec fn view(&self) -> LightingSettingsView {
        LightingSettingsView {
            mode: self.mode@,
            speed: opt_str_view(self.speed),
            backward: self.backward,
            colors: self.colors@,
        }
    }
}

impl LightingSettings {
    pub fn same_as(&self, other: &LightingSettings) -> (r: bool)
        ensures
            r == (self@ == other@),
    {
        self.mode.eq(&other.mode) && eq_opt_str(&self.speed, &other.speed) && self.backward
            == other.backward && eq_colors(&self.colors, &other.colors)
    }
}

impl Clone for LightingSettings {
    fn clone(&self) -> (r: Self)
        ensures
            r@ == self@,
    {
        LightingSettings {
            mode: self.mode.clone(),
            speed: clone_opt_str(&self.speed),
            backward: self.backward,
            colors: copy_colors(&self.colors),
        }
    }
}

/// LCD screen settings of one channel.
pub struct LcdSettings {
    /// The LCD mode name.
    pub mode: String,
    /// Brightness, 0 to 100 %.
    pub brightness: Option<u8>,
    /// Image orientation: 0, 90, 180 or 270.
    pub orientation: Option<u16>,
    /// Where the source image lies.
    pub image_file_src: Option<String>,
    /// Where the preprocessed image lies.
    pub image_file_processed: Option<String>,
    /// RGB colours.
    pub colors: Vec<(u8, u8, u8)>,
    /// The temperature shown by a temperature mode.
    pub temp_source: Option<TempSource>,
}

pub struct LcdSettingsView {
    pub mode: Seq<char>,
    pub brightness: Option<u8>,
    pub orientation: Option<u16>,
    pub image_file_src: Option<Seq<char>>,
    pub image_file_processed: Option<Seq<char>>,
    pub colors: Seq<(u8, u8, u8)>,
    pub temp_source: Option<TempSourceView>,
}

impl View for LcdSettings {
    type V = LcdSettingsView;

    open spec fn view(&self) -> LcdSettingsView {
        LcdSettingsView {
            mode: self.mode@,
            brightness: self.brightness,
            orientation: self.orientation,
            image_file_src: opt_str_view(self.image_file_src),
            image_file_processed: opt_str_view(self.image_file_processed),
            colors: self.colors@,
            temp_source: opt_temp_source_view(self.temp_source),
        }
    }
}

impl LcdSettings {
    pub fn same_as(&self, other: &LcdSettings) -> (r: bool)
        ensures
            r == (self@ == other@),
    {
        self.mode.eq(&other.mode) && self.brightness == other.brightness && self.orientation
            == other.orientation && eq_opt_str(&self.image_file_src, &other.image_file_src)
            && eq_opt_str(&self.image_file_processed, &other.image_file_processed) && eq_colors(
            &self.colors,
            &other.colors,
        ) && eq_opt_temp_source(&self.temp_source, &other.temp_source)
    }
}

impl Clone for LcdSettings {
    fn clone(&self) -> (r: Self)
        ensures
            r@ == self@,
    {
        LcdSettings {
            mode: self.mode.clone(),
            brightness: self.brightness,
            orientation: self.orientation,
            image_file_src: clone_opt_str(&self.image_file_src),
            image_file_processed: clone_opt_str(&self.image_file_processed),
            colors: copy_colors(&self.colors),
            temp_source: clone_opt_temp_source(&self.temp_source),
        }
    }
}

pub open spec fn opt_lighting_view(o: Option<LightingSettings>) -> Option<LightingSettingsView> {
    match o {
        Some(t) => Some(t@),
        None => None,
    }
}

pub open spec fn opt_lcd_view(o: Option<LcdSettings>) -> Option<LcdSettingsView> {
    match o {
        Some(t) => Some(t@),
        None => None,
    }
}

pub open spec fn opt_points_view(o: Option<Vec<(Milli, u8)>>) -> Option<Seq<(Milli, u8)>> {
    match o {
        Some(t) => Some(t@),
        None => None,
    }
}

/// The configuration of one channel of one device.
///
/// Usually one speed, lighting or LCD setting is given at a time.
pub struct Setting {
    pub channel_name: String,
    /// A fixed duty, e.g. 20 (%).
    pub speed_fixed: Option<u8>,
    /// `(temperature, duty)` points of a speed curve.
    pub speed_profile: Option<Vec<(Milli, u8)>>,
    /// The temperature that the speed curve reads.
    pub temp_source: Option<TempSource>,
    pub lighting: Option<LightingSettings>,
    pub lcd: Option<LcdSettings>,
    /// The pwm mode to set on hwmon devices, e.g. 1.
    pub pwm_mode: Option<u8>,
    /// Hands the channel back to the device's automatic control.
    pub reset_to_default: Option<bool>,
    /// The Profile that drives the channel.
    pub profile_uid: Option<UID>,
}

pub struct SettingView {
    pub channel_name: Seq<char>,
    pub speed_fixed: Option<u8>,
    pub speed_profile: Option<Seq<(Milli, u8)>>,
    pub temp_source: Option<TempSourceView>,
    pub lighting: Option<LightingSettingsView>,
    pub lcd: Option<LcdSettingsView>,
    pub pwm_mode: Option<u8>,
    pub reset_to_default: Option<bool>,
    pub profile_uid: Option<Seq<char>>,
}

impl View for Setting {
    type V = SettingView;

    open spec fn view(&self) -> SettingView {
        SettingView {
            channel_name: self.channel_name@,
            speed_fixed: self.speed_fixed,
            speed_profile: opt_points_view(self.speed_profile),
            temp_source: opt_temp_source_view(self.temp_source),
            lighting: opt_lighting_view(self.lighting),
            lcd: opt_lcd_view(self.lcd),
            pwm_mode: self.pwm_mode,
            reset_to_default: self.reset_to_default,
            profile_uid: opt_str_view(self.profile_uid),
        }
    }
}

impl SettingView {
    /// The setting hands its channel to the Default Profile.
    pub open spec fn is_default(self) -> bool {
        self.profile_uid.is_some() && is_default_uid(self.profile_uid.unwrap())
    }

    /// The setting erases its channel's configuration.
    pub open spec fn is_reset(self) -> bool {
        self.reset_to_default == Some(true)
    }
}

impl Setting {
    /// A setting of `channel_name` with no control given.
    pub fn new(channel_name: String) -> (r: Setting)
        ensures
            r@.channel_name == channel_name@,
            r@.speed_fixed.is_none() && r@.speed_profile.is_none() && r@.temp_source.is_none(),
            r@.lighting.is_none() && r@.lcd.is_none() && r@.pwm_mode.is_none(),
            r@.reset_to_default.is_none() && r@.profile_uid.is_none(),
    {
        Setting {
            channel_name,
            speed_fixed: None,
            speed_profile: None,
            temp_source: None,
            lighting: None,
            lcd: None,
            pwm_mode: None,
            reset_to_default: None,
            profile_uid: None,
        }
    }

    /// The marker that erases the configuration of `channel_name`.
    pub fn reset_marker(channel_name: String) -> (r: Setting)
        ensures
            r@.channel_name == channel_name@,
            r@.is_reset(),
            r@.speed_fixed.is_none() && r@.speed_profile.is_none() && r@.temp_source.is_none(),
            r@.lighting.is_none() && r@.lcd.is_none() && r@.pwm_mode.is_none(),
            r@.profile_uid.is_none(),
    {
        let mut s = Setting::new(channel_name);
        s.reset_to_default = Some(true);
        s
    }

    pub fn same_as(&self, other: &Setting) -> (r: bool)
        ensures
            r == (self@ == other@),
    {
        let a = self.channel_name.eq(&other.channel_name) && self.speed_fixed == other.speed_fixed
            && self.pwm_mode == other.pwm_mode && self.reset_to_default == other.reset_to_default
            && eq_opt_str(&self.profile_uid, &other.profile_uid) && eq_opt_temp_source(
            &self.temp_source,
            &other.temp_source,
        );
        if !a {
            return false;
        }
        let b = match (&self.speed_profile, &other.speed_profile) {
            (Some(x), Some(y)) => eq_points(x, y),
            (None, None) => true,
            _ => false,
        };
        if !b {
            return false;
        }
        let c = match (&self.lighting, &other.lighting) {
            (Some(x), Some(y)) => x.same_as(y),
            (None, None) => true,
            _ => false,
        };
        if !c {
            return false;
        }
        match (&self.lcd, &other.lcd) {
            (Some(x), Some(y)) => x.same_as(y),
            (None, None) => true,
            _ => false,
        }
    }
}

impl Clone for Setting {
    fn clone(&self) -> (r: Self)
        ensures
            r@ == self@,
    {
        Setting {
            channel_name: self.channel_name.clone(),
            speed_fixed: self.speed_fixed,
            speed_profile: match &self.speed_profile {
                Some(p) => Some(copy_points(p)),
                None => None,
            },
            temp_source: clone_opt_temp_source(&self.temp_source),
            lighting: match &self.lighting {
                Some(l) => Some(l.clone()),
                None => None,
            },
            lcd: match &self.lcd {
                Some(l) => Some(l.clone()),
                None => None,
            },
            pwm_mode: self.pwm_mode,
            reset_to_default: self.reset_to_default,
            profile_uid: clone_opt_str(&self.profile_uid),
        }
    }
}


/// How a Profile turns a temperature into a duty.
#[derive(Debug, Clone, Copy, PartialEq, Eq, Structural)]
pub enum ProfileType {
    Default,
    Fixed,
    Graph,
    Mix,
}

/// The fewest points a Graph Profile's curve may have.
pub const PROFILE_MIN_POINTS: usize = 2;

/// The most points a Graph Profile's curve may have.
pub const PROFILE_MAX_POINTS: usize = 17;

/// A named rule that produces a duty from an effective temperature.
pub struct Profile {
    pub uid: UID,
    pub p_type: ProfileType,
    pub name: String,
    /// The duty of a Fixed Profile.
    pub speed_fixed: Option<u8>,
    /// The curve of a Graph Profile: `(temperature, duty)` points.
    pub speed_profile: Option<Vec<(Milli, u8)>>,
    /// The temperature that a Graph Profile reads.
    pub temp_source: Option<TempSource>,
    /// The Function applied to the temperature before the curve.
    pub function_uid: UID,
    /// The Profiles that a Mix Profile combines.
    pub member_profile_uids: Vec<UID>,
}

pub struct ProfileView {
    pub uid: Seq<char>,
    pub p_type: ProfileType,
    pub name: Seq<char>,
    pub speed_fixed: Option<u8>,
    pub speed_profile: Option<Seq<(Milli, u8)>>,
    pub temp_source: Option<TempSourceView>,
    pub function_uid: Seq<char>,
    pub member_profile_uids: Seq<Seq<char>>,
}

impl View for Profile {
    type V = ProfileView;

    open spec fn view(&self) -> ProfileView {
        ProfileView {
            uid: self.uid@,
            p_type: self.p_type,
            name: self.name@,
            speed_fixed: self.speed_fixed,
            speed_profile: opt_points_view(self.speed_profile),
            temp_source: opt_temp_source_view(self.temp_source),
            function_uid: self.function_uid@,
            member_profile_uids: self.member_profile_uids@.map_values(|u: String| u@),
        }
    }
}

/// A curve's points are sorted strictly ascending by temperature.
pub open spec fn strictly_sorted(pts: Seq<(Milli, u8)>) -> bool {
    forall|i: int, j: int| 0 <= i < j < pts.len() ==> #[trigger] pts[i].0 < #[trigger] pts[j].0
}

/// A curve of a Graph Profile: 2 to 17 points, sorted strictly by temperature, duties at most 100.
pub open spec fn valid_curve(pts: Seq<(Milli, u8)>) -> bool {
    &&& PROFILE_MIN_POINTS <= pts.len() <= PROFILE_MAX_POINTS
    &&& strictly_sorted(pts)
    &&& forall|i: int| 0 <= i < pts.len() ==> #[trigger] pts[i].1 <= 100
}

/// What a stored Profile must satisfy.
pub open spec fn valid_profile(p: ProfileView) -> bool {
    &&& p.p_type == ProfileType::Fixed ==> p.speed_fixed.is_some() && p.speed_fixed.unwrap() <= 100
    &&& p.p_type == ProfileType::Graph ==> p.speed_profile.is_some() && valid_curve(
        p.speed_profile.unwrap(),
    ) && p.temp_source.is_some()
    &&& p.p_type == ProfileType::Mix ==> p.member_profile_uids.len() > 0
    &&& p.p_type == ProfileType::Default ==> is_default_uid(p.uid)
}

/// Checks a curve against [`valid_curve`].
pub fn validate_curve(pts: &Vec<(Milli, u8)>) -> (r: bool)
    ensures
        r == valid_curve(pts@),
{
    if pts.len() < PROFILE_MIN_POINTS || pts.len() > PROFILE_MAX_POINTS {
        return false;
    }
    let mut i: usize = 0;
    while i < pts.len()
        invariant
            PROFILE_MIN_POINTS <= pts.len() <= PROFILE_MAX_POINTS,
            i <= pts.len(),
            forall|a: int, b: int| 0 <= a < b < i ==> #[trigger] pts@[a].0 < #[trigger] pts@[b].0,
            forall|a: int| 0 <= a < i ==> #[trigger] pts@[a].1 <= 100,
        decreases pts.len() - i,
    {
        if pts[i].1 > 100 {
            return false;
        }
        if i > 0 && pts[i - 1].0 >= pts[i].0 {
            assert(!strictly_sorted(pts@)) by {
                let a = i - 1;
                assert(pts@[a as int].0 >= pts@[i as int].0);
            }
            return false;
        }
        assert forall|a: int, b: int| 0 <= a < b < i + 1 implies #[trigger] pts@[a].0
            < #[trigger] pts@[b].0 by {
            if b == i && a < i - 1 {
                assert(pts@[a].0 < pts@[i - 1].0);
            }
        }
        i += 1;
    }
    true
}

impl Profile {
    /// Checks the Profile against [`valid_profile`].
    pub fn is_valid(&self) -> (r: bool)
        ensures
            r == valid_profile(self@),
    {
        match self.p_type {
            ProfileType::Fixed => match self.speed_fixed {
                Some(d) => d <= 100,
                None => false,
            },
            ProfileType::Graph => match &self.speed_profile {
                Some(pts) => validate_curve(pts) && self.temp_source.is_some(),
                None => false,
            },
            ProfileType::Mix => self.member_profile_uids.len() > 0,
            ProfileType::Default => is_default_uid_str(&self.uid),
        }
    }
}

/// How a Function turns raw samples into an effective temperature.
#[derive(Debug, Clone, Copy, PartialEq, Eq, Structural)]
pub enum FunctionType {
    Identity,
    Standard,
    SimpleMovingAvg,
    ExponentialMovingAvg,
}

/// A named transformer from raw temperature samples to an effective temperature.
pub struct Function {
    pub uid: UID,
    pub name: String,
    pub f_type: FunctionType,
    /// Ticks a new value must hold before a Standard Function follows it.
    pub response_delay: Option<u8>,
    /// The dead band of a Standard Function, in thousandths of a degree.
    pub deviance: Option<Milli>,
    /// The number of samples a moving average reads.
    pub sample_window: Option<u16>,
}

/// General settings of the daemon.
#[derive(Debug, Clone, Copy, PartialEq, Eq, Structural)]
pub struct CoolerControlSettings {
    pub apply_on_boot: bool,
    pub no_init: bool,
    pub handle_dynamic_temps: bool,
    /// Seconds to wait before applying settings at start and after waking, 0 to 10.
    pub startup_delay: u64,
    /// 0 to 5.
    pub smoothing_level: u8,
    pub thinkpad_full_speed: bool,
}

/// The largest startup delay, in seconds.
pub const MAX_STARTUP_DELAY: u64 = 10;

/// The largest smoothing level.
pub const MAX_SMOOTHING_LEVEL: u8 = 5;

impl CoolerControlSettings {
    /// The general settings used where none are stored.
    pub fn defaults() -> (r: CoolerControlSettings)
        ensures
            r.apply_on_boot && !r.no_init && !r.handle_dynamic_temps,
            r.startup_delay == 2 && r.smoothing_level == 0 && !r.thinkpad_full_speed,
    {
        CoolerControlSettings {
            apply_on_boot: true,
            no_init: false,
            handle_dynamic_temps: false,
            startup_delay: 2,
            smoothing_level: 0,
            thinkpad_full_speed: false,
        }
    }

    pub open spec fn wf(self) -> bool {
        self.startup_delay <= MAX_STARTUP_DELAY && self.smoothing_level <= MAX_SMOOTHING_LEVEL
    }
}

/// Settings that the daemon applies itself to one device.
#[derive(Debug, Clone, Copy, PartialEq, Eq, Structural)]
pub struct CoolerControlDeviceSettings {
    pub disable: bool,
}

/// What a stored channel Setting must satisfy: a speed curve comes with its temperature source,
/// and a fixed duty is at most 100.
pub open spec fn valid_setting(s: SettingView) -> bool {
    &&& s.speed_profile.is_some() ==> s.temp_source.is_some()
    &&& s.speed_fixed.is_some() ==> s.speed_fixed.unwrap() <= 100
}

impl Setting {
    /// Checks the Setting against [`valid_setting`].
    pub fn is_valid(&self) -> (r: bool)
        ensures
            r == valid_setting(self@),
    {
        (self.speed_profile.is_none() || self.temp_source.is_some()) && match self.speed_fixed {
            Some(d) => d <= 100,
            None => true,
        }
    }
}


/// Copies a list of uids.
pub fn copy_uids(v: &Vec<UID>) -> (r: Vec<UID>)
    ensures
        r@.map_values(|u: String| u@) == v@.map_values(|u: String| u@),
{
    let mut r: Vec<UID> = Vec::new();
    let mut i: usize = 0;
    while i < v.len()
        invariant
            i <= v.len(),
            r.len() == i,
            forall|k: int| 0 <= k < i ==> (#[trigger] r@[k])@ == v@[k]@,
        decreases v.len() - i,
    {
        r.push(v[i].clone());
        i += 1;
    }
    assert(r@.map_values(|u: String| u@) =~= v@.map_values(|u: String| u@));
    r
}

impl Clone for Profile {
    fn clone(&self) -> (r: Self)
        ensures
            r@ == self@,
    {
        Profile {
            uid: self.uid.clone(),
            p_type: self.p_type,
            name: self.name.clone(),
            speed_fixed: self.speed_fixed,
            speed_profile: match &self.speed_profile {
                Some(p) => Some(copy_points(p)),
                None => None,
            },
            temp_source: clone_opt_temp_source(&self.temp_source),
            function_uid: self.function_uid.clone(),
            member_profile_uids: copy_uids(&self.member_profile_uids),
        }
    }
}

pub struct FunctionView {
    pub uid: Seq<char>,
    pub name: Seq<char>,
    pub f_type: FunctionType,
    pub response_delay: Option<u8>,
    pub deviance: Option<Milli>,
    pub sample_window: Option<u16>,
}

impl View for Function {
    type V = FunctionView;

    open spec fn view(&self) -> FunctionView {
        FunctionView {
            uid: self.uid@,
            name: self.name@,
            f_type: self.f_type,
            response_delay: self.response_delay,
            deviance: self.deviance,
            sample_window: self.sample_window,
        }
    }
}

impl Clone for Function {
    fn clone(&self) -> (r: Self)
        ensures
            r@ == self@,
    {
        Function {
            uid: self.uid.clone(),
            name: self.name.clone(),
            f_type: self.f_type,
            response_delay: self.response_delay,
            deviance: self.deviance,
            sample_window: self.sample_window,
        }
    }
}

impl Profile {
    /// The built-in Default Profile: uid "0", which leaves a channel to the device's control.
    pub fn default_profile() -> (r: Profile)
        ensures
            r@.p_type == ProfileType::Default,
            is_default_uid(r@.uid),
            valid_profile(r@),
    {
        let uid = String::from_str(DEFAULT_PROFILE_UID);
        proof {
            reveal_strlit("0");
        }
        assert(uid@ =~= seq!['0']);
        Profile {
            uid,
            p_type: ProfileType::Default,
            name: String::from_str("Default Profile"),
            speed_fixed: None,
            speed_profile: None,
            temp_source: None,
            function_uid: String::from_str(DEFAULT_PROFILE_UID),
            member_profile_uids: Vec::new(),
        }
    }
}

impl Function {
    /// The built-in Identity Function: uid "0", which passes the newest sample through.
    pub fn identity() -> (r: Function)
        ensures
            r@.f_type == FunctionType::Identity,
            is_default_uid(r@.uid),
    {
        let uid = String::from_str(DEFAULT_PROFILE_UID);
        proof {
            reveal_strlit("0");
        }
        assert(uid@ =~= seq!['0']);
        Function {
            uid,
            name: String::from_str("Identity"),
            f_type: FunctionType::Identity,
            response_delay: None,
            deviance: None,
            sample_window: None,
        }
    }
}


/// The setting with only its first control given, in the order fixed duty, speed curve (with its
/// temperature source), lighting, LCD (with its temperature source), Profile: exactly one
/// control variant is kept. The channel name, the pwm mode and the reset flag stay.
pub open spec fn normalized(s: SettingView) -> SettingView {
    if s.speed_fixed.is_some() {
        SettingView { speed_profile: None, temp_source: None, lighting: None, lcd: None, profile_uid: None, ..s }
    } else if s.speed_profile.is_some() {
        SettingView { lighting: None, lcd: None, profile_uid: None, ..s }
    } else if s.lighting.is_some() {
        SettingView { temp_source: None, lcd: None, profile_uid: None, ..s }
    } else if s.lcd.is_some() {
        SettingView { profile_uid: None, ..s }
    } else if s.profile_uid.is_some() {
        SettingView { temp_source: None, ..s }
    } else {
        s
    }
}

/// Keeping one control variant keeps a setting valid, and is done once for all.
pub proof fn lemma_normalized(s: SettingView)
    ensures
        valid_setting(s) ==> valid_setting(normalized(s)),
        normalized(normalized(s)) == normalized(s),
        normalized(s).channel_name == s.channel_name,
        normalized(s).is_reset() == s.is_reset(),
{
}

impl Setting {
    /// The setting with only its first control given, as [`normalized`] states.
    pub fn normalized(self) -> (r: Setting)
        ensures
            r@ == normalized(self@),
    {
        let mut s = self;
        if s.speed_fixed.is_some() {
            s.speed_profile = None;
            s.temp_source = None;
            s.lighting = None;
            s.lcd = None;
            s.profile_uid = None;
        } else if s.speed_profile.is_some() {
            s.lighting = None;
            s.lcd = None;
            s.profile_uid = None;
        } else if s.lighting.is_some() {
            s.temp_source = None;
            s.lcd = None;
            s.profile_uid = None;
        } else if s.lcd.is_some() {
            s.profile_uid = None;
        } else if s.profile_uid.is_some() {
            s.temp_source = None;
        }
        s
    }
}

} // verus!
