//! Devices as the control plane sees them: drivers, channel capabilities, and the validation of
//! a channel setting against them.
use vstd::prelude::*;
use vstd::string::StringExecFns;

use crate::error::CCError;
use crate::setting::{Setting, SettingView};

verus! {

/// The liquidctl drivers that devices are handled by.
#[derive(Debug, Clone, Copy, PartialEq, Eq, Structural)]
pub enum BaseDriver {
    CommanderPro,
    Kraken2,
    KrakenX3,
    KrakenZ3,
    SmartDevice,
    SmartDevice2,
    H1V2,
    HydroPlatinum,
    CorsairHidPsu,
    RgbFusion2,
    AuraLed,
    CommanderCore,
    NzxtEPsu,
    Modern690Lc,
    Hydro690Lc,
    Legacy690Lc,
    HydroPro,
    EvgaPascal,
    RogTuring,
    Ddr4Temperature,
    VengeanceRgb,
}

/// The GPU vendors.
#[derive(Debug, Clone, Copy, PartialEq, Eq, Structural)]
pub enum GpuType {
    Nvidia,
    AMD,
}

/// Speed control capabilities of a channel.
#[derive(Debug, Clone, Copy, PartialEq, Eq, Structural)]
pub struct SpeedOptions {
    pub min_duty: u8,
    pub max_duty: u8,
    pub profiles_enabled: bool,
    pub fixed_enabled: bool,
    pub manual_profiles_enabled: bool,
}

/// A lighting mode a channel offers.
pub struct LightingMode {
    pub name: String,
    pub min_colors: u8,
    pub max_colors: u8,
    pub speed_enabled: bool,
    pub backward_enabled: bool,
}

/// The capabilities of one channel.
pub struct ChannelInfo {
    pub speed_options: Option<SpeedOptions>,
    pub lighting_modes: Vec<LightingMode>,
    /// The names of the LCD modes the channel offers.
    pub lcd_modes: Vec<String>,
}

/// The capabilities of a device.
pub struct DeviceInfo {
    /// The device's channels, by name.
    pub channels: Vec<(String, ChannelInfo)>,
    pub lighting_speeds: Vec<String>,
    pub temp_min: u8,
    pub temp_max: u8,
    pub temp_ext_available: bool,
    pub profile_max_length: u8,
    pub profile_min_length: u8,
}

/// Some lighting mode of `modes` is named `name`.
pub open spec fn has_lighting_mode(modes: Seq<LightingMode>, name: Seq<char>) -> bool {
    exists|i: int| 0 <= i < modes.len() && (#[trigger] modes[i]).name@ == name
}

/// Some LCD mode of `modes` is named `name`.
pub open spec fn has_lcd_mode(modes: Seq<String>, name: Seq<char>) -> bool {
    exists|i: int| 0 <= i < modes.len() && (#[trigger] modes[i])@ == name
}

/// A setting fits the channel `info`: a fixed duty lies within its speed range, a speed curve
/// or a Profile needs speed control, and a lighting or LCD mode must be one the channel offers.
pub open spec fn fits_channel(info: ChannelInfo, s: SettingView) -> bool {
    &&& s.speed_fixed.is_some() ==> info.speed_options.is_some() && info.speed_options.unwrap().min_duty
        <= s.speed_fixed.unwrap() <= info.speed_options.unwrap().max_duty
    &&& (s.speed_profile.is_some() || s.profile_uid.is_some()) ==> info.speed_options.is_some()
    &&& s.lighting.is_some() ==> has_lighting_mode(info.lighting_modes@, s.lighting.unwrap().mode)
    &&& s.lcd.is_some() ==> has_lcd_mode(info.lcd_modes@, s.lcd.unwrap().mode)
}

/// `i` is the first index of a channel named `name` in `chs`.
pub open spec fn first_channel_info(chs: Seq<(String, ChannelInfo)>, name: Seq<char>, i: int) -> bool {
    &&& 0 <= i < chs.len()
    &&& chs[i].0@ == name
    &&& forall|k: int| 0 <= k < i ==> (#[trigger] chs[k]).0@ != name
}

impl DeviceInfo {
    /// Checks `setting` against the capabilities of its channel: an unknown channel is not
    /// found, one that does not fit is a user error.
    pub fn validate_setting(&self, setting: &Setting) -> (r: Result<(), CCError>)
        ensures
            !(exists|i: int| first_channel_info(self.channels@, setting@.channel_name, i)) ==> r is Err
                && r->Err_0 is NotFound,
            forall|i: int| first_channel_info(self.channels@, setting@.channel_name, i) ==> (r is Ok <==> fits_channel(
                self.channels@[i].1,
                setting@,
            )) && (r is Err ==> r->Err_0 is UserError),
    {
        let mut i: usize = 0;
        while i < self.channels.len()
            invariant
                i <= self.channels.len(),
                forall|k: int| 0 <= k < i ==> (#[trigger] self.channels@[k]).0@ != setting@.channel_name,
            decreases self.channels.len() - i,
        {
            if self.channels[i].0.eq(&setting.channel_name) {
                let ghost c = i as int;
                assert(first_channel_info(self.channels@, setting@.channel_name, c));
                assert forall|j: int| first_channel_info(self.channels@, setting@.channel_name, j) implies j == c by {
                    if j < c { assert(self.channels@[j].0@ != setting@.channel_name); }
                    if j > c { assert(self.channels@[c].0@ != setting@.channel_name); }
                }
                return if fits(&self.channels[i].1, setting) {
                    Ok(())
                } else {
                    Err(CCError::user_error("The setting does not fit the channel"))
                };
            }
            i += 1;
        }
        Err(CCError::not_found("Channel not found"))
    }
}

/// Decides [`fits_channel`].
pub fn fits(info: &ChannelInfo, s: &Setting) -> (r: bool)
    ensures
        r == fits_channel(*info, s@),
{
    let speed_ok = match s.speed_fixed {
        Some(d) => match info.speed_options {
            Some(o) => o.min_duty <= d && d <= o.max_duty,
            None => false,
        },
        None => true,
    };
    if !speed_ok {
        return false;
    }
    if (s.speed_profile.is_some() || s.profile_uid.is_some()) && info.speed_options.is_none() {
        return false;
    }
    match &s.lighting {
        Some(l) => {
            let mut i: usize = 0;
            let mut found = false;
            while i < info.lighting_modes.len()
                invariant
                    i <= info.lighting_modes.len(),
                    found ==> has_lighting_mode(info.lighting_modes@, l@.mode),
                    !found ==> forall|k: int| 0 <= k < i ==> (#[trigger] info.lighting_modes@[k]).name@ != l@.mode,
                decreases info.lighting_modes.len() - i,
            {
                if !found && info.lighting_modes[i].name.eq(&l.mode) {
                    found = true;
                }
                i += 1;
            }
            if !found {
                return false;
            }
        },
        None => {},
    }
    match &s.lcd {
        Some(l) => {
            let mut i: usize = 0;
            let mut found = false;
            while i < info.lcd_modes.len()
                invariant
                    i <= info.lcd_modes.len(),
                    found ==> has_lcd_mode(info.lcd_modes@, l@.mode),
                    !found ==> forall|k: int| 0 <= k < i ==> (#[trigger] info.lcd_modes@[k])@ != l@.mode,
                decreases info.lcd_modes.len() - i,
            {
                if !found && info.lcd_modes[i].eq(&l.mode) {
                    found = true;
                }
                i += 1;
            }
            found
        },
        None => true,
    }
}

/// Support for the liquidctl KrakenX3 driver.
pub struct KrakenX3Support;

impl KrakenX3Support {
    pub fn new() -> (r: Self) {
        KrakenX3Support
    }

    pub fn supported_driver(&self) -> (r: BaseDriver)
        ensures
            r == BaseDriver::KrakenX3,
    {
        BaseDriver::KrakenX3
    }
}

/// Support for the liquidctl SmartDevice2 driver.
pub struct SmartDevice2Support;

impl SmartDevice2Support {
    pub fn new() -> (r: Self) {
        SmartDevice2Support
    }

    pub fn supported_driver(&self) -> (r: BaseDriver)
        ensures
            r == BaseDriver::SmartDevice2,
    {
        BaseDriver::SmartDevice2
    }
}

/// The lighting modes of a Modern 690 LC logo: blackout, fixed, rainbow, fading and blinking,
/// with their colour counts; the last three take a speed, none runs backwards.
pub open spec fn modern_690_color_modes(r: Seq<LightingMode>) -> bool {
    &&& r.len() == 5
    &&& r[0].name@ == "blackout"@ && r[0].min_colors == 0 && r[0].max_colors == 0 && !r[0].speed_enabled
    &&& r[1].name@ == "fixed"@ && r[1].min_colors == 1 && r[1].max_colors == 1 && !r[1].speed_enabled
    &&& r[2].name@ == "rainbow"@ && r[2].min_colors == 0 && r[2].max_colors == 0 && r[2].speed_enabled
    &&& r[3].name@ == "fading"@ && r[3].min_colors == 1 && r[3].max_colors == 2 && r[3].speed_enabled
    &&& r[4].name@ == "blinking"@ && r[4].min_colors == 1 && r[4].max_colors == 1 && r[4].speed_enabled
    &&& forall|i: int| 0 <= i < 5 ==> !(#[trigger] r[i]).backward_enabled
}

/// Support for the liquidctl Modern 690 LC driver.
pub struct Modern690LcSupport;

fn lighting_mode(name: &str, min_colors: u8, max_colors: u8, speed_enabled: bool, backward_enabled: bool) -> (r: LightingMode)
    ensures
        r.name@ == name@ && r.min_colors == min_colors && r.max_colors == max_colors,
        r.speed_enabled == speed_enabled && r.backward_enabled == backward_enabled,
{
    LightingMode { name: String::from_str(name), min_colors, max_colors, speed_enabled, backward_enabled }
}

impl Modern690LcSupport {
    pub fn new() -> (r: Self) {
        Modern690LcSupport
    }

    pub fn supported_driver(&self) -> (r: BaseDriver)
        ensures
            r == BaseDriver::Modern690Lc,
    {
        BaseDriver::Modern690Lc
    }

    /// The lighting modes of the logo, as [`modern_690_color_modes`] lists them.
    pub fn get_color_channel_modes(&self) -> (r: Vec<LightingMode>)
        ensures
            modern_690_color_modes(r@),
    {
        vec![
            lighting_mode("blackout", 0, 0, false, false),
            lighting_mode("fixed", 1, 1, false, false),
            lighting_mode("rainbow", 0, 0, true, false),
            lighting_mode("fading", 1, 2, true, false),
            lighting_mode("blinking", 1, 1, true, false),
        ]
    }

    /// The device's capabilities: a pump at fixed duties of 50 to 100 %, a fan with speed
    /// curves from 0 to 100 %, and a lighted logo; curves of 2 to 6 points over 20 to 60 °C.
    pub fn extract_info(&self) -> (r: DeviceInfo)
        ensures
            r.channels.len() == 3,
            r.channels@[0].0@ == "pump"@ && r.channels@[0].1.speed_options == Some(SpeedOptions {
                min_duty: 50,
                max_duty: 100,
                profiles_enabled: false,
                fixed_enabled: true,
                manual_profiles_enabled: true,
            }),
            r.channels@[1].0@ == "fan"@ && r.channels@[1].1.speed_options == Some(SpeedOptions {
                min_duty: 0,
                max_duty: 100,
                profiles_enabled: true,
                fixed_enabled: true,
                manual_profiles_enabled: false,
            }),
            r.channels@[2].0@ == "logo"@ && r.channels@[2].1.speed_options.is_none()
                && modern_690_color_modes(r.channels@[2].1.lighting_modes@),
            r.lighting_speeds.len() == 6,
            r.temp_min == 20 && r.temp_max == 60 && r.temp_ext_available,
            r.profile_min_length == 2 && r.profile_max_length == 6,
    {
        let pump = ChannelInfo {
            speed_options: Some(SpeedOptions {
                min_duty: 50,
                max_duty: 100,
                profiles_enabled: false,
                fixed_enabled: true,
                manual_profiles_enabled: true,
            }),
            lighting_modes: Vec::new(),
            lcd_modes: Vec::new(),
        };
        let fan = ChannelInfo {
            speed_options: Some(SpeedOptions {
                min_duty: 0,
                max_duty: 100,
                profiles_enabled: true,
                fixed_enabled: true,
                manual_profiles_enabled: false,
            }),
            lighting_modes: Vec::new(),
            lcd_modes: Vec::new(),
        };
        let logo = ChannelInfo {
            speed_options: None,
            lighting_modes: self.get_color_channel_modes(),
            lcd_modes: Vec::new(),
        };
        let channels = vec![
            (String::from_str("pump"), pump),
            (String::from_str("fan"), fan),
            (String::from_str("logo"), logo),
        ];
        let lighting_speeds = vec![
            String::from_str("6"),
            String::from_str("5"),
            String::from_str("4"),
            String::from_str("3"),
            String::from_str("2"),
            String::from_str("1"),
        ];
        DeviceInfo {
            channels,
            lighting_speeds,
            temp_min: 20,
            temp_max: 60,
            temp_ext_available: true,
            profile_max_length: 6,
            profile_min_length: 2,
        }
    }
}

/// The decimal value of the digits `ds`.
pub open spec fn digits_value(ds: Seq<char>) -> int
    decreases ds.len(),
{
    if ds.len() == 0 {
        0
    } else {
        digits_value(ds.drop_last()) * 10 + (ds.last() as int - '0' as int)
    }
}

pub open spec fn is_digit(c: char) -> bool {
    '0' <= c <= '9'
}

/// The digits of an unsigned number: all of `s` but an optional leading '+'.
pub open spec fn unsigned_digits(s: Seq<char>) -> Seq<char> {
    if s.len() > 0 && s[0] == '+' {
        s.drop_first()
    } else {
        s
    }
}

/// The number `s` writes, as `u32::from_str` reads it: an optional '+', then one or more
/// decimal digits, with a value that fits in 32 bits.
pub open spec fn parse_u32_spec(s: Seq<char>) -> Option<u32> {
    let ds = unsigned_digits(s);
    if ds.len() > 0 && (forall|i: int| 0 <= i < ds.len() ==> is_digit(#[trigger] ds[i])) && digits_value(ds)
        <= u32::MAX {
        Some(digits_value(ds) as u32)
    } else {
        None
    }
}

proof fn lemma_digits_value_monotone(ds: Seq<char>, i: int)
    requires
        0 <= i <= ds.len(),
        forall|k: int| 0 <= k < ds.len() ==> is_digit(#[trigger] ds[k]),
    ensures
        digits_value(ds.subrange(0, i)) <= digits_value(ds),
        digits_value(ds.subrange(0, i)) >= 0,
    decreases ds.len() - i,
{
    if i < ds.len() {
        lemma_digits_value_monotone(ds, i + 1);
        assert(ds.subrange(0, i + 1).drop_last() =~= ds.subrange(0, i));
        lemma_digits_nonneg(ds.subrange(0, i));
    } else {
        assert(ds.subrange(0, i) =~= ds);
        lemma_digits_nonneg(ds);
    }
}

proof fn lemma_digits_nonneg(ds: Seq<char>)
    requires
        forall|k: int| 0 <= k < ds.len() ==> is_digit(#[trigger] ds[k]),
    ensures
        digits_value(ds) >= 0,
    decreases ds.len(),
{
    if ds.len() > 0 {
        lemma_digits_nonneg(ds.drop_last());
    }
}

/// Reads a decimal unsigned 32-bit number, as [`parse_u32_spec`] states.
pub fn parse_u32(value: &String) -> (r: Option<u32>)
    ensures
        r == parse_u32_spec(value@),
{
    let s = value.as_str();
    let n = s.unicode_len();
    let ghost sv = value@;
    assert(s@ == sv);
    let mut start: usize = 0;
    if n > 0 && s.get_char(0) == '+' {
        start = 1;
    }
    let ghost ds = unsigned_digits(sv);
    assert(ds =~= sv.subrange(start as int, n as int));
    if start >= n {
        return None;
    }
    let mut acc: u64 = 0;
    let mut i: usize = start;
    while i < n
        invariant
            start <= i <= n,
            n == sv.len(),
            s@ == sv,
            sv == value@,
            ds == sv.subrange(start as int, n as int),
            ds == unsigned_digits(sv),
            forall|k: int| 0 <= k < i - start ==> is_digit(#[trigger] ds[k]),
            acc == digits_value(ds.subrange(0, i - start)),
            acc <= u32::MAX,
        decreases n - i,
    {
        let c = s.get_char(i);
        assert(c == ds[i - start]);
        if c < '0' || c > '9' {
            assert(!is_digit(ds[i - start]));
            assert(!(forall|k: int| 0 <= k < ds.len() ==> is_digit(#[trigger] ds[k])));
            assert(parse_u32_spec(sv).is_none());
            return None;
        }
        assert(ds.subrange(0, i - start + 1).drop_last() =~= ds.subrange(0, i - start));
        let d = (c as u32 - '0' as u32) as u64;
        let next = acc * 10 + d;
        if next > u32::MAX as u64 {
            proof {
                let j = i - start + 1;
                assert(ds.subrange(0, j).last() == c);
                assert(digits_value(ds.subrange(0, j)) == next);
                if forall|k: int| 0 <= k < ds.len() ==> is_digit(#[trigger] ds[k]) {
                    lemma_digits_value_monotone(ds, j);
                }
                assert(parse_u32_spec(sv).is_none());
            }
            return None;
        }
        acc = next;
        i += 1;
    }
    assert(ds.subrange(0, n - start) =~= ds);
    Some(acc as u32)
}

} // verus!
