//! Alerts: range rules on live readings that fire edge-triggered state changes into a bounded log.
use vstd::prelude::*;

use crate::error::CCError;
use crate::outside::now_millis;
use crate::setting::{Milli, UID};
use crate::status::{
    find_channel_reading, find_status, find_temp, first_channel, first_status, first_temp,
    statuses_view, DeviceStatus, DeviceStatusView,
};

verus! {

/// How many log entries the controller keeps.
pub const LOG_BUFFER_SIZE: usize = 20;

/// Which reading of a channel an Alert watches.
#[derive(Debug, Clone, Copy, PartialEq, Eq, Structural)]
pub enum ChannelMetric {
    Temp,
    Duty,
    Load,
    RPM,
    Freq,
}

/// The state of an Alert.
#[derive(Debug, Clone, Copy, PartialEq, Eq, Structural)]
pub enum AlertState {
    Active,
    Inactive,
}

/// The reading an Alert watches.
pub struct ChannelSource {
    pub device_uid: UID,
    pub channel_name: String,
    pub channel_metric: ChannelMetric,
}

pub struct ChannelSourceView {
    pub device_uid: Seq<char>,
    pub channel_name: Seq<char>,
    pub channel_metric: ChannelMetric,
}

impl View for ChannelSource {
    type V = ChannelSourceView;

    open spec fn view(&self) -> ChannelSourceView {
        ChannelSourceView {
            device_uid: self.device_uid@,
            channel_name: self.channel_name@,
            channel_metric: self.channel_metric,
        }
    }
}

impl Clone for ChannelSource {
    fn clone(&self) -> (r: Self)
        ensures
            r@ == self@,
    {
        ChannelSource {
            device_uid: self.device_uid.clone(),
            channel_name: self.channel_name.clone(),
            channel_metric: self.channel_metric,
        }
    }
}

/// A range rule on one reading. Bounds are in thousandths of the metric's unit.
pub struct Alert {
    pub uid: UID,
    pub name: String,
    pub channel_source: ChannelSource,
    pub min: Milli,
    pub max: Milli,
    pub state: AlertState,
}

pub struct AlertView {
    pub uid: Seq<char>,
    pub name: Seq<char>,
    pub channel_source: ChannelSourceView,
    pub min: Milli,
    pub max: Milli,
    pub state: AlertState,
}

impl View for Alert {
    type V = AlertView;

    open spec fn view(&self) -> AlertView {
        AlertView {
            uid: self.uid@,
            name: self.name@,
            channel_source: self.channel_source@,
            min: self.min,
            max: self.max,
            state: self.state,
        }
    }
}

impl Clone for Alert {
    fn clone(&self) -> (r: Self)
        ensures
            r@ == self@,
    {
        Alert {
            uid: self.uid.clone(),
            name: self.name.clone(),
            channel_source: self.channel_source.clone(),
            min: self.min,
            max: self.max,
            state: self.state,
        }
    }
}

/// What an Alert sees of its reading.
#[derive(Debug, Clone, Copy, PartialEq, Eq, Structural)]
pub enum Observation {
    DeviceMissing,
    ChannelMissing,
    MetricMissing(ChannelMetric),
    /// The reading, in thousandths of its unit.
    Value(Milli),
}

/// Why an Alert changed state; the message of a log entry.
#[derive(Debug, Clone, Copy, PartialEq, Eq, Structural)]
pub enum AlertEvent {
    DeviceNotFound,
    ChannelNotFound,
    MetricNotFound(ChannelMetric),
    AboveMax { value: Milli, max: Milli },
    BelowMin { value: Milli, min: Milli },
    BackInRange { value: Milli, min: Milli, max: Milli },
}

/// One entry of the Alert log.
pub struct AlertLog {
    pub uid: UID,
    pub name: String,
    pub state: AlertState,
    pub event: AlertEvent,
    /// Milliseconds since the UNIX epoch.
    pub timestamp: i64,
}

pub struct AlertLogView {
    pub uid: Seq<char>,
    pub name: Seq<char>,
    pub state: AlertState,
    pub event: AlertEvent,
    pub timestamp: i64,
}

impl View for AlertLog {
    type V = AlertLogView;

    open spec fn view(&self) -> AlertLogView {
        AlertLogView {
            uid: self.uid@,
            name: self.name@,
            state: self.state,
            event: self.event,
            timestamp: self.timestamp,
        }
    }
}

impl Clone for AlertLog {
    fn clone(&self) -> (r: Self)
        ensures
            r@ == self@,
    {
        AlertLog {
            uid: self.uid.clone(),
            name: self.name.clone(),
            state: self.state,
            event: self.event,
            timestamp: self.timestamp,
        }
    }
}

/// A count of rpm or MHz in thousandths.
pub open spec fn scaled(v: u32) -> Milli {
    (v as int * 1000) as Milli
}

/// What the Alert watching `src` sees in the most recent statuses `s`: the first status of its
/// device, in it the first temperature or channel of its name, and in that the metric.
/// Duty and Load both read the channel's duty.
pub open spec fn observe(src: ChannelSourceView, s: Seq<DeviceStatusView>) -> Observation {
    if !(exists|i: int| first_status(s, src.device_uid, i)) {
        Observation::DeviceMissing
    } else {
        let st = s[choose|i: int| first_status(s, src.device_uid, i)];
        if src.channel_metric == ChannelMetric::Temp {
            if exists|t: int| first_temp(st.temps, src.channel_name, t) {
                Observation::Value(st.temps[choose|t: int| first_temp(st.temps, src.channel_name, t)].temp)
            } else {
                Observation::ChannelMissing
            }
        } else if exists|c: int| first_channel(st.channels, src.channel_name, c) {
            let ch = st.channels[choose|c: int| first_channel(st.channels, src.channel_name, c)];
            match src.channel_metric {
                ChannelMetric::RPM => match ch.rpm {
                    Some(v) => Observation::Value(scaled(v)),
                    None => Observation::MetricMissing(ChannelMetric::RPM),
                },
                ChannelMetric::Freq => match ch.freq {
                    Some(v) => Observation::Value(scaled(v)),
                    None => Observation::MetricMissing(ChannelMetric::Freq),
                },
                _ => match ch.duty {
                    Some(v) => Observation::Value(v),
                    None => Observation::MetricMissing(src.channel_metric),
                },
            }
        } else {
            Observation::ChannelMissing
        }
    }
}

/// The next state of an Alert in `state` with bounds `min` and `max` that sees `obs`, and the
/// event to log, if any. A missing reading or one out of range makes it Active; one back in
/// range makes an Active Alert Inactive. An event comes only with a change of state.
pub open spec fn step(state: AlertState, obs: Observation, min: Milli, max: Milli) -> (AlertState, Option<AlertEvent>) {
    let fire = |e: AlertEvent| if state == AlertState::Active {
        (state, None)
    } else {
        (AlertState::Active, Some(e))
    };
    match obs {
        Observation::DeviceMissing => fire(AlertEvent::DeviceNotFound),
        Observation::ChannelMissing => fire(AlertEvent::ChannelNotFound),
        Observation::MetricMissing(m) => fire(AlertEvent::MetricNotFound(m)),
        Observation::Value(v) => if v > max {
            fire(AlertEvent::AboveMax { value: v, max })
        } else if v < min {
            fire(AlertEvent::BelowMin { value: v, min })
        } else if state == AlertState::Active {
            (AlertState::Inactive, Some(AlertEvent::BackInRange { value: v, min, max }))
        } else {
            (state, None)
        },
    }
}

/// An Alert fires at most one log entry per change of state: an event comes exactly when the
/// state changes, and seeing the same reading again changes nothing and fires nothing.
pub proof fn lemma_alert_edge_triggered(state: AlertState, obs: Observation, min: Milli, max: Milli)
    ensures
        step(state, obs, min, max).1.is_some() <==> step(state, obs, min, max).0 != state,
        step(step(state, obs, min, max).0, obs, min, max) == (step(state, obs, min, max).0, None::<AlertEvent>),
{
}

/// Reads what the Alert watching `src` sees, as [`observe`] states.
pub fn observe_exec(src: &ChannelSource, statuses: &Vec<DeviceStatus>) -> (r: Observation)
    ensures
        r == observe(src@, statuses_view(statuses@)),
{
    let ghost s = statuses_view(statuses@);
    let si = match find_status(statuses, &src.device_uid) {
        Some(i) => i,
        None => {
            assert(!(exists|i: int| first_status(s, src.device_uid@, i))) by {
                if exists|i: int| first_status(s, src.device_uid@, i) {
                    let i = choose|i: int| first_status(s, src.device_uid@, i);
                    assert(statuses@[i].device_uid@ == s[i].device_uid);
                }
            }
            return Observation::DeviceMissing;
        },
    };
    assert(first_status(s, src.device_uid@, si as int));
    let ghost c0 = choose|i: int| first_status(s, src.device_uid@, i);
    assert(c0 == si as int) by {
        if c0 < si as int {
            assert(s[c0].device_uid != src.device_uid@);
        } else if c0 > si as int {
            assert(s[si as int].device_uid != src.device_uid@);
        }
    }
    let st = &statuses[si];
    assert(s[si as int] == st@);
    let ghost tv = st@.temps;
    let ghost cv = st@.channels;
    if src.channel_metric == ChannelMetric::Temp {
        match find_temp(&st.temps, &src.channel_name) {
            Some(t) => {
                let ghost t0 = choose|t: int| first_temp(tv, src.channel_name@, t);
                assert(first_temp(tv, src.channel_name@, t as int));
                assert(t0 == t as int) by {
                    if t0 < t as int {
                        assert(tv[t0].name != src.channel_name@);
                    } else if t0 > t as int {
                        assert(tv[t as int].name != src.channel_name@);
                    }
                }
                assert(tv[t as int].temp == st.temps[t as int].temp);
                Observation::Value(st.temps[t].temp)
            },
            None => {
                assert(!(exists|t: int| first_temp(tv, src.channel_name@, t))) by {
                    if exists|t: int| first_temp(tv, src.channel_name@, t) {
                        let t = choose|t: int| first_temp(tv, src.channel_name@, t);
                        assert(st.temps@[t].name@ == tv[t].name);
                    }
                }
                Observation::ChannelMissing
            },
        }
    } else {
        match find_channel_reading(&st.channels, &src.channel_name) {
            Some(c) => {
                let ghost c1 = choose|c: int| first_channel(cv, src.channel_name@, c);
                assert(first_channel(cv, src.channel_name@, c as int));
                assert(c1 == c as int) by {
                    if c1 < c as int {
                        assert(cv[c1].name != src.channel_name@);
                    } else if c1 > c as int {
                        assert(cv[c as int].name != src.channel_name@);
                    }
                }
                let ch = &st.channels[c];
                assert(cv[c as int] == ch@);
                match src.channel_metric {
                    ChannelMetric::RPM => match ch.rpm {
                        Some(v) => Observation::Value(v as i64 * 1000),
                        None => Observation::MetricMissing(ChannelMetric::RPM),
                    },
                    ChannelMetric::Freq => match ch.freq {
                        Some(v) => Observation::Value(v as i64 * 1000),
                        None => Observation::MetricMissing(ChannelMetric::Freq),
                    },
                    _ => match ch.duty {
                        Some(v) => Observation::Value(v),
                        None => Observation::MetricMissing(src.channel_metric),
                    },
                }
            },
            None => {
                assert(!(exists|c: int| first_channel(cv, src.channel_name@, c))) by {
                    if exists|c: int| first_channel(cv, src.channel_name@, c) {
                        let c = choose|c: int| first_channel(cv, src.channel_name@, c);
                        assert(st.channels@[c].name@ == cv[c].name);
                    }
                }
                Observation::ChannelMissing
            },
        }
    }
}

/// Computes [`step`].
pub fn step_exec(state: AlertState, obs: Observation, min: Milli, max: Milli) -> (r: (AlertState, Option<AlertEvent>))
    ensures
        r == step(state, obs, min, max),
{
    let event = match obs {
        Observation::DeviceMissing => AlertEvent::DeviceNotFound,
        Observation::ChannelMissing => AlertEvent::ChannelNotFound,
        Observation::MetricMissing(m) => AlertEvent::MetricNotFound(m),
        Observation::Value(v) => {
            if v > max {
                AlertEvent::AboveMax { value: v, max }
            } else if v < min {
                AlertEvent::BelowMin { value: v, min }
            } else if state == AlertState::Active {
                return (AlertState::Inactive, Some(AlertEvent::BackInRange { value: v, min, max }));
            } else {
                return (state, None);
            }
        },
    };
    if state == AlertState::Active {
        (state, None)
    } else {
        (AlertState::Active, Some(event))
    }
}


pub open spec fn alerts_view(s: Seq<Alert>) -> Seq<AlertView> {
    s.map_values(|a: Alert| a@)
}

pub open spec fn logs_view(s: Seq<AlertLog>) -> Seq<AlertLogView> {
    s.map_values(|l: AlertLog| l@)
}

/// The log once entry `e` is added: the oldest entry goes when the log is full.
pub open spec fn log_push(logs: Seq<AlertLogView>, e: AlertLogView) -> Seq<AlertLogView> {
    if logs.len() >= LOG_BUFFER_SIZE {
        logs.drop_first().push(e)
    } else {
        logs.push(e)
    }
}

/// The log once the entries `es` are added in order.
pub open spec fn log_push_all(logs: Seq<AlertLogView>, es: Seq<AlertLogView>) -> Seq<AlertLogView>
    decreases es.len(),
{
    if es.len() == 0 {
        logs
    } else {
        log_push(log_push_all(logs, es.drop_last()), es.last())
    }
}

/// Alert `a` once it has seen the statuses `s`.
pub open spec fn evaluated(a: AlertView, s: Seq<DeviceStatusView>) -> AlertView {
    AlertView { state: step(a.state, observe(a.channel_source, s), a.min, a.max).0, ..a }
}

/// The log entry that Alert `a` fires at time `now` on seeing the statuses `s`, if any.
pub open spec fn fired(a: AlertView, s: Seq<DeviceStatusView>, now: i64) -> Option<AlertLogView> {
    let (state, event) = step(a.state, observe(a.channel_source, s), a.min, a.max);
    match event {
        Some(e) => Some(AlertLogView { uid: a.uid, name: a.name, state, event: e, timestamp: now }),
        None => None,
    }
}

/// The log entries that the Alerts `s` fire at time `now` on seeing the statuses `sv`, in order.
pub open spec fn fired_at(s: Seq<AlertView>, sv: Seq<DeviceStatusView>, now: i64) -> Seq<AlertLogView> {
    s.filter_map(|a: AlertView| fired(a, sv, now))
}

/// Some Alert in `s` has uid `uid`.
pub open spec fn has_alert(s: Seq<AlertView>, uid: Seq<char>) -> bool {
    exists|i: int| 0 <= i < s.len() && (#[trigger] s[i]).uid == uid
}

/// Holds the Alerts in order of creation, and the log of their changes of state.
pub struct AlertController {
    alerts: Vec<Alert>,
    logs: Vec<AlertLog>,
}

impl AlertController {
    pub closed spec fn alerts(&self) -> Seq<AlertView> {
        alerts_view(self.alerts@)
    }

    pub closed spec fn logs(&self) -> Seq<AlertLogView> {
        logs_view(self.logs@)
    }

    /// Alert uids are unique and the log holds at most [`LOG_BUFFER_SIZE`] entries.
    pub open spec fn wf(&self) -> bool {
        &&& forall|i: int, j: int|
            0 <= i < j < self.alerts().len() ==> (#[trigger] self.alerts()[i]).uid != (#[trigger] self.alerts()[j]).uid
        &&& self.logs().len() <= LOG_BUFFER_SIZE
    }

    /// A controller with no Alert and an empty log.
    pub fn new() -> (r: AlertController)
        ensures
            r.wf(),
            r.alerts().len() == 0,
            r.logs().len() == 0,
    {
        let r = AlertController { alerts: Vec::new(), logs: Vec::new() };
        assert(r.alerts() =~= Seq::<AlertView>::empty());
        assert(r.logs() =~= Seq::<AlertLogView>::empty());
        r
    }

    fn find_alert(&self, uid: &String) -> (r: Option<usize>)
        ensures
            match r {
                Some(i) => i < self.alerts().len() && self.alerts()[i as int].uid == uid@,
                None => !has_alert(self.alerts(), uid@),
            },
    {
        let mut i: usize = 0;
        while i < self.alerts.len()
            invariant
                i <= self.alerts.len(),
                forall|k: int| 0 <= k < i ==> self.alerts()[k].uid != uid@,
            decreases self.alerts.len() - i,
        {
            if self.alerts[i].uid.eq(uid) {
                return Some(i);
            }
            i += 1;
        }
        None
    }

    /// All Alerts and all log entries, oldest first.
    pub fn get_all(&self) -> (r: (Vec<Alert>, Vec<AlertLog>))
        ensures
            alerts_view(r.0@) == self.alerts(),
            logs_view(r.1@) == self.logs(),
    {
        let mut alerts: Vec<Alert> = Vec::new();
        let mut i: usize = 0;
        while i < self.alerts.len()
            invariant
                i <= self.alerts.len(),
                alerts.len() == i,
                forall|k: int| 0 <= k < i ==> (#[trigger] alerts@[k])@ == self.alerts@[k]@,
            decreases self.alerts.len() - i,
        {
            alerts.push(self.alerts[i].clone());
            i += 1;
        }
        let mut logs: Vec<AlertLog> = Vec::new();
        let mut j: usize = 0;
        while j < self.logs.len()
            invariant
                j <= self.logs.len(),
                logs.len() == j,
                forall|k: int| 0 <= k < j ==> (#[trigger] logs@[k])@ == self.logs@[k]@,
            decreases self.logs.len() - j,
        {
            logs.push(self.logs[j].clone());
            j += 1;
        }
        assert(alerts_view(alerts@) =~= self.alerts());
        assert(logs_view(logs@) =~= self.logs());
        (alerts, logs)
    }

    /// Adds a new Alert.
    pub fn create(&mut self, alert: Alert) -> (r: Result<(), CCError>)
        requires
            old(self).wf(),
        ensures
            final(self).wf(),
            final(self).logs() == old(self).logs(),
            has_alert(old(self).alerts(), alert@.uid) <==> r is Err,
            r is Err ==> r->Err_0 is UserError && final(self).alerts() == old(self).alerts(),
            r is Ok ==> final(self).alerts() == old(self).alerts().push(alert@),
    {
        if self.find_alert(&alert.uid).is_some() {
            return Err(CCError::user_error("An Alert with this uid already exists"));
        }
        let ghost a = alert@;
        self.alerts.push(alert);
        assert(self.alerts() =~= old(self).alerts().push(a));
        Ok(())
    }

    /// Replaces the Alert with the uid of `alert`, keeping its current state.
    pub fn update(&mut self, alert: Alert) -> (r: Result<(), CCError>)
        requires
            old(self).wf(),
        ensures
            final(self).wf(),
            final(self).logs() == old(self).logs(),
            !has_alert(old(self).alerts(), alert@.uid) <==> r is Err,
            r is Err ==> r->Err_0 is NotFound && final(self).alerts() == old(self).alerts(),
            r is Ok ==> exists|i: int|
                0 <= i < old(self).alerts().len() && (#[trigger] old(self).alerts()[i]).uid == alert@.uid
                    && final(self).alerts() == old(self).alerts().update(
                    i,
                    AlertView { state: old(self).alerts()[i].state, ..alert@ },
                ),
    {
        let i = match self.find_alert(&alert.uid) {
            Some(i) => i,
            None => {
                return Err(CCError::not_found("Alert not found"));
            },
        };
        let mut alert = alert;
        alert.state = self.alerts[i].state;
        let ghost a = alert@;
        self.alerts.set(i, alert);
        assert(self.alerts() =~= old(self).alerts().update(i as int, a));
        Ok(())
    }

    /// Removes the Alert with uid `uid`.
    pub fn delete(&mut self, uid: &String) -> (r: Result<(), CCError>)
        requires
            old(self).wf(),
        ensures
            final(self).wf(),
            final(self).logs() == old(self).logs(),
            !has_alert(old(self).alerts(), uid@) <==> r is Err,
            r is Err ==> r->Err_0 is NotFound && final(self).alerts() == old(self).alerts(),
            r is Ok ==> exists|i: int|
                0 <= i < old(self).alerts().len() && (#[trigger] old(self).alerts()[i]).uid == uid@
                    && final(self).alerts() == old(self).alerts().remove(i),
    {
        let i = match self.find_alert(uid) {
            Some(i) => i,
            None => {
                return Err(CCError::not_found("Alert not found"));
            },
        };
        self.alerts.remove(i);
        assert(self.alerts() =~= old(self).alerts().remove(i as int));
        Ok(())
    }

    /// Adds a log entry, dropping the oldest when the log is full.
    fn push_log(&mut self, log: AlertLog)
        requires
            old(self).wf(),
        ensures
            final(self).wf(),
            final(self).alerts() == old(self).alerts(),
            final(self).logs() == log_push(old(self).logs(), log@),
    {
        let ghost l = log@;
        if self.logs.len() >= LOG_BUFFER_SIZE {
            self.logs.remove(0);
        }
        self.logs.push(log);
        assert(self.logs() =~= log_push(old(self).logs(), l));
    }

    /// Logs a change of state of Alert `uid`, timestamped now, and returns the new entry.
    pub fn log_alert_state_change(&mut self, uid: String, name: String, state: AlertState, event: AlertEvent) -> (r: AlertLog)
        requires
            old(self).wf(),
        ensures
            final(self).wf(),
            final(self).alerts() == old(self).alerts(),
            r@.uid == uid@ && r@.name == name@ && r@.state == state && r@.event == event,
            final(self).logs() == log_push(old(self).logs(), r@),
    {
        let log = AlertLog { uid, name, state, event, timestamp: now_millis() };
        let copy = log.clone();
        self.push_log(log);
        copy
    }

    /// Evaluates every Alert against the most recent statuses `statuses` at time `now`: updates
    /// their states, logs their changes of state, and returns the new log entries in order.
    pub fn process_alerts_at(&mut self, statuses: &Vec<DeviceStatus>, now: i64) -> (r: Vec<AlertLog>)
        requires
            old(self).wf(),
        ensures
            final(self).wf(),
            final(self).alerts() == old(self).alerts().map_values(
                |a: AlertView| evaluated(a, statuses_view(statuses@)),
            ),
            logs_view(r@) == old(self).alerts().filter_map(
                |a: AlertView| fired(a, statuses_view(statuses@), now),
            ),
            final(self).logs() == log_push_all(old(self).logs(), logs_view(r@)),
    {
        let ghost sv = statuses_view(statuses@);
        let ghost before = old(self).alerts();
        let ghost f = |a: AlertView| fired(a, sv, now);
        let mut fired_logs: Vec<AlertLog> = Vec::new();
        let mut i: usize = 0;
        while i < self.alerts.len()
            invariant
                i <= self.alerts.len(),
                self.wf(),
                sv == statuses_view(statuses@),
                f == (|a: AlertView| fired(a, sv, now)),
                before.len() == self.alerts().len(),
                forall|k: int| 0 <= k < i ==> (#[trigger] self.alerts()[k]) == evaluated(before[k], sv),
                forall|k: int| i <= k < before.len() ==> (#[trigger] self.alerts()[k]) == before[k],
                logs_view(fired_logs@) == before.subrange(0, i as int).filter_map(f),
                self.logs() == log_push_all(old(self).logs(), logs_view(fired_logs@)),
            decreases self.alerts.len() - i,
        {
            assert(before.subrange(0, i + 1).drop_last() =~= before.subrange(0, i as int));
            assert(before.subrange(0, i + 1).last() == before[i as int]);
            assert(self.alerts()[i as int] == before[i as int]);
            let obs = observe_exec(&self.alerts[i].channel_source, statuses);
            let (state, event) = step_exec(self.alerts[i].state, obs, self.alerts[i].min, self.alerts[i].max);
            let ghost old_alerts = self.alerts();
            let mut alert = self.alerts[i].clone();
            alert.state = state;
            let ghost na = alert@;
            let uid = alert.uid.clone();
            let name = alert.name.clone();
            self.alerts.set(i, alert);
            assert(self.alerts() =~= old_alerts.update(i as int, na));
            assert(na.uid == old_alerts[i as int].uid);
            assert(forall|k: int| 0 <= k < self.alerts().len() ==> (#[trigger] self.alerts()[k]).uid == old_alerts[k].uid);
            assert(before.subrange(0, i + 1).filter_map(f) == before.subrange(0, i as int).filter_map(f) + match f(before[i as int]) {
                Some(x) => seq![x],
                None => Seq::empty(),
            });
            let ghost old_fired = logs_view(fired_logs@);
            let ghost old_logs = self.logs();
            match event {
                Some(e) => {
                    let log = AlertLog { uid, name, state, event: e, timestamp: now };
                    let copy = log.clone();
                    assert(f(before[i as int]) == Some(copy@));
                    fired_logs.push(log);
                    assert(logs_view(fired_logs@) =~= old_fired.push(copy@));
                    self.push_log(copy);
                    assert(logs_view(fired_logs@).drop_last() =~= old_fired);
                },
                None => {
                    assert(f(before[i as int]).is_none());
                    assert(logs_view(fired_logs@) =~= old_fired);
                },
            }
            assert(logs_view(fired_logs@) =~= before.subrange(0, i + 1).filter_map(f));
            i += 1;
        }
        assert(before.subrange(0, before.len() as int) =~= before);
        assert(self.alerts() =~= before.map_values(|a: AlertView| evaluated(a, sv)));
        fired_logs
    }

    /// Evaluates every Alert against the most recent statuses `statuses` now, as
    /// [`AlertController::process_alerts_at`] does at the time read from the clock.
    pub fn process_alerts(&mut self, statuses: &Vec<DeviceStatus>) -> (r: Vec<AlertLog>)
        requires
            old(self).wf(),
        ensures
            final(self).wf(),
            final(self).alerts() == old(self).alerts().map_values(
                |a: AlertView| evaluated(a, statuses_view(statuses@)),
            ),
            final(self).logs() == log_push_all(old(self).logs(), logs_view(r@)),
            exists|now: i64| logs_view(r@) == #[trigger] fired_at(old(self).alerts(), statuses_view(statuses@), now),
    {
        let now = now_millis();
        let r = self.process_alerts_at(statuses, now);
        assert(logs_view(r@) == fired_at(old(self).alerts(), statuses_view(statuses@), now));
        r
    }
}


/// Processing the Alerts again on the same readings logs nothing and changes nothing: a constant
/// input gives at most one log entry per Alert, at its change of state.
pub proof fn lemma_alerts_repeat(s: Seq<AlertView>, sv: Seq<DeviceStatusView>, now: i64)
    ensures
        fired_at(s.map_values(|a: AlertView| evaluated(a, sv)), sv, now).len() == 0,
        s.map_values(|a: AlertView| evaluated(a, sv)).map_values(|a: AlertView| evaluated(a, sv))
            == s.map_values(|a: AlertView| evaluated(a, sv)),
    decreases s.len(),
{
    let t = s.map_values(|a: AlertView| evaluated(a, sv));
    assert forall|i: int| 0 <= i < t.len() implies fired(#[trigger] t[i], sv, now).is_none() && evaluated(t[i], sv) == t[i] by {
        let a = s[i];
        lemma_alert_edge_triggered(a.state, observe(a.channel_source, sv), a.min, a.max);
    }
    assert(t.map_values(|a: AlertView| evaluated(a, sv)) =~= t);
    if s.len() > 0 {
        lemma_alerts_repeat(s.drop_last(), sv, now);
        assert(t.drop_last() =~= s.drop_last().map_values(|a: AlertView| evaluated(a, sv)));
        assert(fired(t.last(), sv, now).is_none());
        assert(fired_at(t, sv, now) == fired_at(t.drop_last(), sv, now));
    }
}

} // verus!
