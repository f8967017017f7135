//! The most recent readings of a device, as the alert evaluator and the profile evaluator see them.
use vstd::prelude::*;

use crate::setting::{Milli, UID};

verus! {

/// One temperature reading.
pub struct TempReading {
    pub name: String,
    /// Thousandths of a degree Celsius.
    pub temp: Milli,
}

/// One channel reading.
pub struct ChannelReading {
    pub name: String,
    pub rpm: Option<u32>,
    /// Thousandths of a percent.
    pub duty: Option<Milli>,
    /// MHz.
    pub freq: Option<u32>,
}

/// The most recent status snapshot of one device.
pub struct DeviceStatus {
    pub device_uid: UID,
    pub temps: Vec<TempReading>,
    pub channels: Vec<ChannelReading>,
}

pub struct TempReadingView {
    pub name: Seq<char>,
    pub temp: Milli,
}

pub struct ChannelReadingView {
    pub name: Seq<char>,
    pub rpm: Option<u32>,
    pub duty: Option<Milli>,
    pub freq: Option<u32>,
}

pub struct DeviceStatusView {
    pub device_uid: Seq<char>,
    pub temps: Seq<TempReadingView>,
    pub channels: Seq<ChannelReadingView>,
}

impl View for TempReading {
    type V = TempReadingView;

    open spec fn view(&self) -> TempReadingView {
        TempReadingView { name: self.name@, temp: self.temp }
    }
}

impl View for ChannelReading {
    type V = ChannelReadingView;

    open spec fn view(&self) -> ChannelReadingView {
        ChannelReadingView { name: self.name@, rpm: self.rpm, duty: self.duty, freq: self.freq }
    }
}

impl View for DeviceStatus {
    type V = DeviceStatusView;

    open spec fn view(&self) -> DeviceStatusView {
        DeviceStatusView {
            device_uid: self.device_uid@,
            temps: self.temps@.map_values(|t: TempReading| t@),
            channels: self.channels@.map_values(|c: ChannelReading| c@),
        }
    }
}

pub open spec fn statuses_view(s: Seq<DeviceStatus>) -> Seq<DeviceStatusView> {
    s.map_values(|d: DeviceStatus| d@)
}

/// `i` is the first index in `s` of a status of device `uid`.
pub open spec fn first_status(s: Seq<DeviceStatusView>, uid: Seq<char>, i: int) -> bool {
    &&& 0 <= i < s.len()
    &&& s[i].device_uid == uid
    &&& forall|k: int| 0 <= k < i ==> (#[trigger] s[k]).device_uid != uid
}

/// `i` is the first index in `s` of a temperature named `name`.
pub open spec fn first_temp(s: Seq<TempReadingView>, name: Seq<char>, i: int) -> bool {
    &&& 0 <= i < s.len()
    &&& s[i].name == name
    &&& forall|k: int| 0 <= k < i ==> (#[trigger] s[k]).name != name
}

/// `i` is the first index in `s` of a channel named `name`.
pub open spec fn first_channel(s: Seq<ChannelReadingView>, name: Seq<char>, i: int) -> bool {
    &&& 0 <= i < s.len()
    &&& s[i].name == name
    &&& forall|k: int| 0 <= k < i ==> (#[trigger] s[k]).name != name
}

/// The first status of device `uid`, if any.
pub fn find_status(s: &Vec<DeviceStatus>, uid: &String) -> (r: Option<usize>)
    ensures
        match r {
            Some(i) => first_status(statuses_view(s@), uid@, i as int),
            None => forall|k: int| 0 <= k < s.len() ==> (#[trigger] s@[k]).device_uid@ != uid@,
        },
{
    let mut i: usize = 0;
    while i < s.len()
        invariant
            i <= s.len(),
            forall|k: int| 0 <= k < i ==> (#[trigger] s@[k]).device_uid@ != uid@,
        decreases s.len() - i,
    {
        if s[i].device_uid.eq(uid) {
            assert forall|k: int| 0 <= k < i implies (#[trigger] statuses_view(s@)[k]).device_uid != uid@ by {
                assert(statuses_view(s@)[k] == s@[k]@);
            }
            return Some(i);
        }
        i += 1;
    }
    None
}

/// The first temperature named `name`, if any.
pub fn find_temp(s: &Vec<TempReading>, name: &String) -> (r: Option<usize>)
    ensures
        match r {
            Some(i) => first_temp(s@.map_values(|t: TempReading| t@), name@, i as int),
            None => forall|k: int| 0 <= k < s.len() ==> (#[trigger] s@[k]).name@ != name@,
        },
{
    let mut i: usize = 0;
    while i < s.len()
        invariant
            i <= s.len(),
            forall|k: int| 0 <= k < i ==> (#[trigger] s@[k]).name@ != name@,
        decreases s.len() - i,
    {
        if s[i].name.eq(name) {
            let ghost sv = s@.map_values(|t: TempReading| t@);
            assert forall|k: int| 0 <= k < i implies (#[trigger] sv[k]).name != name@ by {
                assert(sv[k] == s@[k]@);
            }
            return Some(i);
        }
        i += 1;
    }
    None
}

/// The first channel named `name`, if any.
pub fn find_channel_reading(s: &Vec<ChannelReading>, name: &String) -> (r: Option<usize>)
    ensures
        match r {
            Some(i) => first_channel(s@.map_values(|c: ChannelReading| c@), name@, i as int),
            None => forall|k: int| 0 <= k < s.len() ==> (#[trigger] s@[k]).name@ != name@,
        },
{
    let mut i: usize = 0;
    while i < s.len()
        invariant
            i <= s.len(),
            forall|k: int| 0 <= k < i ==> (#[trigger] s@[k]).name@ != name@,
        decreases s.len() - i,
    {
        if s[i].name.eq(name) {
            let ghost sv = s@.map_values(|c: ChannelReading| c@);
            assert forall|k: int| 0 <= k < i implies (#[trigger] sv[k]).name != name@ by {
                assert(sv[k] == s@[k]@);
            }
            return Some(i);
        }
        i += 1;
    }
    None
}


impl Clone for TempReading {
    fn clone(&self) -> (r: Self)
        ensures
            r@ == self@,
    {
        TempReading { name: self.name.clone(), temp: self.temp }
    }
}

/// The first reading of sensor `name` in `s`, if any.
pub open spec fn first_reading(s: Seq<TempReadingView>, name: Seq<char>) -> Option<Milli> {
    if exists|i: int| first_temp(s, name, i) {
        Some(s[choose|i: int| first_temp(s, name, i)].temp)
    } else {
        None
    }
}

/// The readings of sensor `name`, most recent first, from the newest `n` snapshots of `h`
/// (oldest first) that hold it.
pub open spec fn recent(h: Seq<Seq<TempReadingView>>, name: Seq<char>, n: nat) -> Seq<Milli>
    decreases h.len(),
{
    if h.len() == 0 || n == 0 {
        Seq::empty()
    } else {
        match first_reading(h.last(), name) {
            Some(t) => seq![t] + recent(h.drop_last(), name, (n - 1) as nat),
            None => recent(h.drop_last(), name, n),
        }
    }
}

/// The recent snapshots of one device, oldest first, each with the tick's timestamp in
/// milliseconds. Timestamps strictly increase and at most `capacity` snapshots are kept.
pub struct StatusHistory {
    entries: Vec<(i64, Vec<TempReading>)>,
    capacity: usize,
}

impl StatusHistory {
    /// The timestamps of the snapshots, oldest first.
    pub closed spec fn stamps(&self) -> Seq<i64> {
        self.entries@.map_values(|e: (i64, Vec<TempReading>)| e.0)
    }

    /// The temperature readings of the snapshots, oldest first.
    pub closed spec fn temps(&self) -> Seq<Seq<TempReadingView>> {
        self.entries@.map_values(|e: (i64, Vec<TempReading>)| e.1@.map_values(|t: TempReading| t@))
    }

    pub closed spec fn cap(&self) -> nat {
        self.capacity as nat
    }

    pub open spec fn wf(&self) -> bool {
        &&& self.stamps().len() == self.temps().len()
        &&& 0 < self.cap()
        &&& self.stamps().len() <= self.cap()
        &&& forall|i: int, j: int| 0 <= i < j < self.stamps().len() ==> self.stamps()[i] < self.stamps()[j]
    }

    /// An empty history keeping at most `capacity` snapshots.
    pub fn new(capacity: usize) -> (r: StatusHistory)
        requires
            capacity > 0,
        ensures
            r.wf(),
            r.stamps().len() == 0,
            r.cap() == capacity,
    {
        let r = StatusHistory { entries: Vec::new(), capacity };
        assert(r.stamps() =~= Seq::<i64>::empty());
        assert(r.temps() =~= Seq::<Seq<TempReadingView>>::empty());
        r
    }

    /// Appends a snapshot taken at `timestamp`, dropping the oldest when full. A timestamp that
    /// is not later than the newest is refused.
    pub fn push(&mut self, timestamp: i64, temps: Vec<TempReading>) -> (r: bool)
        requires
            old(self).wf(),
        ensures
            final(self).wf(),
            final(self).cap() == old(self).cap(),
            r == (old(self).stamps().len() == 0 || old(self).stamps().last() < timestamp),
            !r ==> final(self).stamps() == old(self).stamps() && final(self).temps() == old(self).temps(),
            r && old(self).stamps().len() < old(self).cap() ==> final(self).stamps() == old(self).stamps().push(timestamp)
                && final(self).temps() == old(self).temps().push(temps@.map_values(|t: TempReading| t@)),
            r && old(self).stamps().len() == old(self).cap() ==> final(self).stamps() == old(self).stamps().drop_first().push(timestamp)
                && final(self).temps() == old(self).temps().drop_first().push(temps@.map_values(|t: TempReading| t@)),
    {
        let n = self.entries.len();
        if n > 0 && self.entries[n - 1].0 >= timestamp {
            return false;
        }
        let ghost tv = temps@.map_values(|t: TempReading| t@);
        let ghost os = self.stamps();
        let ghost ot = self.temps();
        if n >= self.capacity {
            self.entries.remove(0);
            assert(self.stamps() =~= os.drop_first());
            assert(self.temps() =~= ot.drop_first());
        }
        let ghost ms = self.stamps();
        let ghost mt = self.temps();
        assert(n > 0 ==> os[n - 1] < timestamp);
        assert forall|i: int| 0 <= i < ms.len() implies ms[i] < timestamp by {
            if n >= self.capacity {
                assert(ms[i] == os[i + 1]);
                if i + 1 < n - 1 {
                    assert(os[i + 1] < os[n - 1]);
                }
            } else {
                assert(ms[i] == os[i]);
                if i < n - 1 {
                    assert(os[i] < os[n - 1]);
                }
            }
        }
        self.entries.push((timestamp, temps));
        assert(self.stamps() =~= ms.push(timestamp));
        assert(self.temps() =~= mt.push(tv));
        true
    }

    /// Forgets every snapshot but the newest, which is stamped `timestamp`: after a jump of the
    /// clock, timestamps keep increasing from there.
    pub fn reinitialize(&mut self, timestamp: i64)
        requires
            old(self).wf(),
        ensures
            final(self).wf(),
            final(self).cap() == old(self).cap(),
            old(self).stamps().len() == 0 ==> final(self).stamps().len() == 0,
            old(self).stamps().len() > 0 ==> final(self).stamps() == seq![timestamp]
                && final(self).temps() == seq![old(self).temps().last()],
    {
        match self.entries.pop() {
            Some((_, temps)) => {
                let ghost tv = temps@.map_values(|t: TempReading| t@);
                self.entries.clear();
                self.entries.push((timestamp, temps));
                assert(self.stamps() =~= seq![timestamp]);
                assert(self.temps() =~= seq![tv]);
            },
            None => {},
        }
    }

    /// The readings of sensor `name`, most recent first, from the newest `n` snapshots that
    /// hold it, as [`recent`] states.
    pub fn recent_temps(&self, name: &String, n: usize) -> (r: Vec<Milli>)
        ensures
            r@ == recent(self.temps(), name@, n as nat),
    {
        let ghost h = self.temps();
        let mut r: Vec<Milli> = Vec::new();
        let mut i: usize = self.entries.len();
        assert(h.subrange(0, i as int) =~= h);
        while i > 0 && r.len() < n
            invariant
                i <= self.entries.len(),
                r.len() <= n,
                h == self.temps(),
                r@ + recent(h.subrange(0, i as int), name@, (n - r.len()) as nat) == recent(h, name@, n as nat),
            decreases i,
        {
            let ghost sub = h.subrange(0, i as int);
            assert(sub.drop_last() =~= h.subrange(0, i - 1));
            i -= 1;
            let readings = &self.entries[i].1;
            let ghost rv = readings@.map_values(|t: TempReading| t@);
            assert(sub.last() == rv);
            let ghost old_r = r@;
            match find_temp(readings, name) {
                Some(k) => {
                    assert(first_temp(rv, name@, k as int));
                    let ghost c = choose|c: int| first_temp(rv, name@, c);
                    assert(c == k as int) by {
                        if c < k as int { assert(rv[c].name != name@); }
                        if c > k as int { assert(rv[k as int].name != name@); }
                    }
                    r.push(readings[k].temp);
                    assert(old_r + (seq![readings@[k as int].temp] + recent(h.subrange(0, i as int), name@, (n - old_r.len() - 1) as nat)) =~= r@ + recent(h.subrange(0, i as int), name@, (n - r.len()) as nat));
                },
                None => {
                    assert(!(exists|c: int| first_temp(rv, name@, c))) by {
                        if exists|c: int| first_temp(rv, name@, c) {
                            let c = choose|c: int| first_temp(rv, name@, c);
                            assert(readings@[c].name@ == rv[c].name);
                        }
                    }
                },
            }
        }
        proof {
            if i == 0 {
                assert(h.subrange(0, 0).len() == 0);
            }
        }
        assert(recent(h.subrange(0, i as int), name@, (n - r.len()) as nat) =~= Seq::<Milli>::empty());
        assert(r@ + Seq::<Milli>::empty() =~= r@);
        r
    }
}

} // verus!
