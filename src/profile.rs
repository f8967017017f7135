//! The Profile evaluator: turns an effective temperature into a duty.
use vstd::prelude::*;

use crate::error::CCError;
use crate::setting::{Milli, Profile, ProfileType, ProfileView};

verus! {

/// `n / d` rounded to the nearest integer, halves away from zero.
pub open spec fn round_div(n: int, d: int) -> int {
    if n >= 0 {
        (2 * n + d) / (2 * d)
    } else {
        -((2 * (-n) + d) / (2 * d))
    }
}

/// The duty on the segment from `p0` to `p1` at temperature `t`.
pub open spec fn lerp(p0: (Milli, u8), p1: (Milli, u8), t: int) -> int {
    p0.1 + round_div((p1.1 - p0.1) * (t - p0.0), p1.0 - p0.0)
}

/// The duty at temperature `t` from point `i` of the curve on: on the segment that holds `t`,
/// or the last point's duty past the last point.
pub open spec fn duty_from(pts: Seq<(Milli, u8)>, i: int, t: int) -> int
    decreases pts.len() - i,
{
    if i + 1 >= pts.len() || i < 0 {
        pts[i].1 as int
    } else if t < pts[i + 1].0 {
        lerp(pts[i], pts[i + 1], t)
    } else {
        duty_from(pts, i + 1, t)
    }
}

/// The duty of curve `pts` at temperature `t`: piecewise linear between adjacent points, the
/// first point's duty below the first point, the last point's above the last.
pub open spec fn curve_duty(pts: Seq<(Milli, u8)>, t: int) -> int {
    if t <= pts[0].0 {
        pts[0].1 as int
    } else {
        duty_from(pts, 0, t)
    }
}

pub open spec fn clamp(v: int, lo: int, hi: int) -> int {
    if v < lo {
        lo
    } else if v > hi {
        hi
    } else {
        v
    }
}

/// The duty of curve `pts` at `t`, clamped to a channel's `[min_duty, max_duty]`.
pub fn graph_duty(pts: &Vec<(Milli, u8)>, t: Milli, min_duty: u8, max_duty: u8) -> (r: u8)
    requires
        pts.len() > 0,
        crate::setting::strictly_sorted(pts@),
        min_duty <= max_duty,
    ensures
        r == clamp(curve_duty(pts@, t as int), min_duty as int, max_duty as int),
{
    let raw = curve_duty_exec(pts, t);
    if raw < min_duty as i128 {
        min_duty
    } else if raw > max_duty as i128 {
        max_duty
    } else {
        raw as u8
    }
}

/// Computes [`curve_duty`].
pub fn curve_duty_exec(pts: &Vec<(Milli, u8)>, t: Milli) -> (r: i128)
    requires
        pts.len() > 0,
        crate::setting::strictly_sorted(pts@),
    ensures
        r == curve_duty(pts@, t as int),
{
    if t <= pts[0].0 {
        return pts[0].1 as i128;
    }
    let mut i: usize = 0;
    while i + 1 < pts.len() && t >= pts[i + 1].0
        invariant
            i < pts.len(),
            duty_from(pts@, 0, t as int) == duty_from(pts@, i as int, t as int),
            t >= pts@[i as int].0,
        decreases pts.len() - i,
    {
        i += 1;
    }
    if i + 1 >= pts.len() {
        return pts[i].1 as i128;
    }
    let (t0, d0) = pts[i];
    let (t1, d1) = pts[i + 1];
    assert(t0 < t1);
    let dt: i128 = t1 as i128 - t0 as i128;
    let dd: i128 = d1 as i128 - d0 as i128;
    let x: i128 = t as i128 - t0 as i128;
    assert(0 <= x <= dt);
    assert(-255 * dt <= dd * x <= 255 * dt) by (nonlinear_arith)
        requires
            -255 <= dd <= 255,
            0 <= x <= dt,
    ;
    assert(dt <= 0x1_0000_0000_0000_0000);
    let n: i128 = dd * x;
    let q: i128 = if n >= 0 { (2 * n + dt) / (2 * dt) } else { -((2 * (-n) + dt) / (2 * dt)) };
    d0 as i128 + q
}

/// The higher of two optional duties; a missing one does not count.
pub open spec fn max_duty(a: Option<int>, b: Option<int>) -> Option<int> {
    match (a, b) {
        (Some(x), Some(y)) => Some(if x >= y { x } else { y }),
        (Some(x), None) => Some(x),
        (None, _) => b,
    }
}

/// The highest of the duties `s`; missing ones do not count.
pub open spec fn max_fold(s: Seq<Option<int>>) -> Option<int>
    decreases s.len(),
{
    if s.len() == 0 {
        None
    } else {
        max_duty(max_fold(s.drop_last()), s.last())
    }
}

pub open spec fn duties_view(s: Seq<Option<u8>>) -> Seq<Option<int>> {
    s.map_values(|d: Option<u8>| opt_duty(d))
}

/// `i` is the first index of a Profile with uid `uid` in `ps`.
pub open spec fn first_profile(ps: Seq<ProfileView>, uid: Seq<char>, i: int) -> bool {
    &&& 0 <= i < ps.len()
    &&& ps[i].uid == uid
    &&& forall|k: int| 0 <= k < i ==> (#[trigger] ps[k]).uid != uid
}

/// The effective temperature for the Graph Profile `uid` in `temps`, if there is one.
pub open spec fn first_temp_of(temps: Seq<(Seq<char>, Milli)>, uid: Seq<char>, i: int) -> bool {
    &&& 0 <= i < temps.len()
    &&& temps[i].0 == uid
    &&& forall|k: int| 0 <= k < i ==> (#[trigger] temps[k]).0 != uid
}

/// The duty that Profile `uid` asks for, given the effective temperature `temps` of each Graph
/// Profile. None where no duty is asked: the Default Profile, an unknown uid, a Graph Profile
/// without a temperature, a Mix whose members ask for none. A Mix asks for the highest duty of
/// its members. Err where a Mix reaches itself through its members, which `visiting` records,
/// or where the nesting is deeper than `fuel`.
pub open spec fn resolve(
    ps: Seq<ProfileView>,
    uid: Seq<char>,
    temps: Seq<(Seq<char>, Milli)>,
    visiting: Seq<Seq<char>>,
    fuel: nat,
) -> Result<Option<int>, ()>
    decreases fuel, 0nat,
{
    if !(exists|i: int| first_profile(ps, uid, i)) {
        Ok(None)
    } else {
        let p = ps[choose|i: int| first_profile(ps, uid, i)];
        match p.p_type {
            ProfileType::Default => Ok(None),
            ProfileType::Fixed => match p.speed_fixed {
                Some(d) => Ok(Some(d as int)),
                None => Ok(None),
            },
            ProfileType::Graph => match p.speed_profile {
                Some(pts) => if pts.len() > 0 && exists|k: int| first_temp_of(temps, uid, k) {
                    Ok(
                        Some(
                            clamp(
                                curve_duty(pts, temps[choose|k: int| first_temp_of(temps, uid, k)].1 as int),
                                0,
                                100,
                            ),
                        ),
                    )
                } else {
                    Ok(None)
                },
                None => Ok(None),
            },
            ProfileType::Mix => if visiting.contains(uid) || fuel == 0 {
                Err(())
            } else {
                resolve_members(
                    ps,
                    p.member_profile_uids,
                    temps,
                    visiting.push(uid),
                    (fuel - 1) as nat,
                )
            },
        }
    }
}

/// The highest duty that the Profiles `members` ask for, as [`resolve`] states.
pub open spec fn resolve_members(
    ps: Seq<ProfileView>,
    members: Seq<Seq<char>>,
    temps: Seq<(Seq<char>, Milli)>,
    visiting: Seq<Seq<char>>,
    fuel: nat,
) -> Result<Option<int>, ()>
    decreases fuel, members.len(),
{
    if members.len() == 0 {
        Ok(None)
    } else {
        match resolve_members(ps, members.drop_last(), temps, visiting, fuel) {
            Err(()) => Err(()),
            Ok(a) => match resolve(ps, members.last(), temps, visiting, fuel) {
                Err(()) => Err(()),
                Ok(b) => Ok(max_duty(a, b)),
            },
        }
    }
}


pub open spec fn profiles_view(s: Seq<Profile>) -> Seq<ProfileView> {
    s.map_values(|p: Profile| p@)
}

pub open spec fn temps_view(s: Seq<(String, Milli)>) -> Seq<(Seq<char>, Milli)> {
    s.map_values(|p: (String, Milli)| (p.0@, p.1))
}

pub open spec fn uids_view(s: Seq<String>) -> Seq<Seq<char>> {
    s.map_values(|u: String| u@)
}

pub open spec fn opt_duty(o: Option<u8>) -> Option<int> {
    match o {
        Some(d) => Some(d as int),
        None => None,
    }
}

/// The first Profile with uid `uid`, if any.
pub fn find_profile(ps: &Vec<Profile>, uid: &String) -> (r: Option<usize>)
    ensures
        match r {
            Some(i) => first_profile(profiles_view(ps@), uid@, i as int),
            None => !(exists|i: int| first_profile(profiles_view(ps@), uid@, i)),
        },
{
    let ghost pv = profiles_view(ps@);
    let mut i: usize = 0;
    while i < ps.len()
        invariant
            i <= ps.len(),
            pv == profiles_view(ps@),
            forall|k: int| 0 <= k < i ==> (#[trigger] pv[k]).uid != uid@,
        decreases ps.len() - i,
    {
        if ps[i].uid.eq(uid) {
            return Some(i);
        }
        i += 1;
    }
    None
}

fn find_temp_of(temps: &Vec<(String, Milli)>, uid: &String) -> (r: Option<usize>)
    ensures
        match r {
            Some(i) => first_temp_of(temps_view(temps@), uid@, i as int),
            None => !(exists|i: int| first_temp_of(temps_view(temps@), uid@, i)),
        },
{
    let ghost tv = temps_view(temps@);
    let mut i: usize = 0;
    while i < temps.len()
        invariant
            i <= temps.len(),
            tv == temps_view(temps@),
            forall|k: int| 0 <= k < i ==> (#[trigger] tv[k]).0 != uid@,
        decreases temps.len() - i,
    {
        if temps[i].0.eq(uid) {
            return Some(i);
        }
        i += 1;
    }
    None
}

/// Whether some uid of `v` is `uid`.
pub fn contains_uid(v: &Vec<String>, uid: &String) -> (r: bool)
    ensures
        r == uids_view(v@).contains(uid@),
{
    let mut i: usize = 0;
    while i < v.len()
        invariant
            i <= v.len(),
            forall|k: int| 0 <= k < i ==> v@[k]@ != uid@,
        decreases v.len() - i,
    {
        if v[i].eq(uid) {
            assert(uids_view(v@)[i as int] == uid@);
            return true;
        }
        i += 1;
    }
    assert(!uids_view(v@).contains(uid@)) by {
        if uids_view(v@).contains(uid@) {
            let k = choose|k: int| 0 <= k < uids_view(v@).len() && uids_view(v@)[k] == uid@;
            assert(v@[k]@ == uid@);
        }
    }
    false
}

/// Every Profile in `ps` satisfies [`crate::setting::valid_profile`].
pub open spec fn all_valid(ps: Seq<ProfileView>) -> bool {
    forall|i: int| 0 <= i < ps.len() ==> crate::setting::valid_profile(#[trigger] ps[i])
}

fn resolve_exec(
    ps: &Vec<Profile>,
    uid: &String,
    temps: &Vec<(String, Milli)>,
    visiting: &mut Vec<String>,
    fuel: u64,
) -> (r: Result<Option<u8>, ()>)
    requires
        all_valid(profiles_view(ps@)),
    ensures
        uids_view(final(visiting)@) == uids_view(old(visiting)@),
        match resolve(profiles_view(ps@), uid@, temps_view(temps@), uids_view(old(visiting)@), fuel as nat) {
            Ok(o) => r == Ok::<Option<u8>, ()>(r->Ok_0) && opt_duty(r->Ok_0) == o,
            Err(()) => r is Err,
        },
    decreases fuel, 1nat,
{
    let ghost pv = profiles_view(ps@);
    let i = match find_profile(ps, uid) {
        Some(i) => i,
        None => {
            return Ok(None);
        },
    };
    let ghost c = choose|k: int| first_profile(pv, uid@, k);
    assert(c == i as int) by {
        if c < i as int {
            assert(pv[c].uid != uid@);
        } else if c > i as int {
            assert(pv[i as int].uid != uid@);
        }
    }
    let p = &ps[i];
    assert(pv[i as int] == p@);
    assert(crate::setting::valid_profile(p@));
    match p.p_type {
        ProfileType::Default => Ok(None),
        ProfileType::Fixed => Ok(p.speed_fixed),
        ProfileType::Graph => match &p.speed_profile {
            Some(pts) => {
                match find_temp_of(temps, uid) {
                    Some(k) => {
                        let ghost tv = temps_view(temps@);
                        let ghost c2 = choose|j: int| first_temp_of(tv, uid@, j);
                        assert(c2 == k as int) by {
                            if c2 < k as int {
                                assert(tv[c2].0 != uid@);
                            } else if c2 > k as int {
                                assert(tv[k as int].0 != uid@);
                            }
                        }
                        Ok(Some(graph_duty(pts, temps[k].1, 0, 100)))
                    },
                    None => Ok(None),
                }
            },
            None => Ok(None),
        },
        ProfileType::Mix => {
            if fuel == 0 || contains_uid(visiting, uid) {
                return Err(());
            }
            let ghost before = uids_view(visiting@);
            visiting.push(uid.clone());
            assert(uids_view(visiting@) =~= before.push(uid@));
            let r = resolve_members_exec(ps, &p.member_profile_uids, temps, visiting, fuel - 1);
            let ghost after_call = visiting@;
            visiting.pop();
            assert(visiting@ == after_call.drop_last());
            assert(uids_view(visiting@) =~= uids_view(after_call).drop_last());
            assert(uids_view(visiting@) =~= before);
            r
        },
    }
}

fn resolve_members_exec(
    ps: &Vec<Profile>,
    members: &Vec<String>,
    temps: &Vec<(String, Milli)>,
    visiting: &mut Vec<String>,
    fuel: u64,
) -> (r: Result<Option<u8>, ()>)
    requires
        all_valid(profiles_view(ps@)),
    ensures
        uids_view(final(visiting)@) == uids_view(old(visiting)@),
        match resolve_members(profiles_view(ps@), uids_view(members@), temps_view(temps@), uids_view(old(visiting)@), fuel as nat) {
            Ok(o) => r == Ok::<Option<u8>, ()>(r->Ok_0) && opt_duty(r->Ok_0) == o,
            Err(()) => r is Err,
        },
    decreases fuel, 2nat,
{
    let ghost mv = uids_view(members@);
    let ghost vis = uids_view(visiting@);
    let mut duties: Vec<Option<u8>> = Vec::new();
    let mut i: usize = 0;
    while i < members.len()
        invariant
            i <= members.len(),
            all_valid(profiles_view(ps@)),
            mv == uids_view(members@),
            uids_view(visiting@) == vis,
            vis == uids_view(old(visiting)@),
            resolve_members(profiles_view(ps@), mv.subrange(0, i as int), temps_view(temps@), vis, fuel as nat)
                == Ok::<Option<int>, ()>(max_fold(duties_view(duties@))),
        decreases members.len() - i,
    {
        assert(mv.subrange(0, i + 1).drop_last() =~= mv.subrange(0, i as int));
        assert(mv.subrange(0, i + 1).last() == members@[i as int]@);
        let b = resolve_exec(ps, &members[i], temps, visiting, fuel);
        assert(uids_view(visiting@) == vis);
        assert(mv.subrange(0, i + 1) =~= mv.subrange(0, i as int).push(members@[i as int]@));
        match b {
            Err(()) => {
                proof {
                    lemma_members_err_extends(profiles_view(ps@), mv, temps_view(temps@), vis, fuel as nat, i as int + 1);
                }
                return Err(());
            },
            Ok(b) => {
                let ghost before = duties_view(duties@);
                duties.push(b);
                assert(duties_view(duties@).drop_last() =~= before);
            },
        }
        i += 1;
    }
    assert(mv.subrange(0, members.len() as int) =~= mv);
    Ok(mix_max(&duties))
}

/// A failure on a prefix of the members is a failure on all of them.
proof fn lemma_members_err_extends(
    ps: Seq<ProfileView>,
    members: Seq<Seq<char>>,
    temps: Seq<(Seq<char>, Milli)>,
    visiting: Seq<Seq<char>>,
    fuel: nat,
    j: int,
)
    requires
        0 <= j <= members.len(),
        resolve_members(ps, members.subrange(0, j), temps, visiting, fuel) is Err,
    ensures
        resolve_members(ps, members, temps, visiting, fuel) is Err,
    decreases members.len() - j,
{
    if j < members.len() {
        assert(members.subrange(0, j + 1).drop_last() =~= members.subrange(0, j));
        lemma_members_err_extends(ps, members, temps, visiting, fuel, j + 1);
    } else {
        assert(members.subrange(0, j) =~= members);
    }
}

/// The duty that Profile `uid` asks for, as [`resolve`] states with no Mix under way and as much
/// nesting as there are Profiles. A Mix that reaches itself is an invalid configuration.
pub fn resolve_profile_duty(ps: &Vec<Profile>, uid: &String, temps: &Vec<(String, Milli)>) -> (r: Result<Option<u8>, CCError>)
    requires
        all_valid(profiles_view(ps@)),
    ensures
        match resolve(profiles_view(ps@), uid@, temps_view(temps@), Seq::empty(), ps.len() as nat) {
            Ok(o) => r is Ok && opt_duty(r->Ok_0) == o,
            Err(()) => r is Err && r->Err_0 is UserError,
        },
{
    let mut visiting: Vec<String> = Vec::new();
    assert(uids_view(visiting@) =~= Seq::empty());
    match resolve_exec(ps, uid, temps, &mut visiting, ps.len() as u64) {
        Ok(o) => Ok(o),
        Err(()) => Err(CCError::user_error("A Mix Profile contains itself")),
    }
}

/// The highest of the member duties; a member that asks for no duty does not count.
pub fn mix_max(duties: &Vec<Option<u8>>) -> (r: Option<u8>)
    ensures
        opt_duty(r) == max_fold(duties_view(duties@)),
        r.is_none() <==> forall|i: int| 0 <= i < duties.len() ==> (#[trigger] duties@[i]).is_none(),
        r.is_some() ==> (exists|i: int| 0 <= i < duties.len() && (#[trigger] duties@[i]) == r)
            && forall|i: int| 0 <= i < duties.len() && (#[trigger] duties@[i]).is_some() ==> duties@[i].unwrap() <= r.unwrap(),
{
    let mut acc: Option<u8> = None;
    let mut i: usize = 0;
    while i < duties.len()
        invariant
            i <= duties.len(),
            opt_duty(acc) == max_fold(duties_view(duties@.subrange(0, i as int))),
            acc.is_none() <==> forall|k: int| 0 <= k < i ==> (#[trigger] duties@[k]).is_none(),
            acc.is_some() ==> (exists|k: int| 0 <= k < i && (#[trigger] duties@[k]) == acc)
                && forall|k: int| 0 <= k < i && (#[trigger] duties@[k]).is_some() ==> duties@[k].unwrap() <= acc.unwrap(),
        decreases duties.len() - i,
    {
        assert(duties_view(duties@.subrange(0, i + 1)).drop_last() =~= duties_view(duties@.subrange(0, i as int)));
        assert(duties_view(duties@.subrange(0, i + 1)).last() == opt_duty(duties@[i as int]));
        match duties[i] {
            Some(d) => {
                match acc {
                    Some(a) => {
                        if d > a {
                            acc = Some(d);
                        }
                    },
                    None => {
                        acc = Some(d);
                    },
                }
            },
            None => {},
        }
        i += 1;
    }
    assert(duties@.subrange(0, duties.len() as int) =~= duties@);
    acc
}

} // verus!
