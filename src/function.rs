//! The Function evaluator: turns recent raw temperature samples into an effective temperature.
//!
//! Samples are ordered most recent first, in thousandths of a degree.
use vstd::arithmetic::div_mod::{lemma_div_is_ordered, lemma_div_multiples_vanish};
use vstd::prelude::*;

use crate::setting::{Function, FunctionType, Milli};

verus! {

/// `a / d` rounded toward zero.
pub open spec fn div_trunc(a: int, d: int) -> int {
    if a >= 0 {
        a / d
    } else {
        -((-a) / d)
    }
}

/// A quotient of a value within `[d * lo, d * hi]` by `d` lies within `[lo, hi]`.
pub proof fn lemma_div_trunc_bounds(a: int, d: int, lo: int, hi: int)
    requires
        d > 0,
        d * lo <= a <= d * hi,
    ensures
        lo <= div_trunc(a, d) <= hi,
{
    lemma_div_multiples_vanish(lo, d);
    lemma_div_multiples_vanish(hi, d);
    lemma_div_multiples_vanish(-lo, d);
    lemma_div_multiples_vanish(-hi, d);
    lemma_div_multiples_vanish(0, d);
    if a >= 0 {
        assert(d * hi >= 0);
        assert(hi >= 0) by (nonlinear_arith)
            requires
                d > 0,
                d * hi >= 0,
        ;
        lemma_div_is_ordered(a, d * hi, d);
        if lo > 0 {
            lemma_div_is_ordered(d * lo, a, d);
        } else {
            lemma_div_is_ordered(0, a, d);
        }
    } else {
        assert(d * (-lo) == -(d * lo)) by (nonlinear_arith);
        assert(d * (-hi) == -(d * hi)) by (nonlinear_arith);
        assert(lo < 0) by (nonlinear_arith)
            requires
                d > 0,
                d * lo < 0,
        ;
        lemma_div_is_ordered(-a, d * (-lo), d);
        if hi < 0 {
            lemma_div_is_ordered(d * (-hi), -a, d);
        } else {
            lemma_div_is_ordered(0, -a, d);
        }
    }
}

/// `(d * v) / d`, rounded toward zero, is `v`.
pub proof fn lemma_div_trunc_exact(v: int, d: int)
    requires
        d > 0,
    ensures
        div_trunc(d * v, d) == v,
{
    lemma_div_multiples_vanish(v, d);
    lemma_div_multiples_vanish(-v, d);
    assert(d * (-v) == -(d * v)) by (nonlinear_arith);
    if v < 0 {
        assert(d * v < 0) by (nonlinear_arith)
            requires
                d > 0,
                v < 0,
        ;
    } else {
        assert(d * v >= 0) by (nonlinear_arith)
            requires
                d > 0,
                v >= 0,
        ;
    }
}

/// The samples a moving average over `n` samples reads: the `n` most recent, or all of them.
pub open spec fn window(samples: Seq<Milli>, n: int) -> Seq<Milli> {
    if n < samples.len() {
        samples.subrange(0, n)
    } else {
        samples
    }
}

pub open spec fn sum(s: Seq<Milli>) -> int
    decreases s.len(),
{
    if s.len() == 0 {
        0
    } else {
        sum(s.drop_last()) + s.last()
    }
}

/// The arithmetic mean of `s`, rounded toward zero.
pub open spec fn mean(s: Seq<Milli>) -> int {
    div_trunc(sum(s), s.len() as int)
}

/// One step of an exponential moving average over `n` samples, whose factor is `2 / (n + 1)`.
pub open spec fn ema_step(x: int, prev: int, n: int) -> int {
    div_trunc(2 * x + (n - 1) * prev, n + 1)
}

/// The exponential moving average over `n` samples of `w`, most recent first, seeded with the
/// oldest sample.
pub open spec fn ema(w: Seq<Milli>, n: int) -> int
    decreases w.len(),
{
    if w.len() == 0 {
        0
    } else if w.len() == 1 {
        w[0] as int
    } else {
        ema_step(w[0] as int, ema(w.drop_first(), n), n)
    }
}

/// The number of samples a moving average of `f` reads: its sample window, at least 1.
pub open spec fn window_size(f: Option<u16>) -> int {
    match f {
        Some(n) => if n == 0 {
            1
        } else {
            n as int
        },
        None => 1,
    }
}

proof fn lemma_sum_bounds(s: Seq<Milli>)
    ensures
        s.len() * (i64::MIN as int) <= sum(s) <= s.len() * (i64::MAX as int),
    decreases s.len(),
{
    if s.len() > 0 {
        lemma_sum_bounds(s.drop_last());
        assert(s.len() * (i64::MIN as int) == (s.len() - 1) * (i64::MIN as int) + i64::MIN) by (nonlinear_arith);
        assert(s.len() * (i64::MAX as int) == (s.len() - 1) * (i64::MAX as int) + i64::MAX) by (nonlinear_arith);
    }
}

/// The mean of the `n` most recent samples, or of all of them where there are fewer.
pub fn simple_moving_avg(samples: &Vec<Milli>, n: u16) -> (r: Milli)
    requires
        samples.len() > 0,
        n > 0,
    ensures
        r == mean(window(samples@, n as int)),
{
    let len: usize = if (n as usize) < samples.len() { n as usize } else { samples.len() };
    let ghost w = window(samples@, n as int);
    assert(w.len() == len);
    let mut acc: i128 = 0;
    let mut i: usize = 0;
    while i < len
        invariant
            i <= len,
            len == w.len(),
            len <= samples.len(),
            len <= u16::MAX,
            w == window(samples@, n as int),
            forall|k: int| 0 <= k < len ==> w[k] == samples@[k],
            acc == sum(w.subrange(0, i as int)),
        decreases len - i,
    {
        proof {
            assert(w.subrange(0, i + 1).drop_last() =~= w.subrange(0, i as int));
            lemma_sum_bounds(w.subrange(0, i as int));
            assert(i * (i64::MIN as int) >= u16::MAX * (i64::MIN as int)) by (nonlinear_arith)
                requires i <= u16::MAX;
            assert(i * (i64::MAX as int) <= u16::MAX * (i64::MAX as int)) by (nonlinear_arith)
                requires i <= u16::MAX;
        }
        acc = acc + samples[i] as i128;
        i += 1;
    }
    assert(w.subrange(0, len as int) =~= w);
    proof {
        lemma_sum_bounds(w);
        lemma_div_trunc_bounds(sum(w), len as int, i64::MIN as int, i64::MAX as int);
    }
    let d = len as i128;
    let q = if acc >= 0 { acc / d } else { -((-acc) / d) };
    q as i64
}

/// The exponential moving average of the `n` most recent samples, seeded with the oldest of them.
pub fn exponential_moving_avg(samples: &Vec<Milli>, n: u16) -> (r: Milli)
    requires
        samples.len() > 0,
        n > 0,
    ensures
        r == ema(window(samples@, n as int), n as int),
{
    let len: usize = if (n as usize) < samples.len() { n as usize } else { samples.len() };
    let ghost w = window(samples@, n as int);
    assert(w.len() == len);
    let mut acc: i128 = samples[len - 1] as i128;
    let mut i: usize = len - 1;
    assert(w.subrange(i as int, len as int) =~= seq![w[i as int]]);
    while i > 0
        invariant
            0 <= i < len,
            len == w.len(),
            len <= samples.len(),
            w == window(samples@, n as int),
            forall|k: int| 0 <= k < len ==> w[k] == samples@[k],
            acc == ema(w.subrange(i as int, len as int), n as int),
            i64::MIN <= acc <= i64::MAX,
        decreases i,
    {
        let x = samples[i - 1] as i128;
        let nn = n as i128;
        assert(-(u16::MAX as int) * 0x8000_0000_0000_0000 <= (nn - 1) * acc <= (u16::MAX as int) * 0x8000_0000_0000_0000) by (nonlinear_arith)
            requires
                i64::MIN <= acc <= i64::MAX,
                1 <= nn <= u16::MAX,
        ;
        let num = 2 * x + (nn - 1) * acc;
        proof {
            let d = n as int + 1;
            assert(d * (i64::MIN as int) <= num <= d * (i64::MAX as int)) by (nonlinear_arith)
                requires
                    d == nn + 1,
                    num == 2 * x + (nn - 1) * acc,
                    i64::MIN <= x <= i64::MAX,
                    i64::MIN <= acc <= i64::MAX,
                    1 <= nn <= u16::MAX,
            ;
            lemma_div_trunc_bounds(num as int, d, i64::MIN as int, i64::MAX as int);
            assert(w.subrange(i - 1, len as int).drop_first() =~= w.subrange(i as int, len as int));
        }
        let d = nn + 1;
        acc = if num >= 0 { num / d } else { -((-num) / d) };
        i -= 1;
    }
    assert(w.subrange(0, len as int) =~= w);
    acc as i64
}

/// The state a Standard Function keeps between ticks.
#[derive(Debug, Clone, Copy, PartialEq, Eq, Structural)]
pub struct StandardState {
    /// The temperature the Function currently reports.
    pub held: Option<Milli>,
    /// For how many consecutive ticks the newest sample has been outside the dead band.
    pub outside_ticks: u16,
}

/// One tick of a Standard Function with dead band `deviance` and response delay `delay`: a
/// sample at least `deviance` away from the held temperature is followed only once it has stayed
/// outside the band for more than `delay` consecutive ticks.
pub open spec fn standard_step(st: StandardState, x: Milli, deviance: Milli, delay: u8) -> StandardState {
    match st.held {
        None => StandardState { held: Some(x), outside_ticks: 0 },
        Some(h) => {
            let diff = if x >= h { x - h } else { h - x };
            if diff >= deviance {
                if st.outside_ticks + 1 > delay {
                    StandardState { held: Some(x), outside_ticks: 0 }
                } else {
                    StandardState { held: Some(h), outside_ticks: (st.outside_ticks + 1) as u16 }
                }
            } else {
                StandardState { held: Some(h), outside_ticks: 0 }
            }
        },
    }
}

impl StandardState {
    pub open spec fn wf(self) -> bool {
        self.outside_ticks <= 256
    }

    /// The state before the first sample.
    pub fn new() -> (r: StandardState)
        ensures
            r.held.is_none() && r.outside_ticks == 0,
    {
        StandardState { held: None, outside_ticks: 0 }
    }

    /// Takes one sample; returns the temperature the Function reports.
    pub fn step(&mut self, x: Milli, deviance: Milli, delay: u8) -> (r: Milli)
        requires
            old(self).wf(),
            old(self).outside_ticks <= delay,
        ensures
            *final(self) == standard_step(*old(self), x, deviance, delay),
            final(self).wf(),
            final(self).outside_ticks <= delay,
            final(self).held == Some(r),
    {
        match self.held {
            None => {
                *self = StandardState { held: Some(x), outside_ticks: 0 };
                x
            },
            Some(h) => {
                let diff: i128 = if x >= h { x as i128 - h as i128 } else { h as i128 - x as i128 };
                if diff >= deviance as i128 {
                    if self.outside_ticks + 1 > delay as u16 {
                        *self = StandardState { held: Some(x), outside_ticks: 0 };
                        x
                    } else {
                        self.outside_ticks = self.outside_ticks + 1;
                        h
                    }
                } else {
                    self.outside_ticks = 0;
                    h
                }
            },
        }
    }
}

/// The effective temperature that Function `f` gives for `samples`, most recent first:
/// the newest for Identity, the mean or the exponential moving average over the sample window,
/// or for Standard the value its state holds after the newest sample. None without samples.
pub fn effective_temp(f: &Function, samples: &Vec<Milli>, state: &mut StandardState) -> (r: Option<Milli>)
    requires
        old(state).wf(),
        old(state).outside_ticks <= match f.response_delay { Some(d) => d, None => 0u8 },
    ensures
        samples.len() == 0 <==> r.is_none(),
        samples.len() == 0 || f.f_type != FunctionType::Standard ==> *final(state) == *old(state),
        samples.len() > 0 ==> match f.f_type {
            FunctionType::Identity => r == Some(samples@[0]),
            FunctionType::SimpleMovingAvg => r == Some(mean(window(samples@, window_size(f.sample_window))) as Milli),
            FunctionType::ExponentialMovingAvg => r == Some(ema(window(samples@, window_size(f.sample_window)), window_size(f.sample_window)) as Milli),
            FunctionType::Standard => *final(state) == standard_step(
                *old(state),
                samples@[0],
                match f.deviance { Some(d) => d, None => 0 },
                match f.response_delay { Some(d) => d, None => 0u8 },
            ) && final(state).held == r,
        },
        final(state).wf(),
        final(state).outside_ticks <= match f.response_delay { Some(d) => d, None => 0u8 },
{
    if samples.len() == 0 {
        return None;
    }
    let n: u16 = match f.sample_window {
        Some(n) => if n == 0 { 1 } else { n },
        None => 1,
    };
    match f.f_type {
        FunctionType::Identity => Some(samples[0]),
        FunctionType::SimpleMovingAvg => Some(simple_moving_avg(samples, n)),
        FunctionType::ExponentialMovingAvg => Some(exponential_moving_avg(samples, n)),
        FunctionType::Standard => {
            let deviance = match f.deviance {
                Some(d) => d,
                None => 0,
            };
            let delay = match f.response_delay {
                Some(d) => d,
                None => 0,
            };
            Some(state.step(samples[0], deviance, delay))
        },
    }
}

/// A constant input gives itself back: where every sample in the window is `v`, the mean and the
/// exponential moving average are `v`.
pub proof fn lemma_constant_input(samples: Seq<Milli>, n: int, v: Milli)
    requires
        samples.len() > 0,
        n > 0,
        forall|k: int| 0 <= k < window(samples, n).len() ==> window(samples, n)[k] == v,
    ensures
        mean(window(samples, n)) == v,
        ema(window(samples, n), n) == v,
{
    let w = window(samples, n);
    lemma_sum_constant(w, v);
    lemma_div_trunc_exact(v as int, w.len() as int);
    assert(w.len() * v == (w.len() as int) * (v as int));
    lemma_ema_constant(w, n, v);
}

proof fn lemma_sum_constant(s: Seq<Milli>, v: Milli)
    requires
        forall|k: int| 0 <= k < s.len() ==> s[k] == v,
    ensures
        sum(s) == s.len() * v,
    decreases s.len(),
{
    if s.len() > 0 {
        lemma_sum_constant(s.drop_last(), v);
        assert(s.len() * v == (s.len() - 1) * v + v) by (nonlinear_arith);
    }
}

proof fn lemma_ema_constant(s: Seq<Milli>, n: int, v: Milli)
    requires
        s.len() > 0,
        n > 0,
        forall|k: int| 0 <= k < s.len() ==> s[k] == v,
    ensures
        ema(s, n) == v,
    decreases s.len(),
{
    if s.len() > 1 {
        lemma_ema_constant(s.drop_first(), n, v);
        assert(2 * v + (n - 1) * v == (n + 1) * v) by (nonlinear_arith);
        lemma_div_trunc_exact(v as int, n + 1);
    }
}

} // verus!
