//! Filters: the resonant two-pole lowpass, the trapezoidal state-variable
//! filter, the one-pole allpass delay, and the feed-forward comb.
//!
//! The two parameterised filters derive their coefficients from their
//! cutoff and Q control signals and cache them: the trigonometric design
//! equations run only when the incoming pair differs from the cached one,
//! and a counter records every recomputation.

use vstd::prelude::*;
use std::collections::VecDeque;
use crate::sample::Sample;
use crate::value::{Node, NodeModel, Value, ValueNode};
use crate::effect::silent_line;

verus! {

/// Which linear combination of the state-variable filter's intermediate
/// values is emitted.
#[derive(Clone, Copy, PartialEq, Eq, Structural, Debug)]
pub enum FilterType {
    Low,
    Band,
    High,
    Notch,
    Peak,
    All,
}

/// The resonant lowpass's per-sample state: the cached control pair, the
/// coefficients derived from it, the two output history taps, and how
/// often the design equations have run.
pub struct RlpfState<T: Sample> {
    pub cache: Option<(T, T)>,
    pub co: (T, T, T),
    pub y1: T,
    pub y2: T,
    pub recomputes: u64,
}

impl<T: Sample> Clone for RlpfState<T> {
    fn clone(&self) -> (r: Self)
        ensures
            r == *self,
    {
        RlpfState {
            cache: self.cache,
            co: self.co,
            y1: self.y1,
            y2: self.y2,
            recomputes: self.recomputes,
        }
    }
}

impl<T: Sample> Copy for RlpfState<T> {

}

/// The state-variable filter's per-sample state: the output selection,
/// the cached control pair, the coefficients `(k, a1, a2, a3)`, the two
/// integrator states, and the recomputation count.
pub struct SvfState<T: Sample> {
    pub kind: FilterType,
    pub cache: Option<(T, T)>,
    pub co: (T, T, T, T),
    pub ic1: T,
    pub ic2: T,
    pub recomputes: u64,
}

impl<T: Sample> Clone for SvfState<T> {
    fn clone(&self) -> (r: Self)
        ensures
            r == *self,
    {
        SvfState {
            kind: self.kind,
            cache: self.cache,
            co: self.co,
            ic1: self.ic1,
            ic2: self.ic2,
            recomputes: self.recomputes,
        }
    }
}

impl<T: Sample> Copy for SvfState<T> {

}

/// Whether the control pair `(c, q)` misses the cache.
pub open spec fn params_changed<T: Sample>(cache: Option<(T, T)>, c: T, q: T) -> bool {
    match cache {
        Some(p) => !(T::sp_eq(c, p.0) && T::sp_eq(q, p.1)),
        None => true,
    }
}

/// The resonant-lowpass design equations at cutoff `c`: the tangent and
/// cosine of the pole frequency give `(a0, b1, b2)`.
pub open spec fn rlpf_coeffs<T: Sample>(c: T) -> (T, T, T) {
    let one = T::sp_one();
    let pfreq = T::sp_div(T::sp_mul(T::sp_pi(), c), T::sp_ratio(44100, 1));
    let d = T::sp_tan(pfreq);
    let cc = T::sp_div(T::sp_sub(one, d), T::sp_add(one, d));
    let cosf = T::sp_cos(pfreq);
    let b1 = T::sp_mul(T::sp_add(one, cc), cosf);
    let b2 = T::sp_neg(cc);
    let a0 = T::sp_mul(T::sp_sub(T::sp_add(one, cc), b1), T::sp_ratio(1, 4));
    (a0, b1, b2)
}

/// One saturating tick of the recomputation counter.
pub open spec fn count_up(n: u64) -> u64 {
    if n < u64::MAX {
        (n + 1) as u64
    } else {
        n
    }
}

/// One sample of the resonant lowpass: refresh the coefficients if the
/// control pair changed, then apply the two-pole recurrence and rotate
/// the history taps.
pub open spec fn rlpf_step<T: Sample>(st: RlpfState<T>, x: T, c: T, q: T) -> (RlpfState<T>, T) {
    let st1 = if params_changed(st.cache, c, q) {
        RlpfState {
            cache: Some((c, q)),
            co: rlpf_coeffs(c),
            recomputes: count_up(st.recomputes),
            ..st
        }
    } else {
        st
    };
    let a0 = st1.co.0;
    let b1 = st1.co.1;
    let b2 = st1.co.2;
    let y0 = T::sp_add(T::sp_add(T::sp_mul(x, a0), T::sp_mul(st1.y1, b1)), T::sp_mul(st1.y2, b2));
    let out = T::sp_add(T::sp_add(y0, T::sp_mul(st1.y1, T::sp_ratio(2, 1))), st1.y2);
    (RlpfState { y1: y0, y2: st1.y1, ..st1 }, out)
}

/// The resonant lowpass's state after the first `i` samples.
pub open spec fn rlpf_state_at<T: Sample>(
    st0: RlpfState<T>,
    ins: Seq<T>,
    cs: Seq<T>,
    qs: Seq<T>,
    i: nat,
) -> RlpfState<T>
    decreases i,
{
    if i == 0 {
        st0
    } else {
        rlpf_step(
            rlpf_state_at(st0, ins, cs, qs, (i - 1) as nat),
            ins[i - 1],
            cs[i - 1],
            qs[i - 1],
        ).0
    }
}

/// Everything the resonant lowpass emits for the given buffers.
pub open spec fn rlpf_outs<T: Sample>(
    st0: RlpfState<T>,
    ins: Seq<T>,
    cs: Seq<T>,
    qs: Seq<T>,
) -> Seq<T> {
    Seq::new(
        ins.len(),
        |i: int| rlpf_step(rlpf_state_at(st0, ins, cs, qs, i as nat), ins[i], cs[i], qs[i]).1,
    )
}

/// One sample of the resonant lowpass, executably.
fn rlpf_step_run<T: Sample>(st: RlpfState<T>, x: T, c: T, q: T) -> (r: (RlpfState<T>, T))
    ensures
        r == rlpf_step(st, x, c, q),
{
    let changed = match st.cache {
        Some(p) => !(T::eq(c, p.0) && T::eq(q, p.1)),
        None => true,
    };
    let st1 = if changed {
        let one = T::one();
        let pfreq = T::div(T::mul(T::pi(), c), T::ratio(44100, 1));
        let d = T::tan(pfreq);
        let cc = T::div(T::sub(one, d), T::add(one, d));
        let cosf = T::cos(pfreq);
        let b1 = T::mul(T::add(one, cc), cosf);
        let b2 = T::neg(cc);
        let a0 = T::mul(T::sub(T::add(one, cc), b1), T::ratio(1, 4));
        let n = if st.recomputes < u64::MAX {
            st.recomputes + 1
        } else {
            st.recomputes
        };
        RlpfState { cache: Some((c, q)), co: (a0, b1, b2), recomputes: n, ..st }
    } else {
        st
    };
    let a0 = st1.co.0;
    let b1 = st1.co.1;
    let b2 = st1.co.2;
    let y0 = T::add(T::add(T::mul(x, a0), T::mul(st1.y1, b1)), T::mul(st1.y2, b2));
    let out = T::add(T::add(y0, T::mul(st1.y1, T::ratio(2, 1))), st1.y2);
    (RlpfState { y1: y0, y2: st1.y1, ..st1 }, out)
}

/// Runs the resonant lowpass over whole buffers.
pub(crate) fn rlpf_run<T: Sample>(
    st: &mut RlpfState<T>,
    input: &Vec<T>,
    cs: &Vec<T>,
    qs: &Vec<T>,
) -> (out: Vec<T>)
    requires
        input@.len() == cs@.len(),
        input@.len() == qs@.len(),
    ensures
        *final(st) == rlpf_state_at(*old(st), input@, cs@, qs@, input@.len() as nat),
        out@ == rlpf_outs(*old(st), input@, cs@, qs@),
{
    let mut out: Vec<T> = Vec::new();
    let mut i: usize = 0;
    while i < input.len()
        invariant
            i <= input@.len(),
            input@.len() == cs@.len(),
            input@.len() == qs@.len(),
            *st == rlpf_state_at(*old(st), input@, cs@, qs@, i as nat),
            out@.len() == i,
            forall|j: int| 0 <= j < i ==> out@[j] == rlpf_outs(*old(st), input@, cs@, qs@)[j],
        decreases input@.len() - i,
    {
        let (st2, y) = rlpf_step_run(*st, input[i], cs[i], qs[i]);
        *st = st2;
        out.push(y);
        i = i + 1;
    }
    proof {
        assert(out@ =~= rlpf_outs(*old(st), input@, cs@, qs@));
    }
    out
}

/// The state-variable design equations at frequency `c` and quality `q`
/// for the given sample rate.
pub open spec fn svf_coeffs<T: Sample>(c: T, q: T, sample_rate: u32) -> (T, T, T, T) {
    let g = T::sp_tan(T::sp_div(T::sp_mul(T::sp_pi(), c), T::sp_ratio(sample_rate as i64, 1)));
    let k = T::sp_div(T::sp_one(), q);
    let a1 = T::sp_div(T::sp_one(), T::sp_add(T::sp_one(), T::sp_mul(g, T::sp_add(g, k))));
    let a2 = T::sp_mul(g, a1);
    let a3 = T::sp_mul(g, a2);
    (k, a1, a2, a3)
}

/// One sample of the state-variable filter: a single trapezoidal state
/// update, then the output selection named by the filter type.
pub open spec fn svf_step<T: Sample>(st: SvfState<T>, x: T, c: T, q: T, sample_rate: u32) -> (
    SvfState<T>,
    T,
) {
    let st1 = if params_changed(st.cache, c, q) {
        SvfState {
            cache: Some((c, q)),
            co: svf_coeffs(c, q, sample_rate),
            recomputes: count_up(st.recomputes),
            ..st
        }
    } else {
        st
    };
    let k = st1.co.0;
    let a1 = st1.co.1;
    let a2 = st1.co.2;
    let a3 = st1.co.3;
    let two = T::sp_ratio(2, 1);
    let v3 = T::sp_sub(x, st1.ic2);
    let v1 = T::sp_add(T::sp_mul(st1.ic1, a1), T::sp_mul(v3, a2));
    let v2 = T::sp_add(T::sp_add(st1.ic2, T::sp_mul(st1.ic1, a2)), T::sp_mul(v3, a3));
    let ic1 = T::sp_sub(T::sp_mul(v1, two), st1.ic1);
    let ic2 = T::sp_sub(T::sp_mul(v2, two), st1.ic2);
    let out = match st1.kind {
        FilterType::Low => v2,
        FilterType::Band => v1,
        FilterType::High => T::sp_sub(T::sp_sub(x, T::sp_mul(v1, k)), v2),
        FilterType::Notch => T::sp_sub(x, T::sp_mul(v1, k)),
        FilterType::Peak => T::sp_add(T::sp_sub(T::sp_mul(v2, two), x), T::sp_mul(v1, k)),
        FilterType::All => T::sp_sub(x, T::sp_mul(v1, T::sp_mul(k, two))),
    };
    (SvfState { ic1, ic2, ..st1 }, out)
}

/// The state-variable filter's state after the first `i` samples.
pub open spec fn svf_state_at<T: Sample>(
    st0: SvfState<T>,
    ins: Seq<T>,
    cs: Seq<T>,
    qs: Seq<T>,
    sample_rate: u32,
    i: nat,
) -> SvfState<T>
    decreases i,
{
    if i == 0 {
        st0
    } else {
        svf_step(
            svf_state_at(st0, ins, cs, qs, sample_rate, (i - 1) as nat),
            ins[i - 1],
            cs[i - 1],
            qs[i - 1],
            sample_rate,
        ).0
    }
}

/// Everything the state-variable filter emits for the given buffers.
pub open spec fn svf_outs<T: Sample>(
    st0: SvfState<T>,
    ins: Seq<T>,
    cs: Seq<T>,
    qs: Seq<T>,
    sample_rate: u32,
) -> Seq<T> {
    Seq::new(
        ins.len(),
        |i: int|
            svf_step(
                svf_state_at(st0, ins, cs, qs, sample_rate, i as nat),
                ins[i],
                cs[i],
                qs[i],
                sample_rate,
            ).1,
    )
}

/// One sample of the state-variable filter, executably.
fn svf_step_run<T: Sample>(st: SvfState<T>, x: T, c: T, q: T, sample_rate: u32) -> (r: (
    SvfState<T>,
    T,
))
    ensures
        r == svf_step(st, x, c, q, sample_rate),
{
    let changed = match st.cache {
        Some(p) => !(T::eq(c, p.0) && T::eq(q, p.1)),
        None => true,
    };
    let st1 = if changed {
        let one = T::one();
        let g = T::tan(T::div(T::mul(T::pi(), c), T::ratio(sample_rate as i64, 1)));
        let k = T::div(one, q);
        let a1 = T::div(one, T::add(one, T::mul(g, T::add(g, k))));
        let a2 = T::mul(g, a1);
        let a3 = T::mul(g, a2);
        let n = if st.recomputes < u64::MAX {
            st.recomputes + 1
        } else {
            st.recomputes
        };
        SvfState { cache: Some((c, q)), co: (k, a1, a2, a3), recomputes: n, ..st }
    } else {
        st
    };
    let k = st1.co.0;
    let a1 = st1.co.1;
    let a2 = st1.co.2;
    let a3 = st1.co.3;
    let two = T::ratio(2, 1);
    let v3 = T::sub(x, st1.ic2);
    let v1 = T::add(T::mul(st1.ic1, a1), T::mul(v3, a2));
    let v2 = T::add(T::add(st1.ic2, T::mul(st1.ic1, a2)), T::mul(v3, a3));
    let ic1 = T::sub(T::mul(v1, two), st1.ic1);
    let ic2 = T::sub(T::mul(v2, two), st1.ic2);
    let out = match st1.kind {
        FilterType::Low => v2,
        FilterType::Band => v1,
        FilterType::High => T::sub(T::sub(x, T::mul(v1, k)), v2),
        FilterType::Notch => T::sub(x, T::mul(v1, k)),
        FilterType::Peak => T::add(T::sub(T::mul(v2, two), x), T::mul(v1, k)),
        FilterType::All => T::sub(x, T::mul(v1, T::mul(k, two))),
    };
    (SvfState { ic1, ic2, ..st1 }, out)
}

/// Runs the state-variable filter over whole buffers.
pub(crate) fn svf_run<T: Sample>(
    st: &mut SvfState<T>,
    input: &Vec<T>,
    cs: &Vec<T>,
    qs: &Vec<T>,
    sample_rate: u32,
) -> (out: Vec<T>)
    requires
        input@.len() == cs@.len(),
        input@.len() == qs@.len(),
    ensures
        *final(st) == svf_state_at(*old(st), input@, cs@, qs@, sample_rate, input@.len() as nat),
        out@ == svf_outs(*old(st), input@, cs@, qs@, sample_rate),
{
    let mut out: Vec<T> = Vec::new();
    let mut i: usize = 0;
    while i < input.len()
        invariant
            i <= input@.len(),
            input@.len() == cs@.len(),
            input@.len() == qs@.len(),
            *st == svf_state_at(*old(st), input@, cs@, qs@, sample_rate, i as nat),
            out@.len() == i,
            forall|j: int|
                0 <= j < i ==> out@[j] == svf_outs(*old(st), input@, cs@, qs@, sample_rate)[j],
        decreases input@.len() - i,
    {
        let (st2, y) = svf_step_run(*st, input[i], cs[i], qs[i], sample_rate);
        *st = st2;
        out.push(y);
        i = i + 1;
    }
    proof {
        assert(out@ =~= svf_outs(*old(st), input@, cs@, qs@, sample_rate));
    }
    out
}

/// The allpass queue after one sample: the front leaves (if any) and the
/// scattered sum enters at the back.
pub open spec fn allpass_next<T: Sample>(q: Seq<T>, k: T, x: T) -> Seq<T> {
    let sd = if q.len() > 0 {
        q[0]
    } else {
        T::sp_zero()
    };
    let rest = if q.len() > 0 {
        q.subrange(1, q.len() as int)
    } else {
        q
    };
    rest.push(T::sp_add(x, T::sp_mul(k, sd)))
}

/// What the allpass emits for one sample: the delayed sample minus its
/// own reflection off the next queued sample.
pub open spec fn allpass_out<T: Sample>(q: Seq<T>, k: T, x: T) -> T {
    let sd = if q.len() > 0 {
        q[0]
    } else {
        T::sp_zero()
    };
    let rest = if q.len() > 0 {
        q.subrange(1, q.len() as int)
    } else {
        q
    };
    let head = if rest.len() > 0 {
        rest[0]
    } else {
        T::sp_zero()
    };
    T::sp_add(T::sp_mul(T::sp_neg(k), head), sd)
}

/// The allpass queue after the first `i` samples.
pub open spec fn allpass_state_at<T: Sample>(q0: Seq<T>, k: T, ins: Seq<T>, i: nat) -> Seq<T>
    decreases i,
{
    if i == 0 {
        q0
    } else {
        allpass_next(allpass_state_at(q0, k, ins, (i - 1) as nat), k, ins[i - 1])
    }
}

/// Everything the allpass emits for the given input.
pub open spec fn allpass_outs<T: Sample>(q0: Seq<T>, k: T, ins: Seq<T>) -> Seq<T> {
    Seq::new(ins.len(), |i: int| allpass_out(allpass_state_at(q0, k, ins, i as nat), k, ins[i]))
}

/// Runs the allpass over a whole input buffer.
pub(crate) fn allpass_run<T: Sample>(q: &mut VecDeque<T>, k: T, input: &Vec<T>) -> (out: Vec<T>)
    ensures
        final(q)@ == allpass_state_at(old(q)@, k, input@, input@.len() as nat),
        out@ == allpass_outs(old(q)@, k, input@),
{
    let mut out: Vec<T> = Vec::new();
    let mut i: usize = 0;
    while i < input.len()
        invariant
            i <= input@.len(),
            q@ == allpass_state_at(old(q)@, k, input@, i as nat),
            out@.len() == i,
            forall|j: int| 0 <= j < i ==> out@[j] == allpass_outs(old(q)@, k, input@)[j],
        decreases input@.len() - i,
    {
        let ghost before = q@;
        let x = input[i];
        let sd = match q.pop_front() {
            Some(v) => v,
            None => T::zero(),
        };
        let head = if q.len() > 0 {
            q[0]
        } else {
            T::zero()
        };
        let s = T::add(x, T::mul(k, sd));
        let y = T::add(T::mul(T::neg(k), head), sd);
        q.push_back(s);
        proof {
            assert(q@ =~= allpass_next(before, k, x));
            assert(y == allpass_out(before, k, x));
        }
        out.push(y);
        i = i + 1;
    }
    proof {
        assert(out@ =~= allpass_outs(old(q)@, k, input@));
    }
    out
}

/// With a warm cache and controls that keep testing equal to the cached
/// pair, the design equations never rerun: over any number of samples the
/// recomputation count, the cached pair and the coefficients stand still.
pub proof fn lemma_rlpf_constant_controls<T: Sample>(
    st0: RlpfState<T>,
    ins: Seq<T>,
    cs: Seq<T>,
    qs: Seq<T>,
    c0: T,
    q0: T,
    i: nat,
)
    requires
        st0.cache == Some((c0, q0)),
        i <= cs.len(),
        i <= qs.len(),
        forall|j: int| 0 <= j < i ==> T::sp_eq(#[trigger] cs[j], c0),
        forall|j: int| 0 <= j < i ==> T::sp_eq(#[trigger] qs[j], q0),
    ensures
        rlpf_state_at(st0, ins, cs, qs, i).recomputes == st0.recomputes,
        rlpf_state_at(st0, ins, cs, qs, i).cache == st0.cache,
        rlpf_state_at(st0, ins, cs, qs, i).co == st0.co,
    decreases i,
{
    if i > 0 {
        lemma_rlpf_constant_controls(st0, ins, cs, qs, c0, q0, (i - 1) as nat);
    }
}

/// From a cold cache, constant controls run the design equations exactly
/// once — on the first sample — and every later sample reuses the warmed
/// pair: one recomputation per distinct control pair, not one per sample.
pub proof fn lemma_rlpf_cold_once<T: Sample>(
    st0: RlpfState<T>,
    ins: Seq<T>,
    cs: Seq<T>,
    qs: Seq<T>,
    i: nat,
)
    requires
        st0.cache is None,
        1 <= i <= cs.len(),
        i <= qs.len(),
        forall|j: int| 0 <= j < i ==> T::sp_eq(#[trigger] cs[j], cs[0]),
        forall|j: int| 0 <= j < i ==> T::sp_eq(#[trigger] qs[j], qs[0]),
    ensures
        rlpf_state_at(st0, ins, cs, qs, i).recomputes == count_up(st0.recomputes),
        rlpf_state_at(st0, ins, cs, qs, i).cache == Some((cs[0], qs[0])),
        rlpf_state_at(st0, ins, cs, qs, i).co == rlpf_coeffs(cs[0]),
    decreases i,
{
    if i == 1 {
        assert(rlpf_state_at(st0, ins, cs, qs, 0) == st0);
        assert(rlpf_state_at(st0, ins, cs, qs, 1) == rlpf_step(st0, ins[0], cs[0], qs[0]).0);
    } else {
        lemma_rlpf_cold_once(st0, ins, cs, qs, (i - 1) as nat);
        assert(rlpf_state_at(st0, ins, cs, qs, i) == rlpf_step(
            rlpf_state_at(st0, ins, cs, qs, (i - 1) as nat),
            ins[i - 1],
            cs[i - 1],
            qs[i - 1],
        ).0);
    }
}

/// The state-variable filter's cache behaves the same way: matching
/// controls never rerun its design equations.
pub proof fn lemma_svf_constant_controls<T: Sample>(
    st0: SvfState<T>,
    ins: Seq<T>,
    cs: Seq<T>,
    qs: Seq<T>,
    c0: T,
    q0: T,
    sample_rate: u32,
    i: nat,
)
    requires
        st0.cache == Some((c0, q0)),
        i <= cs.len(),
        i <= qs.len(),
        forall|j: int| 0 <= j < i ==> T::sp_eq(#[trigger] cs[j], c0),
        forall|j: int| 0 <= j < i ==> T::sp_eq(#[trigger] qs[j], q0),
    ensures
        svf_state_at(st0, ins, cs, qs, sample_rate, i).recomputes == st0.recomputes,
        svf_state_at(st0, ins, cs, qs, sample_rate, i).cache == st0.cache,
        svf_state_at(st0, ins, cs, qs, sample_rate, i).co == st0.co,
    decreases i,
{
    if i > 0 {
        lemma_svf_constant_controls(st0, ins, cs, qs, c0, q0, sample_rate, (i - 1) as nat);
    }
}

/// From a cold cache, constant controls run the state-variable design
/// equations exactly once, on the first sample.
pub proof fn lemma_svf_cold_once<T: Sample>(
    st0: SvfState<T>,
    ins: Seq<T>,
    cs: Seq<T>,
    qs: Seq<T>,
    sample_rate: u32,
    i: nat,
)
    requires
        st0.cache is None,
        1 <= i <= cs.len(),
        i <= qs.len(),
        forall|j: int| 0 <= j < i ==> T::sp_eq(#[trigger] cs[j], cs[0]),
        forall|j: int| 0 <= j < i ==> T::sp_eq(#[trigger] qs[j], qs[0]),
    ensures
        svf_state_at(st0, ins, cs, qs, sample_rate, i).recomputes == count_up(st0.recomputes),
        svf_state_at(st0, ins, cs, qs, sample_rate, i).cache == Some((cs[0], qs[0])),
        svf_state_at(st0, ins, cs, qs, sample_rate, i).co == svf_coeffs(cs[0], qs[0], sample_rate),
    decreases i,
{
    if i == 1 {
        assert(svf_state_at(st0, ins, cs, qs, sample_rate, 0) == st0);
        assert(svf_state_at(st0, ins, cs, qs, sample_rate, 1) == svf_step(
            st0,
            ins[0],
            cs[0],
            qs[0],
            sample_rate,
        ).0);
    } else {
        lemma_svf_cold_once(st0, ins, cs, qs, sample_rate, (i - 1) as nat);
        assert(svf_state_at(st0, ins, cs, qs, sample_rate, i) == svf_step(
            svf_state_at(st0, ins, cs, qs, sample_rate, (i - 1) as nat),
            ins[i - 1],
            cs[i - 1],
            qs[i - 1],
            sample_rate,
        ).0);
    }
}

/// A resonant two-pole lowpass whose cutoff and Q are themselves signals.
pub struct RLPF<T: Sample> {
    pub input: Value<T>,
    pub cutoff: Value<T>,
    pub q: Value<T>,
    pub state: RlpfState<T>,
}

impl<T: Sample> RLPF<T> {
    /// A resonant lowpass over `input`, driven by the `cutoff` and `q`
    /// control graphs; coefficients start uncached.
    pub fn new(input: Value<T>, cutoff: Value<T>, q: Value<T>) -> (f: RLPF<T>)
        ensures
            f.input == input,
            f.cutoff == cutoff,
            f.q == q,
            f.state == (RlpfState {
                cache: None::<(T, T)>,
                co: (T::sp_zero(), T::sp_zero(), T::sp_zero()),
                y1: T::sp_zero(),
                y2: T::sp_zero(),
                recomputes: 0u64,
            }),
    {
        let z = T::zero();
        RLPF {
            input,
            cutoff,
            q,
            state: RlpfState { cache: None, co: (z, z, z), y1: z, y2: z, recomputes: 0 },
        }
    }

    /// How often the design equations have run so far.
    pub fn recomputations(&self) -> (n: u64)
        ensures
            n == self.state.recomputes,
    {
        self.state.recomputes
    }
}

impl<T: Sample> ValueNode<T> for RLPF<T> {
    open spec fn sp_node(self) -> NodeModel<T> {
        NodeModel::Rlpf(
            Box::new(self.input@),
            Box::new(self.cutoff@),
            Box::new(self.q@),
            self.state,
        )
    }

    fn value(self) -> (v: Value<T>) {
        Value {
            node: Node::Rlpf(
                Box::new(self.input.node),
                Box::new(self.cutoff.node),
                Box::new(self.q.node),
                self.state,
            ),
        }
    }
}

/// A trapezoidal state-variable filter: one shared recurrence whose
/// output selection names the filter type.
pub struct TrapezoidSVF<T: Sample> {
    pub input: Value<T>,
    pub frequency: Value<T>,
    pub q: Value<T>,
    pub state: SvfState<T>,
}

impl<T: Sample> TrapezoidSVF<T> {
    /// The shared constructor behind the per-type builders.
    fn build(kind: FilterType, input: Value<T>, frequency: Value<T>, q: Value<T>) -> (f:
        TrapezoidSVF<T>)
        ensures
            f.input == input,
            f.frequency == frequency,
            f.q == q,
            f.state == (SvfState {
                kind,
                cache: None::<(T, T)>,
                co: (T::sp_zero(), T::sp_zero(), T::sp_zero(), T::sp_zero()),
                ic1: T::sp_zero(),
                ic2: T::sp_zero(),
                recomputes: 0u64,
            }),
    {
        let z = T::zero();
        TrapezoidSVF {
            input,
            frequency,
            q,
            state: SvfState { kind, cache: None, co: (z, z, z, z), ic1: z, ic2: z, recomputes: 0 },
        }
    }

    /// A lowpass selection of the filter.
    pub fn low_pass(input: Value<T>, cutoff: Value<T>, q: Value<T>) -> (f: TrapezoidSVF<T>)
        ensures
            f.input == input,
            f.frequency == cutoff,
            f.q == q,
            f.state.kind == FilterType::Low,
            f.state.cache == None::<(T, T)>,
            f.state.co == (T::sp_zero(), T::sp_zero(), T::sp_zero(), T::sp_zero()),
            f.state.ic1 == T::sp_zero(),
            f.state.ic2 == T::sp_zero(),
            f.state.recomputes == 0,
    {
        Self::build(FilterType::Low, input, cutoff, q)
    }

    /// A bandpass selection of the filter.
    pub fn band(input: Value<T>, frequency: Value<T>, q: Value<T>) -> (f: TrapezoidSVF<T>)
        ensures
            f.input == input,
            f.frequency == frequency,
            f.q == q,
            f.state.kind == FilterType::Band,
            f.state.cache == None::<(T, T)>,
            f.state.co == (T::sp_zero(), T::sp_zero(), T::sp_zero(), T::sp_zero()),
            f.state.ic1 == T::sp_zero(),
            f.state.ic2 == T::sp_zero(),
            f.state.recomputes == 0,
    {
        Self::build(FilterType::Band, input, frequency, q)
    }

    /// A highpass selection of the filter.
    pub fn high(input: Value<T>, frequency: Value<T>, q: Value<T>) -> (f: TrapezoidSVF<T>)
        ensures
            f.input == input,
            f.frequency == frequency,
            f.q == q,
            f.state.kind == FilterType::High,
            f.state.cache == None::<(T, T)>,
            f.state.co == (T::sp_zero(), T::sp_zero(), T::sp_zero(), T::sp_zero()),
            f.state.ic1 == T::sp_zero(),
            f.state.ic2 == T::sp_zero(),
            f.state.recomputes == 0,
    {
        Self::build(FilterType::High, input, frequency, q)
    }

    /// A notch selection of the filter.
    pub fn notch(input: Value<T>, frequency: Value<T>, q: Value<T>) -> (f: TrapezoidSVF<T>)
        ensures
            f.input == input,
            f.frequency == frequency,
            f.q == q,
            f.state.kind == FilterType::Notch,
            f.state.cache == None::<(T, T)>,
            f.state.co == (T::sp_zero(), T::sp_zero(), T::sp_zero(), T::sp_zero()),
            f.state.ic1 == T::sp_zero(),
            f.state.ic2 == T::sp_zero(),
            f.state.recomputes == 0,
    {
        Self::build(FilterType::Notch, input, frequency, q)
    }

    /// A peak selection of the filter.
    pub fn peak(input: Value<T>, frequency: Value<T>, q: Value<T>) -> (f: TrapezoidSVF<T>)
        ensures
            f.input == input,
            f.frequency == frequency,
            f.q == q,
            f.state.kind == FilterType::Peak,
            f.state.cache == None::<(T, T)>,
            f.state.co == (T::sp_zero(), T::sp_zero(), T::sp_zero(), T::sp_zero()),
            f.state.ic1 == T::sp_zero(),
            f.state.ic2 == T::sp_zero(),
            f.state.recomputes == 0,
    {
        Self::build(FilterType::Peak, input, frequency, q)
    }

    /// An allpass selection of the filter.
    pub fn all(input: Value<T>, frequency: Value<T>, q: Value<T>) -> (f: TrapezoidSVF<T>)
        ensures
            f.input == input,
            f.frequency == frequency,
            f.q == q,
            f.state.kind == FilterType::All,
            f.state.cache == None::<(T, T)>,
            f.state.co == (T::sp_zero(), T::sp_zero(), T::sp_zero(), T::sp_zero()),
            f.state.ic1 == T::sp_zero(),
            f.state.ic2 == T::sp_zero(),
            f.state.recomputes == 0,
    {
        Self::build(FilterType::All, input, frequency, q)
    }
}

impl<T: Sample> ValueNode<T> for TrapezoidSVF<T> {
    open spec fn sp_node(self) -> NodeModel<T> {
        NodeModel::Svf(
            Box::new(self.input@),
            Box::new(self.frequency@),
            Box::new(self.q@),
            self.state,
        )
    }

    fn value(self) -> (v: Value<T>) {
        Value {
            node: Node::Svf(
                Box::new(self.input.node),
                Box::new(self.frequency.node),
                Box::new(self.q.node),
                self.state,
            ),
        }
    }
}

/// A one-pole allpass delay: a circular buffer scattering the input
/// against its own delayed energy, with feedback coefficient `k`.
pub struct AllPass<T: Sample> {
    pub input: Value<T>,
    pub k: T,
    pub line: VecDeque<T>,
}

impl<T: Sample> AllPass<T> {
    /// An allpass of `delay` seconds whose energy decays over `decay`
    /// seconds: `k = 0.001^(delay/|decay|) · signum(decay)`, over an
    /// initially silent line of `44100 · delay` samples.
    pub fn new(input: Value<T>, delay: T, decay: T) -> (f: AllPass<T>)
        ensures
            f.input == input,
            f.k == T::sp_mul(
                T::sp_pow(T::sp_ratio(1, 1000), T::sp_div(delay, T::sp_abs(decay))),
                T::sp_signum(decay),
            ),
            f.line@ == Seq::new(
                T::sp_index(T::sp_mul(T::sp_ratio(44100, 1), delay)) as nat,
                |i: int| T::sp_zero(),
            ),
    {
        let k = T::mul(T::pow(T::ratio(1, 1000), T::div(delay, T::abs(decay))), T::signum(decay));
        let len = T::index(T::mul(T::ratio(44100, 1), delay));
        AllPass { input, k, line: silent_line(len) }
    }
}

impl<T: Sample> ValueNode<T> for AllPass<T> {
    open spec fn sp_node(self) -> NodeModel<T> {
        NodeModel::AllPass(Box::new(self.input@), self.k, self.line@)
    }

    fn value(self) -> (v: Value<T>) {
        Value { node: Node::AllPass(Box::new(self.input.node), self.k, self.line) }
    }
}

/// A feed-forward comb: the input plus a fixed-delay copy of itself.
pub struct Comb<T: Sample> {
    pub input: Value<T>,
    pub line: VecDeque<T>,
}

impl<T: Sample> Comb<T> {
    /// A comb of `delay` seconds over an initially silent line.
    pub fn new(input: Value<T>, delay: T) -> (f: Comb<T>)
        ensures
            f.input == input,
            f.line@ == Seq::new(
                T::sp_index(T::sp_mul(delay, T::sp_ratio(44100, 1))) as nat,
                |i: int| T::sp_zero(),
            ),
    {
        let len = T::index(T::mul(delay, T::ratio(44100, 1)));
        Comb { input, line: silent_line(len) }
    }
}

impl<T: Sample> ValueNode<T> for Comb<T> {
    open spec fn sp_node(self) -> NodeModel<T> {
        NodeModel::Comb(Box::new(self.input@), self.line@)
    }

    fn value(self) -> (v: Value<T>) {
        Value { node: Node::Comb(Box::new(self.input.node), self.line) }
    }
}

} // verus!
