//! The ADSR envelope generator: a one-way state machine from attack
//! through decay and sustain to release, then permanently silent.

use vstd::prelude::*;
use crate::sample::Sample;
use crate::value::{Node, NodeModel, Value, ValueNode};

verus! {

/// A running envelope: its segment lengths, curve, internal clock and
/// whether it is still active. Once `active` drops, it never rises again.
pub struct AdsrState<T: Sample> {
    pub attack: T,
    pub sustain_level: T,
    pub decay: T,
    pub duration: T,
    pub release: T,
    pub curve: T,
    pub active: bool,
    pub clock: T,
}

impl<T: Sample> Clone for AdsrState<T> {
    fn clone(&self) -> (r: Self)
        ensures
            r == *self,
    {
        AdsrState {
            attack: self.attack,
            sustain_level: self.sustain_level,
            decay: self.decay,
            duration: self.duration,
            release: self.release,
            curve: self.curve,
            active: self.active,
            clock: self.clock,
        }
    }
}

impl<T: Sample> Copy for AdsrState<T> {

}

/// The whole envelope length: attack, decay, sustain and release end to
/// end.
pub open spec fn adsr_total<T: Sample>(st: AdsrState<T>) -> T {
    T::sp_add(T::sp_add(T::sp_add(st.attack, st.decay), st.duration), st.release)
}

/// The envelope's level at its current clock: the power curve rising over
/// the attack, the blend toward the sustain level over the decay, the
/// sustain plateau, and the power curve falling over the release.
///
/// Deliberate oddity, kept as the running synth has always had it: the
/// decay blend's exponent is the absolute elapsed clock, not the curve,
/// so the decay's ease shape drifts with when the decay happens, and at
/// the attack boundary the blend starts at the sustain level rather than
/// at one (invisible at full sustain, where the decay is constant one).
pub open spec fn adsr_value<T: Sample>(st: AdsrState<T>) -> T {
    let one = T::sp_one();
    if T::sp_lt(st.clock, st.attack) {
        let d = T::sp_sub(st.attack, st.clock);
        T::sp_sub(one, T::sp_pow(T::sp_div(d, st.attack), st.curve))
    } else if T::sp_lt(st.clock, T::sp_add(st.attack, st.decay)) {
        let d = T::sp_sub(T::sp_add(st.attack, st.decay), st.clock);
        T::sp_sub(
            one,
            T::sp_mul(
                T::sp_pow(T::sp_div(d, st.decay), st.clock),
                T::sp_sub(one, st.sustain_level),
            ),
        )
    } else if T::sp_lt(st.clock, T::sp_add(T::sp_add(st.attack, st.decay), st.duration)) {
        st.sustain_level
    } else {
        let d = T::sp_sub(adsr_total(st), st.clock);
        T::sp_mul(T::sp_pow(T::sp_div(d, st.release), st.curve), st.sustain_level)
    }
}

/// One envelope sample: emit the current level, advance the clock by one
/// sample period, and go permanently inactive once the clock passes the
/// total length. An inactive envelope emits silence and never changes.
pub open spec fn adsr_step<T: Sample>(st: AdsrState<T>, sample_rate: u32) -> (AdsrState<T>, T) {
    if st.active {
        let v = adsr_value(st);
        let clock = T::sp_add(st.clock, T::sp_div(T::sp_one(), T::sp_ratio(sample_rate as i64, 1)));
        let active = !T::sp_lt(adsr_total(st), clock);
        (AdsrState { clock, active, ..st }, v)
    } else {
        (st, T::sp_zero())
    }
}

/// The envelope's state after `i` samples.
pub open spec fn adsr_state_at<T: Sample>(st0: AdsrState<T>, sample_rate: u32, i: nat) -> AdsrState<
    T,
>
    decreases i,
{
    if i == 0 {
        st0
    } else {
        adsr_step(adsr_state_at(st0, sample_rate, (i - 1) as nat), sample_rate).0
    }
}

/// Everything the envelope emits over `count` samples.
pub open spec fn adsr_outs<T: Sample>(st0: AdsrState<T>, sample_rate: u32, count: nat) -> Seq<T> {
    Seq::new(count, |i: int| adsr_step(adsr_state_at(st0, sample_rate, i as nat), sample_rate).1)
}

/// One envelope sample, executably.
fn adsr_step_run<T: Sample>(st: AdsrState<T>, sample_rate: u32) -> (r: (AdsrState<T>, T))
    ensures
        r == adsr_step(st, sample_rate),
{
    if st.active {
        let one = T::one();
        let v = if T::lt(st.clock, st.attack) {
            let d = T::sub(st.attack, st.clock);
            T::sub(one, T::pow(T::div(d, st.attack), st.curve))
        } else if T::lt(st.clock, T::add(st.attack, st.decay)) {
            let d = T::sub(T::add(st.attack, st.decay), st.clock);
            T::sub(one, T::mul(T::pow(T::div(d, st.decay), st.clock), T::sub(one, st.sustain_level)))
        } else if T::lt(st.clock, T::add(T::add(st.attack, st.decay), st.duration)) {
            st.sustain_level
        } else {
            let total = T::add(T::add(T::add(st.attack, st.decay), st.duration), st.release);
            let d = T::sub(total, st.clock);
            T::mul(T::pow(T::div(d, st.release), st.curve), st.sustain_level)
        };
        let clock = T::add(st.clock, T::div(one, T::ratio(sample_rate as i64, 1)));
        let total = T::add(T::add(T::add(st.attack, st.decay), st.duration), st.release);
        let active = !T::lt(total, clock);
        (AdsrState { clock, active, ..st }, v)
    } else {
        (st, T::zero())
    }
}

/// Runs the envelope for `count` samples.
pub(crate) fn adsr_run<T: Sample>(st: &mut AdsrState<T>, sample_rate: u32, count: usize) -> (out:
    Vec<T>)
    ensures
        *final(st) == adsr_state_at(*old(st), sample_rate, count as nat),
        out@ == adsr_outs(*old(st), sample_rate, count as nat),
{
    let mut out: Vec<T> = Vec::new();
    let mut i: usize = 0;
    while i < count
        invariant
            i <= count,
            *st == adsr_state_at(*old(st), sample_rate, i as nat),
            out@.len() == i,
            forall|j: int| 0 <= j < i ==> out@[j] == adsr_outs(*old(st), sample_rate, count as nat)[j],
        decreases count - i,
    {
        let (st2, v) = adsr_step_run(*st, sample_rate);
        *st = st2;
        out.push(v);
        i = i + 1;
    }
    proof {
        assert(out@ =~= adsr_outs(*old(st), sample_rate, count as nat));
    }
    out
}

/// Once the envelope has gone inactive it stays inactive and emits
/// silence forever: running it any further changes nothing.
pub proof fn lemma_adsr_terminal<T: Sample>(st: AdsrState<T>, sample_rate: u32, count: nat)
    requires
        !st.active,
    ensures
        adsr_state_at(st, sample_rate, count) == st,
        forall|i: int| 0 <= i < count ==> adsr_outs(st, sample_rate, count)[i] == T::sp_zero(),
    decreases count,
{
    if count > 0 {
        lemma_adsr_terminal(st, sample_rate, (count - 1) as nat);
        assert(adsr_state_at(st, sample_rate, count) == st);
        assert forall|i: int| 0 <= i < count implies adsr_outs(st, sample_rate, count)[i]
            == T::sp_zero() by {
            assert(adsr_state_at(st, sample_rate, i as nat) == st) by {
                lemma_adsr_state_stays(st, sample_rate, i as nat);
            }
        }
    }
}

/// Helper: an inactive envelope's state is a fixed point of stepping.
proof fn lemma_adsr_state_stays<T: Sample>(st: AdsrState<T>, sample_rate: u32, i: nat)
    requires
        !st.active,
    ensures
        adsr_state_at(st, sample_rate, i) == st,
    decreases i,
{
    if i > 0 {
        lemma_adsr_state_stays(st, sample_rate, (i - 1) as nat);
    }
}

/// A fresh linear envelope starts silent: with the clock at zero, a
/// positive attack and a curve of one, the crate's own scalar puts the
/// attack ramp exactly at zero.
pub proof fn lemma_adsr_starts_at_zero(st: AdsrState<crate::sample::Fixed>)
    requires
        st.active,
        st.curve == crate::sample::Fixed::sp_one(),
        st.clock == crate::sample::Fixed::sp_zero(),
        st.attack.units > 0,
    ensures
        adsr_value(st) == crate::sample::Fixed::sp_zero(),
{
    assert(crate::sample::Fixed::sp_lt(st.clock, st.attack));
    assert(crate::sample::Fixed::sp_sub(st.attack, st.clock) == st.attack);
    crate::sample::lemma_fixed_div_self(st.attack);
    crate::sample::lemma_fixed_pow_one(crate::sample::Fixed::sp_one());
}

/// A linear envelope reaches exactly one at the end of its attack: with
/// full sustain, the clock at the attack boundary and a curve of one, the
/// crate's own scalar puts the decay blend exactly at one.
pub proof fn lemma_adsr_peaks_at_attack(st: AdsrState<crate::sample::Fixed>)
    requires
        st.active,
        st.curve == crate::sample::Fixed::sp_one(),
        st.sustain_level == crate::sample::Fixed::sp_one(),
        st.clock == st.attack,
        st.attack.units >= 0,
        st.decay.units > 0,
        st.attack.units + st.decay.units <= i64::MAX,
    ensures
        adsr_value(st) == crate::sample::Fixed::sp_one(),
{
    let ad = crate::sample::Fixed::sp_add(st.attack, st.decay);
    assert(ad.units == st.attack.units + st.decay.units);
    assert(!crate::sample::Fixed::sp_lt(st.clock, st.attack));
    assert(crate::sample::Fixed::sp_lt(st.clock, ad));
    assert(crate::sample::Fixed::sp_sub(ad, st.clock) == st.decay);
    crate::sample::lemma_fixed_div_self(st.decay);
    crate::sample::lemma_fixed_one_pow(st.clock);
    let p = crate::sample::Fixed::sp_pow(
        crate::sample::Fixed::sp_div(st.decay, st.decay),
        st.clock,
    );
    assert(p == crate::sample::Fixed::sp_one());
    assert(crate::sample::Fixed::sp_sub(
        crate::sample::Fixed::sp_one(),
        crate::sample::Fixed::sp_one(),
    ) == crate::sample::Fixed::sp_zero());
    crate::sample::lemma_fixed_mul_zero(p);
}

/// The envelope builder: unset segments fall back to the documented
/// defaults when the envelope is rendered into a graph.
pub struct ADSR<T: Sample> {
    pub attack: Option<T>,
    pub sustain_level: Option<T>,
    pub decay: Option<T>,
    pub duration: Option<T>,
    pub release: Option<T>,
    pub curve: Option<T>,
}

impl<T: Sample> ADSR<T> {
    /// An envelope with every segment left to its default.
    pub fn new() -> (e: ADSR<T>)
        ensures
            e == (ADSR {
                attack: None::<T>,
                sustain_level: None::<T>,
                decay: None::<T>,
                duration: None::<T>,
                release: None::<T>,
                curve: None::<T>,
            }),
    {
        ADSR {
            attack: None,
            sustain_level: None,
            decay: None,
            duration: None,
            release: None,
            curve: None,
        }
    }

    /// Sets the attack time in seconds.
    pub fn attack(self, attack: T) -> (e: ADSR<T>)
        ensures
            e == (ADSR { attack: Some(attack), ..self }),
    {
        ADSR { attack: Some(attack), ..self }
    }

    /// Sets the decay time in seconds.
    pub fn decay(self, decay: T) -> (e: ADSR<T>)
        ensures
            e == (ADSR { decay: Some(decay), ..self }),
    {
        ADSR { decay: Some(decay), ..self }
    }

    /// Sets the sustain level.
    pub fn sustain(self, sustain: T) -> (e: ADSR<T>)
        ensures
            e == (ADSR { sustain_level: Some(sustain), ..self }),
    {
        ADSR { sustain_level: Some(sustain), ..self }
    }

    /// Sets the release time in seconds.
    pub fn release(self, release: T) -> (e: ADSR<T>)
        ensures
            e == (ADSR { release: Some(release), ..self }),
    {
        ADSR { release: Some(release), ..self }
    }

    /// Sets the sustain duration in seconds.
    pub fn duration(self, duration: T) -> (e: ADSR<T>)
        ensures
            e == (ADSR { duration: Some(duration), ..self }),
    {
        ADSR { duration: Some(duration), ..self }
    }

    /// Sets the curve exponent of the attack and release ramps.
    pub fn curve(self, curve: T) -> (e: ADSR<T>)
        ensures
            e == (ADSR { curve: Some(curve), ..self }),
    {
        ADSR { curve: Some(curve), ..self }
    }
}

/// The running state an [`ADSR`] builder denotes: a tenth of a second of
/// attack and release, full sustain for one second, a linear curve, and
/// the clock at zero.
pub open spec fn adsr_initial<T: Sample>(e: ADSR<T>) -> AdsrState<T> {
    AdsrState {
        attack: match e.attack {
            Some(a) => a,
            None => T::sp_ratio(1, 10),
        },
        sustain_level: match e.sustain_level {
            Some(a) => a,
            None => T::sp_one(),
        },
        decay: match e.decay {
            Some(a) => a,
            None => T::sp_zero(),
        },
        duration: match e.duration {
            Some(a) => a,
            None => T::sp_one(),
        },
        release: match e.release {
            Some(a) => a,
            None => T::sp_ratio(1, 10),
        },
        curve: match e.curve {
            Some(a) => a,
            None => T::sp_one(),
        },
        active: true,
        clock: T::sp_zero(),
    }
}

impl<T: Sample> ValueNode<T> for ADSR<T> {
    open spec fn sp_node(self) -> NodeModel<T> {
        NodeModel::Adsr(adsr_initial(self))
    }

    fn value(self) -> (v: Value<T>) {
        let attack = match self.attack {
            Some(a) => a,
            None => T::ratio(1, 10),
        };
        let sustain_level = match self.sustain_level {
            Some(a) => a,
            None => T::one(),
        };
        let decay = match self.decay {
            Some(a) => a,
            None => T::zero(),
        };
        let duration = match self.duration {
            Some(a) => a,
            None => T::one(),
        };
        let release = match self.release {
            Some(a) => a,
            None => T::ratio(1, 10),
        };
        let curve = match self.curve {
            Some(a) => a,
            None => T::one(),
        };
        Value {
            node: Node::Adsr(
                AdsrState {
                    attack,
                    sustain_level,
                    decay,
                    duration,
                    release,
                    curve,
                    active: true,
                    clock: T::zero(),
                },
            ),
        }
    }
}

} // verus!
