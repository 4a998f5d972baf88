//! Stereo samples: a pair of scalars that is itself a scalar, plus the
//! adapters that turn mono graphs into stereo output.

use vstd::prelude::*;
use crate::sample::Sample;
use crate::Env;
use crate::effect::Delay;
use super::{Bank, CacheValue, Value, ValueNode, fill_spec, lemma_fill_props};

verus! {

/// A two-channel sample: every operation acts channel by channel, so a
/// stereo graph runs through the same engine as a mono one.
#[derive(Clone, Copy, Debug)]
pub struct MultiSample<T: Sample>(pub T, pub T);

impl<T: Sample> MultiSample<T> {
    /// The same scalar on both channels.
    pub fn of(v: T) -> (r: MultiSample<T>)
        ensures
            r == MultiSample(v, v),
    {
        MultiSample(v, v)
    }
}

impl<T: Sample> Sample for MultiSample<T> {
    open spec fn sp_zero() -> MultiSample<T> {
        MultiSample(T::sp_zero(), T::sp_zero())
    }

    open spec fn sp_one() -> MultiSample<T> {
        MultiSample(T::sp_one(), T::sp_one())
    }

    open spec fn sp_add(a: MultiSample<T>, b: MultiSample<T>) -> MultiSample<T> {
        MultiSample(T::sp_add(a.0, b.0), T::sp_add(a.1, b.1))
    }

    open spec fn sp_sub(a: MultiSample<T>, b: MultiSample<T>) -> MultiSample<T> {
        MultiSample(T::sp_sub(a.0, b.0), T::sp_sub(a.1, b.1))
    }

    open spec fn sp_mul(a: MultiSample<T>, b: MultiSample<T>) -> MultiSample<T> {
        MultiSample(T::sp_mul(a.0, b.0), T::sp_mul(a.1, b.1))
    }

    open spec fn sp_div(a: MultiSample<T>, b: MultiSample<T>) -> MultiSample<T> {
        MultiSample(T::sp_div(a.0, b.0), T::sp_div(a.1, b.1))
    }

    open spec fn sp_neg(a: MultiSample<T>) -> MultiSample<T> {
        MultiSample(T::sp_neg(a.0), T::sp_neg(a.1))
    }

    open spec fn sp_eq(a: MultiSample<T>, b: MultiSample<T>) -> bool {
        T::sp_eq(a.0, b.0) && T::sp_eq(a.1, b.1)
    }

    open spec fn sp_lt(a: MultiSample<T>, b: MultiSample<T>) -> bool {
        T::sp_lt(a.0, b.0) && T::sp_lt(a.1, b.1)
    }

    open spec fn sp_le(a: MultiSample<T>, b: MultiSample<T>) -> bool {
        T::sp_le(a.0, b.0) && T::sp_le(a.1, b.1)
    }

    open spec fn sp_min(a: MultiSample<T>, b: MultiSample<T>) -> MultiSample<T> {
        MultiSample(T::sp_min(a.0, b.0), T::sp_min(a.1, b.1))
    }

    open spec fn sp_max(a: MultiSample<T>, b: MultiSample<T>) -> MultiSample<T> {
        MultiSample(T::sp_max(a.0, b.0), T::sp_max(a.1, b.1))
    }

    open spec fn sp_abs(a: MultiSample<T>) -> MultiSample<T> {
        MultiSample(T::sp_abs(a.0), T::sp_abs(a.1))
    }

    open spec fn sp_signum(a: MultiSample<T>) -> MultiSample<T> {
        MultiSample(T::sp_signum(a.0), T::sp_signum(a.1))
    }

    open spec fn sp_ratio(num: i64, den: i64) -> MultiSample<T> {
        MultiSample(T::sp_ratio(num, den), T::sp_ratio(num, den))
    }

    open spec fn sp_pi() -> MultiSample<T> {
        MultiSample(T::sp_pi(), T::sp_pi())
    }

    open spec fn sp_sin(a: MultiSample<T>) -> MultiSample<T> {
        MultiSample(T::sp_sin(a.0), T::sp_sin(a.1))
    }

    open spec fn sp_cos(a: MultiSample<T>) -> MultiSample<T> {
        MultiSample(T::sp_cos(a.0), T::sp_cos(a.1))
    }

    open spec fn sp_tan(a: MultiSample<T>) -> MultiSample<T> {
        MultiSample(T::sp_tan(a.0), T::sp_tan(a.1))
    }

    open spec fn sp_pow(a: MultiSample<T>, b: MultiSample<T>) -> MultiSample<T> {
        MultiSample(T::sp_pow(a.0, b.0), T::sp_pow(a.1, b.1))
    }

    open spec fn sp_index(a: MultiSample<T>) -> usize {
        T::sp_index(a.0)
    }

    open spec fn sp_wrap(a: MultiSample<T>, len: MultiSample<T>) -> MultiSample<T> {
        MultiSample(T::sp_wrap(a.0, len.0), T::sp_wrap(a.1, len.1))
    }

    open spec fn sp_unit(u: u64) -> MultiSample<T> {
        MultiSample(T::sp_unit(u), T::sp_unit(u))
    }

    fn zero() -> (r: MultiSample<T>) {
        MultiSample(T::zero(), T::zero())
    }

    fn one() -> (r: MultiSample<T>) {
        MultiSample(T::one(), T::one())
    }

    fn add(a: MultiSample<T>, b: MultiSample<T>) -> (r: MultiSample<T>) {
        MultiSample(T::add(a.0, b.0), T::add(a.1, b.1))
    }

    fn sub(a: MultiSample<T>, b: MultiSample<T>) -> (r: MultiSample<T>) {
        MultiSample(T::sub(a.0, b.0), T::sub(a.1, b.1))
    }

    fn mul(a: MultiSample<T>, b: MultiSample<T>) -> (r: MultiSample<T>) {
        MultiSample(T::mul(a.0, b.0), T::mul(a.1, b.1))
    }

    fn div(a: MultiSample<T>, b: MultiSample<T>) -> (r: MultiSample<T>) {
        MultiSample(T::div(a.0, b.0), T::div(a.1, b.1))
    }

    fn neg(a: MultiSample<T>) -> (r: MultiSample<T>) {
        MultiSample(T::neg(a.0), T::neg(a.1))
    }

    fn eq(a: MultiSample<T>, b: MultiSample<T>) -> (r: bool) {
        T::eq(a.0, b.0) && T::eq(a.1, b.1)
    }

    fn lt(a: MultiSample<T>, b: MultiSample<T>) -> (r: bool) {
        T::lt(a.0, b.0) && T::lt(a.1, b.1)
    }

    fn le(a: MultiSample<T>, b: MultiSample<T>) -> (r: bool) {
        T::le(a.0, b.0) && T::le(a.1, b.1)
    }

    fn min(a: MultiSample<T>, b: MultiSample<T>) -> (r: MultiSample<T>) {
        MultiSample(T::min(a.0, b.0), T::min(a.1, b.1))
    }

    fn max(a: MultiSample<T>, b: MultiSample<T>) -> (r: MultiSample<T>) {
        MultiSample(T::max(a.0, b.0), T::max(a.1, b.1))
    }

    fn abs(a: MultiSample<T>) -> (r: MultiSample<T>) {
        MultiSample(T::abs(a.0), T::abs(a.1))
    }

    fn signum(a: MultiSample<T>) -> (r: MultiSample<T>) {
        MultiSample(T::signum(a.0), T::signum(a.1))
    }

    fn ratio(num: i64, den: i64) -> (r: MultiSample<T>) {
        MultiSample(T::ratio(num, den), T::ratio(num, den))
    }

    fn pi() -> (r: MultiSample<T>) {
        MultiSample(T::pi(), T::pi())
    }

    fn sin(a: MultiSample<T>) -> (r: MultiSample<T>) {
        MultiSample(T::sin(a.0), T::sin(a.1))
    }

    fn cos(a: MultiSample<T>) -> (r: MultiSample<T>) {
        MultiSample(T::cos(a.0), T::cos(a.1))
    }

    fn tan(a: MultiSample<T>) -> (r: MultiSample<T>) {
        MultiSample(T::tan(a.0), T::tan(a.1))
    }

    fn pow(a: MultiSample<T>, b: MultiSample<T>) -> (r: MultiSample<T>) {
        MultiSample(T::pow(a.0, b.0), T::pow(a.1, b.1))
    }

    fn index(a: MultiSample<T>) -> (r: usize) {
        T::index(a.0)
    }

    fn wrap(a: MultiSample<T>, len: MultiSample<T>) -> (r: MultiSample<T>) {
        MultiSample(T::wrap(a.0, len.0), T::wrap(a.1, len.1))
    }

    fn unit(u: u64) -> (r: MultiSample<T>) {
        MultiSample(T::unit(u), T::unit(u))
    }
}

/// Two mono graphs rendered side by side as one stereo signal: the left
/// graph fills first, then the right, both for the same length.
pub struct Bundler<T: Sample>(pub Value<T>, pub Value<T>);

impl<T: Sample> Bundler<T> {
    /// Renders the next `samples` stereo frames.
    pub fn fill_buffer(
        &mut self,
        env: &Env,
        bank: &mut Bank<T>,
        buffer: &mut Vec<MultiSample<T>>,
        samples: usize,
    )
        requires
            old(self).0.wf(*old(bank)),
            old(self).1.wf(*old(bank)),
            old(bank).ok(),
            old(buffer)@.len() >= samples,
        ensures
            ({
                let bound = old(bank)@.len() as int;
                let (b1, n1, sa) = fill_spec(old(bank)@, old(self).0@, *env, samples as nat, bound);
                let (b2, n2, sb) = fill_spec(b1, old(self).1@, *env, samples as nat, bound);
                &&& final(bank)@ == b2
                &&& final(self).0@ == n1
                &&& final(self).1@ == n2
                &&& final(buffer)@.len() == old(buffer)@.len()
                &&& forall|i: int|
                    0 <= i < samples ==> final(buffer)@[i] == MultiSample(sa[i], sb[i])
                &&& forall|i: int|
                    samples <= i < old(buffer)@.len() ==> final(buffer)@[i] == old(buffer)@[i]
                &&& final(bank).ok()
                &&& final(self).0.wf(*final(bank))
                &&& final(self).1.wf(*final(bank))
            }),
    {
        let ghost bound = old(bank)@.len() as int;
        let a = super::fill(&mut bank.entries, &mut self.0.node, env, samples, Ghost(bound));
        proof {
            lemma_fill_props(old(bank)@, old(self).0@, *env, samples as nat, bound);
        }
        let b = super::fill(&mut bank.entries, &mut self.1.node, env, samples, Ghost(bound));
        proof {
            let (b1, n1, sa) = fill_spec(old(bank)@, old(self).0@, *env, samples as nat, bound);
            lemma_fill_props(b1, old(self).1@, *env, samples as nat, bound);
        }
        let mut i: usize = 0;
        while i < samples
            invariant
                i <= samples,
                samples <= buffer@.len(),
                a@.len() == samples,
                b@.len() == samples,
                buffer@.len() == old(buffer)@.len(),
                forall|j: int| 0 <= j < i ==> buffer@[j] == MultiSample(a@[j], b@[j]),
                forall|j: int| i <= j < buffer@.len() ==> buffer@[j] == old(buffer)@[j],
            decreases samples - i,
        {
            let x = MultiSample(a[i], b[i]);
            buffer[i] = x;
            i = i + 1;
        }
    }
}

/// A mono graph heard on both channels: each mono sample is duplicated
/// into a stereo frame.
pub struct ValueConverter<T: Sample> {
    pub inner: Value<T>,
}

impl<T: Sample> ValueConverter<T> {
    /// Wraps a mono graph for stereo playback.
    pub fn new(inner: Value<T>) -> (c: ValueConverter<T>)
        ensures
            c.inner == inner,
    {
        ValueConverter { inner }
    }

    /// Renders the next `samples` stereo frames of the mono graph.
    pub fn fill_buffer(
        &mut self,
        env: &Env,
        bank: &mut Bank<T>,
        buffer: &mut Vec<MultiSample<T>>,
        samples: usize,
    )
        requires
            old(self).inner.wf(*old(bank)),
            old(bank).ok(),
            old(buffer)@.len() >= samples,
        ensures
            ({
                let bound = old(bank)@.len() as int;
                let (b1, n1, sa) = fill_spec(
                    old(bank)@,
                    old(self).inner@,
                    *env,
                    samples as nat,
                    bound,
                );
                &&& final(bank)@ == b1
                &&& final(self).inner@ == n1
                &&& final(buffer)@.len() == old(buffer)@.len()
                &&& forall|i: int|
                    0 <= i < samples ==> final(buffer)@[i] == MultiSample(sa[i], sa[i])
                &&& forall|i: int|
                    samples <= i < old(buffer)@.len() ==> final(buffer)@[i] == old(buffer)@[i]
                &&& final(bank).ok()
                &&& final(self).inner.wf(*final(bank))
            }),
    {
        let ghost bound = old(bank)@.len() as int;
        let a = super::fill(&mut bank.entries, &mut self.inner.node, env, samples, Ghost(bound));
        proof {
            lemma_fill_props(old(bank)@, old(self).inner@, *env, samples as nat, bound);
        }
        let mut i: usize = 0;
        while i < samples
            invariant
                i <= samples,
                samples <= buffer@.len(),
                a@.len() == samples,
                buffer@.len() == old(buffer)@.len(),
                forall|j: int| 0 <= j < i ==> buffer@[j] == MultiSample(a@[j], a@[j]),
                forall|j: int| i <= j < buffer@.len() ==> buffer@[j] == old(buffer)@[j],
            decreases samples - i,
        {
            let x = MultiSample(a[i], a[i]);
            buffer[i] = x;
            i = i + 1;
        }
    }
}

/// A Haas-effect stereo spread: the dry signal on one channel and a short
/// delayed copy on the other, the delayed side chosen by the sign of the
/// shift.
pub fn hass_shift<T: Sample>(bank: &mut Bank<T>, input: Value<T>, shift: T) -> (r: Bundler<T>)
    requires
        input.wf(*old(bank)),
        old(bank).ok(),
    ensures
        final(bank)@ == old(bank)@.push(
            super::EntryModel { node: input@, memo: None },
        ),
        final(bank).ok(),
        r.0.wf(*final(bank)),
        r.1.wf(*final(bank)),
        ({
            let shared = super::NodeModel::Shared::<T>(old(bank)@.len() as usize);
            let delayed = super::NodeModel::Delay(
                Box::new(shared),
                Seq::new(
                    T::sp_index(T::sp_mul(T::sp_ratio(44100, 1), T::sp_abs(shift))) as nat,
                    |i: int| T::sp_zero(),
                ),
            );
            if T::sp_lt(T::sp_zero(), shift) {
                r.0@ == shared && r.1@ == delayed
            } else {
                r.0@ == delayed && r.1@ == shared
            }
        }),
{
    let cached = CacheValue::new(bank, input);
    let delayed = Delay::new(cached.clone().value(), T::abs(shift)).value();
    proof {
        assert(super::refs_ok(
            super::NodeModel::Shared::<T>(cached.index),
            bank@.len() as int,
        ));
        assert(super::refs_ok(delayed@, bank@.len() as int));
    }
    if T::lt(T::zero(), shift) {
        Bundler(cached.value(), delayed)
    } else {
        Bundler(delayed, cached.value())
    }
}

} // verus!
