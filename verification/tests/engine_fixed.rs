//! Engine behaviour over the crate's own scalar, where every expected
//! value is exact.

use undertone::Env;
use undertone::effect::{Delay, RingModulator, SoftClip};
use undertone::filter::Comb;
use undertone::envelope::ADSR;
use undertone::sample::{Fixed, Sample, UNIT};
use undertone::oscillator::{nearest_recording, Sampler};
use undertone::oscillator::string::PluckedString;
use undertone::sequence::FancySequence;
use undertone::value::multisample::ValueConverter;
use undertone::value::{Bank, CacheValue, Value, ValueNode};

fn render(v: &mut Value<Fixed>, env: &Env, bank: &mut Bank<Fixed>, n: usize) -> Vec<Fixed> {
    let mut buf = vec![Fixed::zero(); n];
    v.fill_buffer(env, bank, &mut buf, n);
    buf
}

#[test]
fn constant_arithmetic_graph() {
    let mut bank: Bank<Fixed> = Bank::new();
    let env = Env::new(44100);
    let two = Value::constant(Fixed::ratio(2, 1));
    let three = Value::constant(Fixed::ratio(3, 1));
    let mut v = two.mul(three).add(Value::constant(Fixed::one()).neg());
    let out = render(&mut v, &env, &mut bank, 4);
    for s in out {
        assert_eq!(s.units, 5 * UNIT);
    }
}

#[test]
fn delay_line_holds_back_441_samples() {
    let mut bank: Bank<Fixed> = Bank::new();
    let env = Env::new(44100);
    let mut v = Delay::new(Value::constant(Fixed::one()), Fixed::ratio(1, 100)).value();
    let out = render(&mut v, &env, &mut bank, 443);
    for i in 0..441 {
        assert_eq!(out[i].units, 0);
    }
    assert_eq!(out[441].units, UNIT);
    assert_eq!(out[442].units, UNIT);
}

#[test]
fn comb_with_empty_line_doubles() {
    let mut bank: Bank<Fixed> = Bank::new();
    let env = Env::new(44100);
    let mut v = Comb::new(Value::constant(Fixed::one()), Fixed::zero()).value();
    let out = render(&mut v, &env, &mut bank, 3);
    for s in out {
        assert_eq!(s.units, 2 * UNIT);
    }
}

#[test]
fn soft_clip_cubic_value() {
    let mut bank: Bank<Fixed> = Bank::new();
    let env = Env::new(44100);
    let mut v = SoftClip::new(Value::constant(Fixed::ratio(1, 2))).value();
    let out = render(&mut v, &env, &mut bank, 2);
    assert_eq!(out[0].units, 458_334);
    assert_eq!(out[1].units, 458_334);
}

#[test]
fn ring_modulator_blend() {
    let mut bank: Bank<Fixed> = Bank::new();
    let env = Env::new(44100);
    let m = RingModulator::new(
        Value::constant(Fixed::ratio(1, 2)),
        Value::constant(Fixed::ratio(1, 4)),
        Value::constant(Fixed::ratio(1, 2)),
    );
    let mut v = m.value();
    let out = render(&mut v, &env, &mut bank, 2);
    assert_eq!(out[0].units, 312_500);
}

#[test]
fn adsr_linear_endpoints() {
    let mut bank: Bank<Fixed> = Bank::new();
    let env = Env::new(8);
    let e = ADSR::new()
        .attack(Fixed::ratio(1, 2))
        .decay(Fixed::ratio(1, 4))
        .sustain(Fixed::one())
        .duration(Fixed::one())
        .release(Fixed::ratio(1, 4))
        .curve(Fixed::one());
    let mut v = e.value();
    let out = render(&mut v, &env, &mut bank, 6);
    assert_eq!(out[0].units, 0);
    assert_eq!(out[1].units, 250_000);
    assert_eq!(out[2].units, 500_000);
    assert_eq!(out[3].units, 750_000);
    assert_eq!(out[4].units, UNIT);
    assert_eq!(out[5].units, UNIT);
}

#[test]
fn adsr_goes_terminally_silent() {
    let mut bank: Bank<Fixed> = Bank::new();
    let mut env = Env::new(8);
    let e = ADSR::new()
        .attack(Fixed::zero())
        .decay(Fixed::zero())
        .sustain(Fixed::one())
        .duration(Fixed::ratio(1, 4))
        .release(Fixed::zero())
        .curve(Fixed::one());
    let mut v = e.value();
    let first = render(&mut v, &env, &mut bank, 8);
    assert_eq!(first[0].units, UNIT);
    assert_eq!(first[1].units, UNIT);
    env.time += 1_000_000_000;
    let later = render(&mut v, &env, &mut bank, 8);
    for s in later {
        assert_eq!(s.units, 0);
    }
    env.time += 1_000_000_000;
    let again = render(&mut v, &env, &mut bank, 8);
    for s in again {
        assert_eq!(s.units, 0);
    }
}

#[test]
fn shared_value_runs_once_per_tick() {
    let mut bank: Bank<Fixed> = Bank::new();
    let env = Env::new(8);
    let e = ADSR::new()
        .attack(Fixed::ratio(1, 2))
        .decay(Fixed::ratio(1, 4))
        .sustain(Fixed::one())
        .duration(Fixed::one())
        .release(Fixed::ratio(1, 4))
        .curve(Fixed::one());
    let shared = CacheValue::new(&mut bank, e.value());
    let mut single = shared.clone().value();
    let one_pass = render(&mut single, &env, &mut bank, 6);
    let mut pair = shared.clone().value().add(shared.clone().value());
    let doubled = render(&mut pair, &env, &mut bank, 6);
    for i in 0..6 {
        assert_eq!(doubled[i].units, 2 * one_pass[i].units);
    }
    let mut single2 = shared.value();
    let replay = render(&mut single2, &env, &mut bank, 6);
    for i in 0..6 {
        assert_eq!(replay[i].units, one_pass[i].units);
    }
}

#[test]
fn sequencer_bounds_polyphony_and_drops_oldest() {
    let mut bank: Bank<Fixed> = Bank::new();
    let env = Env::new(44100);
    let one_sample_nanos: u64 = 22_676;
    let mut events: Vec<(u64, Value<Fixed>)> = Vec::new();
    for k in 0..12u32 {
        events.push((one_sample_nanos, Value::constant(Fixed::raw(1i64 << k))));
    }
    let seq = FancySequence::new(&mut bank, events);
    let mut v = seq.value();
    let out = render(&mut v, &env, &mut bank, 20);
    for i in 0..10 {
        assert_eq!(out[i].units, (1i64 << (i + 1)) - 1);
    }
    assert_eq!(out[10].units, (1i64 << 11) - 2);
    assert_eq!(out[11].units, (1i64 << 12) - 4);
    for i in 12..20 {
        assert_eq!(out[i].units, (1i64 << 12) - 4);
    }
}

#[test]
fn sampler_plays_then_falls_silent() {
    let mut bank: Bank<Fixed> = Bank::new();
    let env = Env::new(44100);
    let recording = vec![
        Fixed::ratio(1, 10),
        Fixed::ratio(2, 10),
        Fixed::ratio(3, 10),
    ];
    let mut v = Sampler::new(recording, Fixed::one()).value();
    let out = render(&mut v, &env, &mut bank, 5);
    assert_eq!(out[0].units, 100_000);
    assert_eq!(out[1].units, 200_000);
    assert_eq!(out[2].units, 300_000);
    assert_eq!(out[3].units, 0);
    assert_eq!(out[4].units, 0);
}

#[test]
fn plucked_string_rings_at_full_scale_when_unsmoothed() {
    let mut bank: Bank<Fixed> = Bank::new();
    let env = Env::new(44100);
    let p = PluckedString::new(Fixed::ratio(441, 1), Fixed::one());
    assert_eq!(p.amp.units, 1_604_284);
    assert_eq!(p.buffer.len(), 100);
    let mut v = p.value();
    let out = render(&mut v, &env, &mut bank, 50);
    for s in out {
        assert!(s.units == 1_604_284 || s.units == -1_604_284);
    }
}

#[test]
fn mono_to_stereo_duplicates_channels() {
    let mut bank: Bank<Fixed> = Bank::new();
    let env = Env::new(44100);
    let mut c = ValueConverter::new(Value::constant(Fixed::ratio(1, 4)));
    let mut buf = vec![
        undertone::value::multisample::MultiSample(Fixed::zero(), Fixed::zero());
        4
    ];
    c.fill_buffer(&env, &mut bank, &mut buf, 4);
    for frame in buf {
        assert_eq!(frame.0.units, 250_000);
        assert_eq!(frame.1.units, 250_000);
    }
}

#[test]
fn nearest_recording_picks_first_closest() {
    let freqs = vec![
        Fixed::ratio(220, 1),
        Fixed::ratio(440, 1),
        Fixed::ratio(441, 1),
        Fixed::ratio(880, 1),
    ];
    assert_eq!(nearest_recording(&freqs, Fixed::ratio(439, 1)), Some(1));
    assert_eq!(nearest_recording(&freqs, Fixed::ratio(225, 1)), Some(0));
    let tie = vec![Fixed::ratio(430, 1), Fixed::ratio(450, 1)];
    assert_eq!(nearest_recording(&tie, Fixed::ratio(440, 1)), Some(0));
    let empty: Vec<Fixed> = Vec::new();
    assert_eq!(nearest_recording(&empty, Fixed::ratio(440, 1)), None);
}

#[test]
fn sequencer_accepts_events_fed_mid_session() {
    let mut bank: Bank<Fixed> = Bank::new();
    let env = Env::new(44100);
    let one_sample_nanos: u64 = 22_676;
    let mut seq = FancySequence::new(&mut bank, Vec::new());
    seq.push_event(&mut bank, one_sample_nanos, Value::constant(Fixed::raw(1)));
    let mut v = seq.value();
    let first = render(&mut v, &env, &mut bank, 2);
    assert_eq!(first[0].units, 1);
    assert_eq!(first[1].units, 1);
}
