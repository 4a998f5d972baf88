//! Engine behaviour over an IEEE-double scalar, the usual rendering
//! domain: coefficient caching, reverb determinism, shared stochastic
//! subgraphs, and a full second of enveloped sine.

use undertone::Env;
use undertone::filter::{RLPF, TrapezoidSVF};
use undertone::effect::Reverb;
use undertone::envelope::ADSR;
use undertone::effect::old_timeify;
use undertone::oscillator::string::DrivenString;
use undertone::oscillator::{WaveTableSynth, WhiteNoise};
use undertone::value::multisample::hass_shift;
use undertone::sample::Sample;
use undertone::value::multisample::{Bundler, MultiSample};
use undertone::value::{Bank, CacheValue, Value, ValueNode};

#[derive(Clone, Copy, PartialEq, Debug)]
struct F(f64);

impl Sample for F {
    fn sp_zero() -> F {
        F::zero()
    }

    fn sp_one() -> F {
        F::one()
    }

    fn sp_add(a: F, b: F) -> F {
        F::add(a, b)
    }

    fn sp_sub(a: F, b: F) -> F {
        F::sub(a, b)
    }

    fn sp_mul(a: F, b: F) -> F {
        F::mul(a, b)
    }

    fn sp_div(a: F, b: F) -> F {
        F::div(a, b)
    }

    fn sp_neg(a: F) -> F {
        F::neg(a)
    }

    fn sp_eq(a: F, b: F) -> bool {
        a.0 == b.0
    }

    fn sp_lt(a: F, b: F) -> bool {
        F::lt(a, b)
    }

    fn sp_le(a: F, b: F) -> bool {
        F::le(a, b)
    }

    fn sp_min(a: F, b: F) -> F {
        F::min(a, b)
    }

    fn sp_max(a: F, b: F) -> F {
        F::max(a, b)
    }

    fn sp_abs(a: F) -> F {
        F::abs(a)
    }

    fn sp_signum(a: F) -> F {
        F::signum(a)
    }

    fn sp_ratio(num: i64, den: i64) -> F {
        F::ratio(num, den)
    }

    fn sp_pi() -> F {
        F::pi()
    }

    fn sp_sin(a: F) -> F {
        F::sin(a)
    }

    fn sp_cos(a: F) -> F {
        F::cos(a)
    }

    fn sp_tan(a: F) -> F {
        F::tan(a)
    }

    fn sp_pow(a: F, b: F) -> F {
        F::pow(a, b)
    }

    fn sp_index(a: F) -> usize {
        F::index(a)
    }

    fn sp_wrap(a: F, len: F) -> F {
        F::wrap(a, len)
    }

    fn sp_unit(u: u64) -> F {
        F::unit(u)
    }

    fn zero() -> F {
        F(0.0)
    }

    fn one() -> F {
        F(1.0)
    }

    fn add(a: F, b: F) -> F {
        F(a.0 + b.0)
    }

    fn sub(a: F, b: F) -> F {
        F(a.0 - b.0)
    }

    fn mul(a: F, b: F) -> F {
        F(a.0 * b.0)
    }

    fn div(a: F, b: F) -> F {
        F(a.0 / b.0)
    }

    fn neg(a: F) -> F {
        F(-a.0)
    }

    fn eq(a: F, b: F) -> bool {
        a.0 == b.0
    }

    fn lt(a: F, b: F) -> bool {
        a.0 < b.0
    }

    fn le(a: F, b: F) -> bool {
        a.0 <= b.0
    }

    fn min(a: F, b: F) -> F {
        F(a.0.min(b.0))
    }

    fn max(a: F, b: F) -> F {
        F(a.0.max(b.0))
    }

    fn abs(a: F) -> F {
        F(a.0.abs())
    }

    fn signum(a: F) -> F {
        F(a.0.signum())
    }

    fn ratio(num: i64, den: i64) -> F {
        F(num as f64 / den as f64)
    }

    fn pi() -> F {
        F(std::f64::consts::PI)
    }

    fn sin(a: F) -> F {
        F(a.0.sin())
    }

    fn cos(a: F) -> F {
        F(a.0.cos())
    }

    fn tan(a: F) -> F {
        F(a.0.tan())
    }

    fn pow(a: F, b: F) -> F {
        F(a.0.powf(b.0))
    }

    fn index(a: F) -> usize {
        a.0 as usize
    }

    fn wrap(a: F, len: F) -> F {
        let mut p = a.0;
        if len.0 > 0.0 {
            while p >= len.0 {
                p -= len.0;
            }
        }
        F(p)
    }

    fn unit(u: u64) -> F {
        F((u >> 11) as f64 / 9007199254740992.0)
    }
}

fn render(v: &mut Value<F>, env: &Env, bank: &mut Bank<F>, n: usize) -> Vec<f64> {
    let mut buf = vec![F(0.0); n];
    v.fill_buffer(env, bank, &mut buf, n);
    buf.into_iter().map(|s| s.0).collect()
}

#[test]
fn rlpf_recomputes_once_for_constant_controls() {
    let mut bank: Bank<F> = Bank::new();
    let mut env = Env::new(44100);
    let f = RLPF::new(
        WaveTableSynth::sin(Value::constant(F(440.0))).value(),
        Value::constant(F(1000.0)),
        Value::constant(F(2.0)),
    );
    let mut v = f.value();
    assert_eq!(v.recomputations(), Some(0));
    for _ in 0..5 {
        let _ = render(&mut v, &env, &mut bank, 64);
        env.time += 64 * 1_000_000_000 / 44100;
    }
    assert_eq!(v.recomputations(), Some(1));
}

#[test]
fn rlpf_matches_hand_computed_biquad() {
    let mut bank: Bank<F> = Bank::new();
    let env = Env::new(44100);
    let cutoff = 1000.0f64;
    let f = RLPF::new(
        Value::constant(F(0.25)),
        Value::constant(F(cutoff)),
        Value::constant(F(2.0)),
    );
    let mut v = f.value();
    let out = render(&mut v, &env, &mut bank, 128);

    let pfreq = std::f64::consts::PI * cutoff / 44100.0;
    let d = pfreq.tan();
    let c = (1.0 - d) / (1.0 + d);
    let cosf = pfreq.cos();
    let b1 = (1.0 + c) * cosf;
    let b2 = -c;
    let a0 = (1.0 + c - b1) * 0.25;
    let mut y1 = 0.0f64;
    let mut y2 = 0.0f64;
    for i in 0..128 {
        let y0 = 0.25 * a0 + y1 * b1 + y2 * b2;
        let expect = y0 + y1 * 2.0 + y2;
        assert_eq!(out[i], expect);
        y2 = y1;
        y1 = y0;
    }
}

#[test]
fn reverb_instances_render_identically() {
    let args = (0.5f64, 0.01f64, 2000.0f64, 1.5f64);
    let mut first: Vec<f64> = Vec::new();
    let mut second: Vec<f64> = Vec::new();
    for pass in 0..2 {
        let mut bank: Bank<F> = Bank::new();
        let mut env = Env::new(44100);
        let input = WaveTableSynth::sin(Value::constant(F(440.0))).value();
        let r = Reverb::new(&mut bank, input, F(args.0), F(args.1), F(args.2), F(args.3));
        let mut v = r.value();
        let mut all: Vec<f64> = Vec::new();
        for _ in 0..3 {
            let mut chunk = render(&mut v, &env, &mut bank, 256);
            all.append(&mut chunk);
            env.time += 256 * 1_000_000_000 / 44100;
        }
        if pass == 0 {
            first = all;
        } else {
            second = all;
        }
    }
    assert_eq!(first.len(), 768);
    for i in 0..first.len() {
        assert!(first[i] == second[i]);
    }
}

#[test]
fn shared_white_noise_sum_is_exactly_double() {
    let mut bank: Bank<F> = Bank::new();
    let env = Env::new(44100);
    let shared = CacheValue::new(&mut bank, WhiteNoise::new().value());
    let mut single = shared.clone().value();
    let once = render(&mut single, &env, &mut bank, 64);
    let mut pair = shared.clone().value().add(shared.value());
    let doubled = render(&mut pair, &env, &mut bank, 64);
    for i in 0..64 {
        assert!(doubled[i] == 2.0 * once[i]);
        assert!(once[i] >= -1.0 && once[i] < 1.0);
    }
}

#[test]
fn enveloped_sine_reproduces_the_wavetable() {
    let mut bank: Bank<F> = Bank::new();
    let mut env = Env::new(44100);
    let e = ADSR::new()
        .attack(F(0.0))
        .decay(F(0.0))
        .sustain(F(1.0))
        .duration(F(1.0))
        .release(F(0.0))
        .curve(F(1.0));
    let mut v = WaveTableSynth::sin(Value::constant(F(440.0))).value().mul(e.value());
    let mut all: Vec<f64> = Vec::new();
    for _ in 0..100 {
        let mut chunk = render(&mut v, &env, &mut bank, 441);
        all.append(&mut chunk);
        env.time += 441 * 1_000_000_000 / 44100;
    }
    assert_eq!(all.len(), 44100);

    let table: Vec<f64> = (0..512)
        .map(|i| (i as f64 * (std::f64::consts::PI * 2.0 / 512.0)).sin())
        .collect();
    let mut pos = 0.0f64;
    let mut peak = 0.0f64;
    let mut energy = 0.0f64;
    for i in 0..44100 {
        let expect = table[pos as usize];
        assert!(all[i] == expect);
        pos += 512.0 / 44100.0 * 440.0;
        while pos >= 512.0 {
            pos -= 512.0;
        }
        peak = peak.max(all[i].abs());
        energy += all[i] * all[i];
    }
    let rms = (energy / 44100.0).sqrt();
    assert!((rms - peak / 2.0f64.sqrt()).abs() < 0.01 * peak);
}

#[test]
fn bundler_pairs_two_channels() {
    let mut bank: Bank<F> = Bank::new();
    let env = Env::new(44100);
    let mut b = Bundler(Value::constant(F(0.25)), Value::constant(F(-0.5)));
    let mut buf = vec![MultiSample(F(0.0), F(0.0)); 8];
    b.fill_buffer(&env, &mut bank, &mut buf, 8);
    for frame in buf {
        assert_eq!(frame.0.0, 0.25);
        assert_eq!(frame.1.0, -0.5);
    }
}

#[test]
fn hass_shift_delays_one_side() {
    let mut bank: Bank<F> = Bank::new();
    let env = Env::new(44100);
    let mut b = hass_shift(&mut bank, Value::constant(F(0.5)), F(0.01));
    let mut buf = vec![MultiSample(F(0.0), F(0.0)); 500];
    b.fill_buffer(&env, &mut bank, &mut buf, 500);
    for i in 0..500 {
        assert_eq!(buf[i].0.0, 0.5);
        if i < 441 {
            assert_eq!(buf[i].1.0, 0.0);
        } else {
            assert_eq!(buf[i].1.0, 0.5);
        }
    }
}

#[test]
fn driven_string_instances_agree() {
    let mut first: Vec<f64> = Vec::new();
    let mut second: Vec<f64> = Vec::new();
    for pass in 0..2 {
        let mut bank: Bank<F> = Bank::new();
        let env = Env::new(44100);
        let d = DrivenString::new(&mut bank, Value::constant(F(220.0)));
        let mut v = d.value();
        let out = render(&mut v, &env, &mut bank, 64);
        if pass == 0 {
            first = out;
        } else {
            second = out;
        }
    }
    for i in 0..64 {
        assert!(first[i] == second[i]);
    }
}

#[test]
fn old_timeify_renders() {
    let mut bank: Bank<F> = Bank::new();
    let env = Env::new(44100);
    let mut v = old_timeify(
        WaveTableSynth::sin(Value::constant(F(440.0))).value(),
        F(2.0),
    );
    let out = render(&mut v, &env, &mut bank, 64);
    assert_eq!(out.len(), 64);
    for s in out {
        assert!(s.is_finite());
    }
}

#[test]
fn svf_recomputes_once_for_constant_controls() {
    let mut bank: Bank<F> = Bank::new();
    let mut env = Env::new(44100);
    let f = TrapezoidSVF::low_pass(
        Value::constant(F(0.25)),
        Value::constant(F(1000.0)),
        Value::constant(F(0.7)),
    );
    let mut v = f.value();
    assert_eq!(v.recomputations(), Some(0));
    for _ in 0..4 {
        let _ = render(&mut v, &env, &mut bank, 32);
        env.time += 32 * 1_000_000_000 / 44100;
    }
    assert_eq!(v.recomputations(), Some(1));
}
