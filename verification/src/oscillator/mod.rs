//! Oscillators and noise sources: the wavetable synthesizer with its
//! band-limited tables, and white, impulse and brownian noise driven by a
//! seeded xorshift generator.

use vstd::prelude::*;
use crate::sample::Sample;
use crate::value::{Node, NodeModel, Value, ValueNode};

pub mod string;

verus! {

/// One xorshift step of the noise generator's 64-bit state.
pub open spec fn sp_prng_next(s: u64) -> u64 {
    let a = s ^ (s << 13);
    let b = a ^ (a >> 7);
    b ^ (b << 17)
}

/// One xorshift step, executably.
pub(crate) fn prng_next(s: u64) -> (r: u64)
    ensures
        r == sp_prng_next(s),
{
    let a = s ^ (s << 13u64);
    let b = a ^ (a >> 7u64);
    b ^ (b << 17u64)
}

/// Relies on rand::random: draws a fresh 64-bit seed for a noise source;
/// nothing is promised of its value.
#[verifier::external_body]
fn random_seed() -> u64 {
    rand::random::<u64>()
}

/// The first table whose registered cap frequency reaches `f`, starting
/// the scan at `j`; the last table when none does.
pub open spec fn table_sel_from<T: Sample>(tables: Seq<(T, Seq<T>)>, f: T, j: int) -> int
    decreases tables.len() - j,
{
    if j >= tables.len() - 1 {
        tables.len() - 1
    } else if T::sp_le(f, tables[j].0) {
        j
    } else {
        table_sel_from(tables, f, j + 1)
    }
}

/// One oscillator sample: read the selected table at the truncated
/// position, then advance the position by `(table length / sample rate) ·
/// frequency` and wrap it into the table.
pub open spec fn osc_step<T: Sample>(tables: Seq<(T, Seq<T>)>, pos: T, f: T, sample_rate: u32) -> (
    T,
    T,
) {
    if tables.len() == 0 {
        (T::sp_zero(), pos)
    } else {
        let table = tables[table_sel_from(tables, f, 0)].1;
        let out = if table.len() == 0 {
            T::sp_zero()
        } else {
            table[T::sp_index(pos) as int % table.len() as int]
        };
        let len_t = T::sp_ratio(table.len() as i64, 1);
        let p1 = T::sp_add(
            pos,
            T::sp_mul(T::sp_div(len_t, T::sp_ratio(sample_rate as i64, 1)), f),
        );
        (out, T::sp_wrap(p1, len_t))
    }
}

/// The oscillator's position after the first `i` samples.
pub open spec fn osc_pos_at<T: Sample>(
    tables: Seq<(T, Seq<T>)>,
    pos0: T,
    fs: Seq<T>,
    sample_rate: u32,
    i: nat,
) -> T
    decreases i,
{
    if i == 0 {
        pos0
    } else {
        osc_step(tables, osc_pos_at(tables, pos0, fs, sample_rate, (i - 1) as nat), fs[i - 1], sample_rate).1
    }
}

/// Everything the oscillator emits for the given frequency buffer.
pub open spec fn osc_outs<T: Sample>(
    tables: Seq<(T, Seq<T>)>,
    pos0: T,
    fs: Seq<T>,
    sample_rate: u32,
) -> Seq<T> {
    Seq::new(
        fs.len(),
        |i: int| osc_step(tables, osc_pos_at(tables, pos0, fs, sample_rate, i as nat), fs[i], sample_rate).0,
    )
}

/// The ghost image of a table family.
pub open spec fn tables_model<T: Sample>(tables: Seq<(T, Vec<T>)>) -> Seq<(T, Seq<T>)> {
    tables.map_values(|p: (T, Vec<T>)| (p.0, p.1@))
}

/// Runs the oscillator over a whole frequency buffer.
pub(crate) fn osc_run<T: Sample>(
    tables: &Vec<(T, Vec<T>)>,
    pos: &mut T,
    fs: &Vec<T>,
    sample_rate: u32,
) -> (out: Vec<T>)
    ensures
        *final(pos) == osc_pos_at(tables_model(tables@), *old(pos), fs@, sample_rate, fs@.len() as nat),
        out@ == osc_outs(tables_model(tables@), *old(pos), fs@, sample_rate),
{
    let ghost tm = tables_model(tables@);
    let mut out: Vec<T> = Vec::new();
    let mut i: usize = 0;
    while i < fs.len()
        invariant
            i <= fs@.len(),
            tm == tables_model(tables@),
            *pos == osc_pos_at(tm, *old(pos), fs@, sample_rate, i as nat),
            out@.len() == i,
            forall|j: int| 0 <= j < i ==> out@[j] == osc_outs(tm, *old(pos), fs@, sample_rate)[j],
        decreases fs@.len() - i,
    {
        let f = fs[i];
        if tables.len() == 0 {
            out.push(T::zero());
        } else {
            let mut sel: usize = 0;
            while sel < tables.len() - 1 && !T::le(f, tables[sel].0)
                invariant
                    0 < tables@.len(),
                    sel < tables@.len(),
                    tm == tables_model(tables@),
                    table_sel_from(tm, f, 0) == table_sel_from(tm, f, sel as int),
                decreases tables@.len() - sel,
            {
                sel = sel + 1;
            }
            proof {
                assert(table_sel_from(tm, f, 0) == sel as int);
            }
            let table = &tables[sel].1;
            let y = if table.len() == 0 {
                T::zero()
            } else {
                let idx = T::index(*pos) % table.len();
                table[idx]
            };
            let len_t = T::ratio(#[verifier::truncate] (table.len() as i64), 1);
            let p1 = T::add(*pos, T::mul(T::div(len_t, T::ratio(sample_rate as i64, 1)), f));
            *pos = T::wrap(p1, len_t);
            out.push(y);
        }
        i = i + 1;
    }
    proof {
        assert(out@ =~= osc_outs(tm, *old(pos), fs@, sample_rate));
    }
    out
}

/// One white-noise sample: a fresh draw scaled to `[-1, 1)`.
pub open spec fn white_step<T: Sample>(s: u64) -> (u64, T) {
    let u = sp_prng_next(s);
    (u, T::sp_sub(T::sp_mul(T::sp_unit(u), T::sp_ratio(2, 1)), T::sp_one()))
}

/// The white-noise state after `i` samples.
pub open spec fn white_state_at(s0: u64, i: nat) -> u64
    decreases i,
{
    if i == 0 {
        s0
    } else {
        sp_prng_next(white_state_at(s0, (i - 1) as nat))
    }
}

/// Everything the white-noise source emits over `count` samples.
pub open spec fn white_outs<T: Sample>(s0: u64, count: nat) -> Seq<T> {
    Seq::new(count, |i: int| white_step::<T>(white_state_at(s0, i as nat)).1)
}

/// Runs the white-noise source for `count` samples.
pub(crate) fn white_run<T: Sample>(s: &mut u64, count: usize) -> (out: Vec<T>)
    ensures
        *final(s) == white_state_at(*old(s), count as nat),
        out@ == white_outs::<T>(*old(s), count as nat),
{
    let mut out: Vec<T> = Vec::new();
    let mut i: usize = 0;
    while i < count
        invariant
            i <= count,
            *s == white_state_at(*old(s), i as nat),
            out@.len() == i,
            forall|j: int| 0 <= j < i ==> out@[j] == white_outs::<T>(*old(s), count as nat)[j],
        decreases count - i,
    {
        let u = prng_next(*s);
        *s = u;
        out.push(T::sub(T::mul(T::unit(u), T::ratio(2, 1)), T::one()));
        i = i + 1;
    }
    proof {
        assert(out@ =~= white_outs::<T>(*old(s), count as nat));
    }
    out
}

/// One impulse sample: one with probability `freq / sample rate`, else
/// zero.
pub open spec fn impulse_step<T: Sample>(s: u64, freq: T, sample_rate: u32) -> (u64, T) {
    let u = sp_prng_next(s);
    let v = if T::sp_lt(T::sp_unit(u), T::sp_div(freq, T::sp_ratio(sample_rate as i64, 1))) {
        T::sp_one()
    } else {
        T::sp_zero()
    };
    (u, v)
}

/// Everything the impulse source emits over `count` samples.
pub open spec fn impulse_outs<T: Sample>(s0: u64, freq: T, sample_rate: u32, count: nat) -> Seq<
    T,
> {
    Seq::new(count, |i: int| impulse_step::<T>(white_state_at(s0, i as nat), freq, sample_rate).1)
}

/// Runs the impulse source for `count` samples.
pub(crate) fn impulse_run<T: Sample>(s: &mut u64, freq: T, sample_rate: u32, count: usize) -> (out:
    Vec<T>)
    ensures
        *final(s) == white_state_at(*old(s), count as nat),
        out@ == impulse_outs::<T>(*old(s), freq, sample_rate, count as nat),
{
    let mut out: Vec<T> = Vec::new();
    let mut i: usize = 0;
    while i < count
        invariant
            i <= count,
            *s == white_state_at(*old(s), i as nat),
            out@.len() == i,
            forall|j: int|
                0 <= j < i ==> out@[j] == impulse_outs::<T>(*old(s), freq, sample_rate, count as nat)[j],
        decreases count - i,
    {
        let u = prng_next(*s);
        *s = u;
        let v = if T::lt(T::unit(u), T::div(freq, T::ratio(sample_rate as i64, 1))) {
            T::one()
        } else {
            T::zero()
        };
        out.push(v);
        i = i + 1;
    }
    proof {
        assert(out@ =~= impulse_outs::<T>(*old(s), freq, sample_rate, count as nat));
    }
    out
}

/// One brownian sample: with probability `freq / sample rate`, take a
/// bounded random step and clamp the level to `[-1, 1]`; always emit the
/// current level.
pub open spec fn brownian_step<T: Sample>(cur: T, s: u64, f: T, w: T, sample_rate: u32) -> (
    T,
    u64,
) {
    let u1 = sp_prng_next(s);
    if T::sp_lt(T::sp_unit(u1), T::sp_div(f, T::sp_ratio(sample_rate as i64, 1))) {
        let wig = T::sp_max(w, T::sp_ratio(1, 100000));
        let u2 = sp_prng_next(u1);
        let step = T::sp_sub(T::sp_mul(T::sp_unit(u2), T::sp_mul(T::sp_ratio(2, 1), wig)), wig);
        let next = T::sp_max(T::sp_min(T::sp_add(cur, step), T::sp_one()), T::sp_neg(T::sp_one()));
        (next, u2)
    } else {
        (cur, u1)
    }
}

/// The brownian level and draw state after the first `i` samples.
pub open spec fn brownian_state_at<T: Sample>(
    cur0: T,
    s0: u64,
    fs: Seq<T>,
    ws: Seq<T>,
    sample_rate: u32,
    i: nat,
) -> (T, u64)
    decreases i,
{
    if i == 0 {
        (cur0, s0)
    } else {
        let prev = brownian_state_at(cur0, s0, fs, ws, sample_rate, (i - 1) as nat);
        brownian_step(prev.0, prev.1, fs[i - 1], ws[i - 1], sample_rate)
    }
}

/// Everything the brownian source emits for the given control buffers.
pub open spec fn brownian_outs<T: Sample>(
    cur0: T,
    s0: u64,
    fs: Seq<T>,
    ws: Seq<T>,
    sample_rate: u32,
) -> Seq<T> {
    Seq::new(
        fs.len(),
        |i: int|
            {
                let prev = brownian_state_at(cur0, s0, fs, ws, sample_rate, i as nat);
                brownian_step(prev.0, prev.1, fs[i], ws[i], sample_rate).0
            },
    )
}

/// Runs the brownian source over whole control buffers.
pub(crate) fn brownian_run<T: Sample>(
    cur: &mut T,
    s: &mut u64,
    fs: &Vec<T>,
    ws: &Vec<T>,
    sample_rate: u32,
) -> (out: Vec<T>)
    requires
        fs@.len() == ws@.len(),
    ensures
        (*final(cur), *final(s)) == brownian_state_at(
            *old(cur),
            *old(s),
            fs@,
            ws@,
            sample_rate,
            fs@.len() as nat,
        ),
        out@ == brownian_outs(*old(cur), *old(s), fs@, ws@, sample_rate),
{
    let mut out: Vec<T> = Vec::new();
    let mut i: usize = 0;
    while i < fs.len()
        invariant
            i <= fs@.len(),
            fs@.len() == ws@.len(),
            (*cur, *s) == brownian_state_at(*old(cur), *old(s), fs@, ws@, sample_rate, i as nat),
            out@.len() == i,
            forall|j: int|
                0 <= j < i ==> out@[j] == brownian_outs(*old(cur), *old(s), fs@, ws@, sample_rate)[j],
        decreases fs@.len() - i,
    {
        let u1 = prng_next(*s);
        if T::lt(T::unit(u1), T::div(fs[i], T::ratio(sample_rate as i64, 1))) {
            let wig = T::max(ws[i], T::ratio(1, 100000));
            let u2 = prng_next(u1);
            let step = T::sub(T::mul(T::unit(u2), T::mul(T::ratio(2, 1), wig)), wig);
            *cur = T::max(T::min(T::add(*cur, step), T::one()), T::neg(T::one()));
            *s = u2;
        } else {
            *s = u1;
        }
        out.push(*cur);
        i = i + 1;
    }
    proof {
        assert(out@ =~= brownian_outs(*old(cur), *old(s), fs@, ws@, sample_rate));
    }
    out
}

/// The sine table: one period of the scalar's sine over 512 slots, with a
/// registered cap of 2200.
pub open spec fn sine_table<T: Sample>() -> Seq<T> {
    Seq::new(
        512,
        |i: int|
            T::sp_sin(
                T::sp_mul(
                    T::sp_ratio(i as i64, 1),
                    T::sp_div(T::sp_mul(T::sp_pi(), T::sp_ratio(2, 1)), T::sp_ratio(512, 1)),
                ),
            ),
    )
}

/// The square table over 512 slots: each slot compares its index, scaled
/// by the sine of one slot's angle, against zero, with a cap of 22000.
pub open spec fn square_table<T: Sample>() -> Seq<T> {
    Seq::new(
        512,
        |i: int|
            if T::sp_lt(
                T::sp_zero(),
                T::sp_mul(
                    T::sp_ratio(i as i64, 1),
                    T::sp_sin(
                        T::sp_div(T::sp_mul(T::sp_pi(), T::sp_ratio(2, 1)), T::sp_ratio(512, 1)),
                    ),
                ),
            ) {
                T::sp_one()
            } else {
                T::sp_neg(T::sp_one())
            },
    )
}

/// The sum of the first `p` saw partials at slot `i` of a table capped at
/// partial `m`: additive synthesis with amplitude `1/p` per partial, half
/// scale.
pub open spec fn saw_partial_sum<T: Sample>(i: int, p: nat) -> T
    decreases p,
{
    if p == 0 {
        T::sp_zero()
    } else {
        let prev = saw_partial_sum::<T>(i, (p - 1) as nat);
        let angle = T::sp_mul(
            T::sp_mul(
                T::sp_div(T::sp_mul(T::sp_ratio(2, 1), T::sp_pi()), T::sp_ratio(512, 1)),
                T::sp_ratio(p as i64, 1),
            ),
            T::sp_ratio(i as i64, 1),
        );
        T::sp_add(
            prev,
            T::sp_mul(
                T::sp_mul(T::sp_sin(angle), T::sp_div(T::sp_one(), T::sp_ratio(p as i64, 1))),
                T::sp_ratio(1, 2),
            ),
        )
    }
}

/// One band-limited saw table for cap partial `m`, reversed as stored.
pub open spec fn saw_table<T: Sample>(m: nat) -> Seq<T> {
    Seq::new(512, |i: int| saw_partial_sum::<T>(511 - i, (m - 1) as nat))
}

/// The registered cap frequency of the saw table with cap partial `m`.
pub open spec fn saw_cap<T: Sample>(m: nat) -> T {
    T::sp_div(
        T::sp_ratio(1944810000, 1),
        T::sp_mul(T::sp_mul(T::sp_ratio(2, 1), T::sp_ratio(m as i64, 1)), T::sp_ratio(512, 1)),
    )
}

/// The saw family: eleven tables whose cap partial doubles from 15 up,
/// stored with the smallest cap frequency first.
pub open spec fn saw_tables<T: Sample>() -> Seq<(T, Seq<T>)> {
    Seq::new(11, |j: int| (saw_cap::<T>(saw_m(j)), saw_table::<T>(saw_m(j))))
}

/// The cap partial of the `j`-th stored saw table: `15 · 2^(10-j)`, the
/// doubling family from 15 partials up to 15360, largest first.
pub open spec fn saw_m(j: int) -> nat {
    if j == 0 {
        15360
    } else if j == 1 {
        7680
    } else if j == 2 {
        3840
    } else if j == 3 {
        1920
    } else if j == 4 {
        960
    } else if j == 5 {
        480
    } else if j == 6 {
        240
    } else if j == 7 {
        120
    } else if j == 8 {
        60
    } else if j == 9 {
        30
    } else {
        15
    }
}

/// The cap partial of the `j`-th stored saw table, executably.
fn saw_m_run(j: usize) -> (m: i64)
    requires
        j < 11,
    ensures
        m as nat == saw_m(j as int),
        1 <= m <= 15360,
{
    if j == 0 {
        15360
    } else if j == 1 {
        7680
    } else if j == 2 {
        3840
    } else if j == 3 {
        1920
    } else if j == 4 {
        960
    } else if j == 5 {
        480
    } else if j == 6 {
        240
    } else if j == 7 {
        120
    } else if j == 8 {
        60
    } else if j == 9 {
        30
    } else {
        15
    }
}

/// Builds one slot of the sine table.
fn sine_entry<T: Sample>(i: usize) -> (r: T)
    requires
        i < 512,
    ensures
        r == sine_table::<T>()[i as int],
{
    T::sin(
        T::mul(
            T::ratio(i as i64, 1),
            T::div(T::mul(T::pi(), T::ratio(2, 1)), T::ratio(512, 1)),
        ),
    )
}

/// A wavetable oscillator: a family of band-limited tables, a read
/// position, and the frequency control graph that drives table selection
/// and the position increment.
///
/// Each constructor builds its table family afresh — there is no
/// process-wide table store — so a session creating many saw oscillators
/// pays the additive synthesis once per constructor call.
pub struct WaveTableSynth<T: Sample> {
    pub frequency: Value<T>,
    pub tables: Vec<(T, Vec<T>)>,
    pub position: T,
}

impl<T: Sample> WaveTableSynth<T> {
    /// A sine oscillator over one full-resolution table.
    pub fn sin(frequency: Value<T>) -> (w: WaveTableSynth<T>)
        ensures
            w.frequency == frequency,
            tables_model(w.tables@) == seq![(T::sp_ratio(2200, 1), sine_table::<T>())],
            w.position == T::sp_zero(),
    {
        let mut table: Vec<T> = Vec::new();
        let mut i: usize = 0;
        while i < 512
            invariant
                i <= 512,
                table@.len() == i,
                forall|j: int| 0 <= j < i ==> table@[j] == sine_table::<T>()[j],
            decreases 512 - i,
        {
            table.push(sine_entry(i));
            i = i + 1;
        }
        proof {
            assert(table@ =~= sine_table::<T>());
        }
        let mut tables: Vec<(T, Vec<T>)> = Vec::new();
        tables.push((T::ratio(2200, 1), table));
        proof {
            assert(tables_model(tables@) =~= seq![(T::sp_ratio(2200, 1), sine_table::<T>())]);
        }
        WaveTableSynth { frequency, tables, position: T::zero() }
    }

    /// A square oscillator over one table.
    pub fn square(frequency: Value<T>) -> (w: WaveTableSynth<T>)
        ensures
            w.frequency == frequency,
            tables_model(w.tables@) == seq![(T::sp_ratio(22000, 1), square_table::<T>())],
            w.position == T::sp_zero(),
    {
        let mut table: Vec<T> = Vec::new();
        let slot_sin = T::sin(T::div(T::mul(T::pi(), T::ratio(2, 1)), T::ratio(512, 1)));
        let mut i: usize = 0;
        while i < 512
            invariant
                i <= 512,
                slot_sin == T::sp_sin(
                    T::sp_div(T::sp_mul(T::sp_pi(), T::sp_ratio(2, 1)), T::sp_ratio(512, 1)),
                ),
                table@.len() == i,
                forall|j: int| 0 <= j < i ==> table@[j] == square_table::<T>()[j],
            decreases 512 - i,
        {
            let v = if T::lt(T::zero(), T::mul(T::ratio(i as i64, 1), slot_sin)) {
                T::one()
            } else {
                T::neg(T::one())
            };
            table.push(v);
            i = i + 1;
        }
        proof {
            assert(table@ =~= square_table::<T>());
        }
        let mut tables: Vec<(T, Vec<T>)> = Vec::new();
        tables.push((T::ratio(22000, 1), table));
        proof {
            assert(tables_model(tables@) =~= seq![(T::sp_ratio(22000, 1), square_table::<T>())]);
        }
        WaveTableSynth { frequency, tables, position: T::zero() }
    }

    /// A band-limited saw oscillator over the full table family.
    pub fn saw(frequency: Value<T>) -> (w: WaveTableSynth<T>)
        ensures
            w.frequency == frequency,
            tables_model(w.tables@) == saw_tables::<T>(),
            w.position == T::sp_zero(),
    {
        let mut tables: Vec<(T, Vec<T>)> = Vec::new();
        let mut j: usize = 0;
        while j < 11
            invariant
                j <= 11,
                tables@.len() == j,
                forall|x: int|
                    0 <= x < j ==> #[trigger] tables_model(tables@)[x] == saw_tables::<T>()[x],
            decreases 11 - j,
        {
            let m: i64 = saw_m_run(j);
            let mut table: Vec<T> = Vec::new();
            let mut i: usize = 0;
            while i < 512
                invariant
                    i <= 512,
                    m as nat == saw_m(j as int),
                    1 <= m <= 15360,
                    table@.len() == i,
                    forall|x: int| 0 <= x < i ==> table@[x] == saw_table::<T>(m as nat)[x],
                decreases 512 - i,
            {
                let slot: usize = 511 - i;
                let mut acc = T::zero();
                let mut p: i64 = 1;
                while p < m
                    invariant
                        1 <= p <= m,
                        m <= 15360,
                        acc == saw_partial_sum::<T>(slot as int, (p - 1) as nat),
                    decreases m - p,
                {
                    let angle = T::mul(
                        T::mul(
                            T::div(T::mul(T::ratio(2, 1), T::pi()), T::ratio(512, 1)),
                            T::ratio(p, 1),
                        ),
                        T::ratio(slot as i64, 1),
                    );
                    acc = T::add(
                        acc,
                        T::mul(
                            T::mul(T::sin(angle), T::div(T::one(), T::ratio(p, 1))),
                            T::ratio(1, 2),
                        ),
                    );
                    p = p + 1;
                }
                table.push(acc);
                i = i + 1;
            }
            proof {
                assert(table@ =~= saw_table::<T>(m as nat));
            }
            let cap = T::div(
                T::ratio(1944810000, 1),
                T::mul(T::mul(T::ratio(2, 1), T::ratio(m, 1)), T::ratio(512, 1)),
            );
            let ghost prev = tables@;
            let ghost new_table = table@;
            tables.push((cap, table));
            proof {
                assert forall|x: int|
                    0 <= x < j + 1 implies #[trigger] tables_model(tables@)[x] == saw_tables::<
                    T,
                >()[x] by {
                    if x < j {
                        assert(tables@[x] == prev[x]);
                        assert(tables_model(prev)[x] == saw_tables::<T>()[x]);
                    } else {
                        assert(tables@[x] == (cap, table));
                        assert(cap == saw_cap::<T>(saw_m(x)));
                        assert(new_table == saw_table::<T>(saw_m(x)));
                    }
                }
            }
            j = j + 1;
        }
        proof {
            assert(tables_model(tables@) =~= saw_tables::<T>());
        }
        WaveTableSynth { frequency, tables, position: T::zero() }
    }
}

impl<T: Sample> ValueNode<T> for WaveTableSynth<T> {
    open spec fn sp_node(self) -> NodeModel<T> {
        NodeModel::Table(Box::new(self.frequency@), tables_model(self.tables@), self.position)
    }

    fn value(self) -> (v: Value<T>) {
        Value { node: Node::Table(Box::new(self.frequency.node), self.tables, self.position) }
    }
}

/// One playback sample: read the recording at the truncated position and
/// advance by the rate; past the end the player emits silence and stops
/// moving.
pub open spec fn player_step<T: Sample>(samples: Seq<T>, pos: T, rate: T) -> (T, T) {
    if T::sp_index(pos) >= samples.len() {
        (T::sp_zero(), pos)
    } else {
        (samples[T::sp_index(pos) as int], T::sp_add(pos, rate))
    }
}

/// The player's position after `i` samples.
pub open spec fn player_pos_at<T: Sample>(samples: Seq<T>, pos0: T, rate: T, i: nat) -> T
    decreases i,
{
    if i == 0 {
        pos0
    } else {
        player_step(samples, player_pos_at(samples, pos0, rate, (i - 1) as nat), rate).1
    }
}

/// Everything the player emits over `count` samples.
pub open spec fn player_outs<T: Sample>(samples: Seq<T>, pos0: T, rate: T, count: nat) -> Seq<T> {
    Seq::new(count, |i: int| player_step(samples, player_pos_at(samples, pos0, rate, i as nat), rate).0)
}

/// Runs the player for `count` samples.
pub(crate) fn player_run<T: Sample>(samples: &Vec<T>, pos: &mut T, rate: T, count: usize) -> (out:
    Vec<T>)
    ensures
        *final(pos) == player_pos_at(samples@, *old(pos), rate, count as nat),
        out@ == player_outs(samples@, *old(pos), rate, count as nat),
{
    let mut out: Vec<T> = Vec::new();
    let mut i: usize = 0;
    while i < count
        invariant
            i <= count,
            *pos == player_pos_at(samples@, *old(pos), rate, i as nat),
            out@.len() == i,
            forall|j: int|
                0 <= j < i ==> out@[j] == player_outs(samples@, *old(pos), rate, count as nat)[j],
        decreases count - i,
    {
        let idx = T::index(*pos);
        if idx >= samples.len() {
            out.push(T::zero());
        } else {
            out.push(samples[idx]);
            *pos = T::add(*pos, rate);
        }
        i = i + 1;
    }
    proof {
        assert(out@ =~= player_outs(samples@, *old(pos), rate, count as nat));
    }
    out
}

/// The comparison key of the nearest-recording choice: the distance from
/// a recording's tagged frequency to the requested one, scaled to
/// ten-thousandths, truncated to an index and capped at the 32-bit range
/// the key narrows to.
pub open spec fn play_key<T: Sample>(f: T, target: T) -> int {
    let k = T::sp_index(T::sp_mul(T::sp_abs(T::sp_sub(f, target)), T::sp_ratio(10000, 1)));
    if k > i32::MAX as usize {
        i32::MAX as int
    } else {
        k as int
    }
}

/// Picks the recording whose tagged frequency lies closest to the
/// requested one: the first index with the least playback key. `None`
/// only for an empty set.
pub fn nearest_recording<T: Sample>(freqs: &Vec<T>, target: T) -> (r: Option<usize>)
    ensures
        match r {
            Some(i) => {
                &&& (i as int) < freqs@.len()
                &&& forall|j: int|
                    0 <= j < freqs@.len() ==> play_key(freqs@[i as int], target) <= play_key(
                        #[trigger] freqs@[j],
                        target,
                    )
                &&& forall|j: int|
                    0 <= j < i ==> play_key(#[trigger] freqs@[j], target) > play_key(
                        freqs@[i as int],
                        target,
                    )
            },
            None => freqs@.len() == 0,
        },
{
    if freqs.len() == 0 {
        return None;
    }
    let mut best: usize = 0;
    let mut best_key: usize = capped_key(freqs[0], target);
    let mut j: usize = 1;
    while j < freqs.len()
        invariant
            freqs@.len() > 0,
            best < j,
            j <= freqs@.len(),
            best_key as int == play_key(freqs@[best as int], target),
            forall|m: int|
                0 <= m < j ==> play_key(freqs@[best as int], target) <= play_key(
                    #[trigger] freqs@[m],
                    target,
                ),
            forall|m: int|
                0 <= m < best ==> play_key(#[trigger] freqs@[m], target) > play_key(
                    freqs@[best as int],
                    target,
                ),
        decreases freqs@.len() - j,
    {
        let k = capped_key(freqs[j], target);
        if k < best_key {
            best = j;
            best_key = k;
        }
        j = j + 1;
    }
    Some(best)
}

/// Computes one playback key.
fn capped_key<T: Sample>(f: T, target: T) -> (k: usize)
    ensures
        k as int == play_key(f, target),
{
    let raw = T::index(T::mul(T::abs(T::sub(f, target)), T::ratio(10000, 1)));
    if raw > i32::MAX as usize {
        i32::MAX as usize
    } else {
        raw
    }
}

/// Plays a fixed recording at a resampling rate, then falls silent.
pub struct Sampler<T: Sample> {
    pub samples: Vec<T>,
    pub pos: T,
    pub rate: T,
}

impl<T: Sample> Sampler<T> {
    /// A player over the recording, starting at its beginning.
    pub fn new(samples: Vec<T>, rate: T) -> (s: Sampler<T>)
        ensures
            s.samples@ == samples@,
            s.pos == T::sp_zero(),
            s.rate == rate,
    {
        Sampler { samples, pos: T::zero(), rate }
    }
}

impl<T: Sample> ValueNode<T> for Sampler<T> {
    open spec fn sp_node(self) -> NodeModel<T> {
        NodeModel::Player(self.samples@, self.pos, self.rate)
    }

    fn value(self) -> (v: Value<T>) {
        Value { node: Node::Player(self.samples, self.pos, self.rate) }
    }
}

/// A white-noise source: one fresh uniform draw in `[-1, 1)` per sample.
pub struct WhiteNoise {
    pub seed: u64,
}

impl WhiteNoise {
    /// A white-noise source with a freshly drawn seed.
    pub fn new() -> WhiteNoise {
        WhiteNoise { seed: random_seed() }
    }
}

impl<T: Sample> ValueNode<T> for WhiteNoise {
    open spec fn sp_node(self) -> NodeModel<T> {
        NodeModel::White(self.seed)
    }

    fn value(self) -> (v: Value<T>) {
        Value { node: Node::White(self.seed) }
    }
}

/// An impulse source: a unit spike with probability `freq / sample rate`
/// per sample.
pub struct Impulses<T: Sample> {
    pub freq: T,
    pub seed: u64,
}

impl<T: Sample> Impulses<T> {
    /// An impulse source of the given expected rate, freshly seeded.
    pub fn new(freq: T) -> (r: Impulses<T>)
        ensures
            r.freq == freq,
    {
        Impulses { freq, seed: random_seed() }
    }
}

impl<T: Sample> ValueNode<T> for Impulses<T> {
    open spec fn sp_node(self) -> NodeModel<T> {
        NodeModel::Impulses(self.freq, self.seed)
    }

    fn value(self) -> (v: Value<T>) {
        Value { node: Node::Impulses(self.freq, self.seed) }
    }
}

/// A brownian noise source: a level that takes bounded random steps at a
/// controlled rate, clamped to `[-1, 1]`.
pub struct BrownianNoise<T: Sample> {
    pub freq: Value<T>,
    pub wiggle: Value<T>,
    pub current: T,
    pub seed: u64,
}

impl<T: Sample> BrownianNoise<T> {
    /// A brownian source whose step rate and step bound are graphs,
    /// starting level zero, freshly seeded.
    pub fn new(freq: Value<T>, wiggle: Value<T>) -> (r: BrownianNoise<T>)
        ensures
            r.freq == freq,
            r.wiggle == wiggle,
            r.current == T::sp_zero(),
    {
        BrownianNoise { freq, wiggle, current: T::zero(), seed: random_seed() }
    }
}

impl<T: Sample> ValueNode<T> for BrownianNoise<T> {
    open spec fn sp_node(self) -> NodeModel<T> {
        NodeModel::Brownian(Box::new(self.freq@), Box::new(self.wiggle@), self.current, self.seed)
    }

    fn value(self) -> (v: Value<T>) {
        Value {
            node: Node::Brownian(
                Box::new(self.freq.node),
                Box::new(self.wiggle.node),
                self.current,
                self.seed,
            ),
        }
    }
}

} // verus!
