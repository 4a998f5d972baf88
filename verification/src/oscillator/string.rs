//! String models: the Karplus-Strong plucked string and a bowed string
//! built from the crate's own oscillators and filters.

use vstd::prelude::*;
use crate::sample::Sample;
use crate::filter::TrapezoidSVF;
use crate::value::{Bank, CacheValue, Node, NodeModel, Value, ValueNode, refs_ok};
use super::{WaveTableSynth, prng_next, random_seed};

verus! {

/// One plucked-string sample: blend the tap under the read position with
/// the previous output, write the blend back into the ring, and emit it
/// scaled by the body gain. An empty ring stays silent.
pub open spec fn pluck_step<T: Sample>(
    buf: Seq<T>,
    smoothing: T,
    amp: T,
    prev: T,
    pos: usize,
) -> (Seq<T>, T, usize, T) {
    if buf.len() == 0 || pos >= buf.len() {
        (buf, prev, pos, T::sp_zero())
    } else {
        let sample = T::sp_add(
            T::sp_mul(smoothing, buf[pos as int]),
            T::sp_mul(T::sp_sub(T::sp_one(), smoothing), prev),
        );
        let pos2 = if pos + 1 == buf.len() {
            0
        } else {
            (pos + 1) as usize
        };
        (buf.update(pos as int, sample), sample, pos2, T::sp_mul(sample, amp))
    }
}

/// The plucked string's ring, previous output and position after `i`
/// samples.
pub open spec fn pluck_state_at<T: Sample>(
    buf0: Seq<T>,
    smoothing: T,
    amp: T,
    prev0: T,
    pos0: usize,
    i: nat,
) -> (Seq<T>, T, usize)
    decreases i,
{
    if i == 0 {
        (buf0, prev0, pos0)
    } else {
        let s = pluck_state_at(buf0, smoothing, amp, prev0, pos0, (i - 1) as nat);
        let n = pluck_step(s.0, smoothing, amp, s.1, s.2);
        (n.0, n.1, n.2)
    }
}

/// Everything the plucked string emits over `count` samples.
pub open spec fn pluck_outs<T: Sample>(
    buf0: Seq<T>,
    smoothing: T,
    amp: T,
    prev0: T,
    pos0: usize,
    count: nat,
) -> Seq<T> {
    Seq::new(
        count,
        |i: int|
            {
                let s = pluck_state_at(buf0, smoothing, amp, prev0, pos0, i as nat);
                pluck_step(s.0, smoothing, amp, s.1, s.2).3
            },
    )
}

/// Runs the plucked string for `count` samples.
pub(crate) fn pluck_run<T: Sample>(
    buf: &mut Vec<T>,
    smoothing: T,
    amp: T,
    prev: &mut T,
    pos: &mut usize,
    count: usize,
) -> (out: Vec<T>)
    ensures
        ({
            let s = pluck_state_at(old(buf)@, smoothing, amp, *old(prev), *old(pos), count as nat);
            &&& final(buf)@ == s.0
            &&& *final(prev) == s.1
            &&& *final(pos) == s.2
            &&& out@ == pluck_outs(old(buf)@, smoothing, amp, *old(prev), *old(pos), count as nat)
        }),
{
    let mut out: Vec<T> = Vec::new();
    let mut i: usize = 0;
    while i < count
        invariant
            i <= count,
            ({
                let s = pluck_state_at(old(buf)@, smoothing, amp, *old(prev), *old(pos), i as nat);
                &&& buf@ == s.0
                &&& *prev == s.1
                &&& *pos == s.2
            }),
            out@.len() == i,
            forall|j: int|
                0 <= j < i ==> out@[j] == pluck_outs(
                    old(buf)@,
                    smoothing,
                    amp,
                    *old(prev),
                    *old(pos),
                    count as nat,
                )[j],
        decreases count - i,
    {
        if buf.len() == 0 || *pos >= buf.len() {
            out.push(T::zero());
        } else {
            let tap = buf[*pos];
            let sample = T::add(T::mul(smoothing, tap), T::mul(T::sub(T::one(), smoothing), *prev));
            let p = *pos;
            buf[p] = sample;
            *prev = sample;
            *pos = if p + 1 == buf.len() {
                0
            } else {
                p + 1
            };
            out.push(T::mul(sample, amp));
        }
        i = i + 1;
    }
    proof {
        assert(out@ =~= pluck_outs(old(buf)@, smoothing, amp, *old(prev), *old(pos), count as nat));
    }
    out
}

/// A Karplus-Strong plucked string: a ring of random impulses smoothed a
/// little more on every pass, with a body gain that favours higher
/// strings.
pub struct PluckedString<T: Sample> {
    pub buffer: Vec<T>,
    pub smoothing: T,
    pub amp: T,
    pub previous: T,
    pub position: usize,
}

impl<T: Sample> PluckedString<T> {
    /// A freshly plucked string at the given fundamental: the ring is one
    /// period of full-scale noise, each sample either one or minus one.
    pub fn new(freq: T, smoothing: T) -> (p: PluckedString<T>)
        ensures
            p.smoothing == smoothing,
            p.previous == T::sp_zero(),
            p.position == 0,
            p.amp == T::sp_add(
                T::sp_one(),
                T::sp_mul(
                    T::sp_div(
                        T::sp_max(
                            T::sp_sub(T::sp_min(freq, T::sp_ratio(1000, 1)), T::sp_ratio(300, 1)),
                            T::sp_zero(),
                        ),
                        T::sp_ratio(700, 1),
                    ),
                    T::sp_ratio(3, 1),
                ),
            ),
            T::sp_index(freq) > 0 ==> p.buffer@.len() == 44100 as int / T::sp_index(freq) as int,
            forall|i: int|
                0 <= i < p.buffer@.len() ==> #[trigger] p.buffer@[i] == T::sp_one()
                    || p.buffer@[i] == T::sp_neg(T::sp_one()),
    {
        let f = T::index(freq);
        let len: usize = if f == 0 {
            0
        } else {
            44100 / f
        };
        let amp = T::add(
            T::one(),
            T::mul(
                T::div(
                    T::max(T::sub(T::min(freq, T::ratio(1000, 1)), T::ratio(300, 1)), T::zero()),
                    T::ratio(700, 1),
                ),
                T::ratio(3, 1),
            ),
        );
        let mut s = random_seed();
        let mut buffer: Vec<T> = Vec::new();
        let mut i: usize = 0;
        while i < len
            invariant
                i <= len,
                buffer@.len() == i,
                forall|j: int|
                    0 <= j < i ==> #[trigger] buffer@[j] == T::sp_one() || buffer@[j] == T::sp_neg(
                        T::sp_one(),
                    ),
            decreases len - i,
        {
            s = prng_next(s);
            if T::lt(T::unit(s), T::ratio(1, 2)) {
                buffer.push(T::one());
            } else {
                buffer.push(T::neg(T::one()));
            }
            i = i + 1;
        }
        PluckedString { buffer, smoothing, amp, previous: T::zero(), position: 0 }
    }
}

impl<T: Sample> ValueNode<T> for PluckedString<T> {
    open spec fn sp_node(self) -> NodeModel<T> {
        NodeModel::Pluck(self.buffer@, self.smoothing, self.amp, self.previous, self.position)
    }

    fn value(self) -> (v: Value<T>) {
        Value {
            node: Node::Pluck(
                self.buffer,
                self.smoothing,
                self.amp,
                self.previous,
                self.position,
            ),
        }
    }
}

/// The bowed string's graph: a vibrato-bent band-limited saw, shaped by a
/// slow tremolo, cleaned by a highpass and a lowpass, then cached and
/// split through three formant bandpasses whose mean is the output.
pub open spec fn driven_string_model<T: Sample>(base: int, freq: NodeModel<T>) -> NodeModel<T> {
    let shared = NodeModel::Shared::<T>(base as usize);
    let f1 = svf_model(
        crate::filter::FilterType::Band,
        shared,
        T::sp_ratio(400, 1),
        T::sp_ratio(1, 2),
    );
    let f2 = svf_model(
        crate::filter::FilterType::Band,
        shared,
        T::sp_ratio(700, 1),
        T::sp_ratio(1, 2),
    );
    let f3 = svf_model(
        crate::filter::FilterType::Band,
        shared,
        T::sp_ratio(4000, 1),
        T::sp_ratio(2, 5),
    );
    NodeModel::Bin(
        crate::value::BinKind::Div,
        Box::new(
            NodeModel::Bin(
                crate::value::BinKind::Add,
                Box::new(NodeModel::Bin(crate::value::BinKind::Add, Box::new(f1), Box::new(f2))),
                Box::new(f3),
            ),
        ),
        Box::new(NodeModel::Const(T::sp_ratio(3, 1))),
    )
}

/// The cleaned bow signal the bowed string caches in the bank.
pub open spec fn driven_string_bow<T: Sample>(freq: NodeModel<T>) -> NodeModel<T> {
    let vibrato = NodeModel::Table(
        Box::new(NodeModel::Const(T::sp_ratio(8, 1))),
        seq![(T::sp_ratio(2200, 1), super::sine_table::<T>())],
        T::sp_zero(),
    );
    let tremalo = NodeModel::Table(
        Box::new(NodeModel::Const(T::sp_ratio(21, 10))),
        seq![(T::sp_ratio(2200, 1), super::sine_table::<T>())],
        T::sp_zero(),
    );
    let bent = NodeModel::Bin(
        crate::value::BinKind::Add,
        Box::new(freq),
        Box::new(
            NodeModel::Bin(
                crate::value::BinKind::Mul,
                Box::new(vibrato),
                Box::new(NodeModel::Const(T::sp_ratio(3, 1))),
            ),
        ),
    );
    let saw = NodeModel::Table(Box::new(bent), super::saw_tables::<T>(), T::sp_zero());
    let envelope = NodeModel::Bin(
        crate::value::BinKind::Sub,
        Box::new(NodeModel::Const(T::sp_one())),
        Box::new(
            NodeModel::Bin(
                crate::value::BinKind::Div,
                Box::new(
                    NodeModel::Bin(
                        crate::value::BinKind::Add,
                        Box::new(tremalo),
                        Box::new(NodeModel::Const(T::sp_one())),
                    ),
                ),
                Box::new(NodeModel::Const(T::sp_ratio(20, 1))),
            ),
        ),
    );
    let bow = NodeModel::Bin(crate::value::BinKind::Mul, Box::new(saw), Box::new(envelope));
    let high = svf_model(
        crate::filter::FilterType::High,
        bow,
        T::sp_ratio(200, 1),
        T::sp_one(),
    );
    svf_model(
        crate::filter::FilterType::Low,
        high,
        T::sp_ratio(2000, 1),
        T::sp_ratio(5, 1),
    )
}

/// A state-variable filter node with constant controls and a fresh state.
pub open spec fn svf_model<T: Sample>(
    kind: crate::filter::FilterType,
    input: NodeModel<T>,
    frequency: T,
    q: T,
) -> NodeModel<T> {
    NodeModel::Svf(
        Box::new(input),
        Box::new(NodeModel::Const(frequency)),
        Box::new(NodeModel::Const(q)),
        crate::filter::SvfState {
            kind,
            cache: None,
            co: (T::sp_zero(), T::sp_zero(), T::sp_zero(), T::sp_zero()),
            ic1: T::sp_zero(),
            ic2: T::sp_zero(),
            recomputes: 0,
        },
    )
}

/// A bowed string: the formant-filtered mean of three bandpasses over one
/// cached bow signal.
pub struct DrivenString<T: Sample> {
    pub output: Value<T>,
}

impl<T: Sample> DrivenString<T> {
    /// Builds the bowed string around a frequency control graph.
    pub fn new(bank: &mut Bank<T>, freq: Value<T>) -> (d: DrivenString<T>)
        requires
            freq.wf(*old(bank)),
            old(bank).ok(),
        ensures
            final(bank)@ == old(bank)@.push(
                crate::value::EntryModel { node: driven_string_bow(freq@), memo: None },
            ),
            final(bank).ok(),
            d.output@ == driven_string_model::<T>(old(bank)@.len() as int, freq@),
            d.output.wf(*final(bank)),
    {
        let ghost base = old(bank)@.len() as int;
        let vibrato = WaveTableSynth::sin(Value::constant(T::ratio(8, 1))).value();
        let tremalo = WaveTableSynth::sin(Value::constant(T::ratio(21, 10))).value();
        let ghost vib0 = vibrato@;
        let ghost trem0 = tremalo@;
        let vib_scaled = vibrato.mul(Value::constant(T::ratio(3, 1)));
        let bent = freq.add(vib_scaled);
        let saw = WaveTableSynth::saw(bent).value();
        let trem_lift = tremalo.add(Value::constant(T::one()));
        let trem_scaled = trem_lift.div(Value::constant(T::ratio(20, 1)));
        let envelope = Value::constant(T::one()).sub(trem_scaled);
        let bow = saw.mul(envelope);
        let high = TrapezoidSVF::high(
            bow,
            Value::constant(T::ratio(200, 1)),
            Value::constant(T::one()),
        ).value();
        let low = TrapezoidSVF::low_pass(
            high,
            Value::constant(T::ratio(2000, 1)),
            Value::constant(T::ratio(5, 1)),
        ).value();
        proof {
            let vib_m = NodeModel::Table(
                Box::new(NodeModel::Const(T::sp_ratio(8, 1))),
                seq![(T::sp_ratio(2200, 1), super::sine_table::<T>())],
                T::sp_zero(),
            );
            let trem_m = NodeModel::Table(
                Box::new(NodeModel::Const(T::sp_ratio(21, 10))),
                seq![(T::sp_ratio(2200, 1), super::sine_table::<T>())],
                T::sp_zero(),
            );
            assert(vib0 == vib_m);
            assert(trem0 == trem_m);
            assert(vib_scaled@ == NodeModel::Bin(
                crate::value::BinKind::Mul,
                Box::new(vib_m),
                Box::new(NodeModel::Const(T::sp_ratio(3, 1))),
            ));
            assert(trem_lift@ == NodeModel::Bin(
                crate::value::BinKind::Add,
                Box::new(trem_m),
                Box::new(NodeModel::Const(T::sp_one())),
            ));
            assert(trem_scaled@ == NodeModel::Bin(
                crate::value::BinKind::Div,
                Box::new(trem_lift@),
                Box::new(NodeModel::Const(T::sp_ratio(20, 1))),
            ));
            let bent_m = NodeModel::Bin(
                crate::value::BinKind::Add,
                Box::new(freq@),
                Box::new(
                    NodeModel::Bin(
                        crate::value::BinKind::Mul,
                        Box::new(vib_m),
                        Box::new(NodeModel::Const(T::sp_ratio(3, 1))),
                    ),
                ),
            );
            assert(bent@ == bent_m);
            let saw_m = NodeModel::Table(Box::new(bent_m), super::saw_tables::<T>(), T::sp_zero());
            assert(saw@ == saw_m);
            let env_m = NodeModel::Bin(
                crate::value::BinKind::Sub,
                Box::new(NodeModel::Const(T::sp_one())),
                Box::new(
                    NodeModel::Bin(
                        crate::value::BinKind::Div,
                        Box::new(
                            NodeModel::Bin(
                                crate::value::BinKind::Add,
                                Box::new(trem_m),
                                Box::new(NodeModel::Const(T::sp_one())),
                            ),
                        ),
                        Box::new(NodeModel::Const(T::sp_ratio(20, 1))),
                    ),
                ),
            );
            assert(envelope@ == env_m);
            let bow_m = NodeModel::Bin(crate::value::BinKind::Mul, Box::new(saw_m), Box::new(env_m));
            assert(bow@ == bow_m);
            let high_m = svf_model(crate::filter::FilterType::High, bow_m, T::sp_ratio(200, 1), T::sp_one());
            assert(high@ == high_m);
            assert(low@ == driven_string_bow(freq@));
            assert(refs_ok(NodeModel::Const::<T>(T::sp_ratio(8, 1)), base));
            assert(refs_ok(NodeModel::Const::<T>(T::sp_ratio(21, 10)), base));
            assert(refs_ok(NodeModel::Const::<T>(T::sp_ratio(3, 1)), base));
            assert(refs_ok(NodeModel::Const::<T>(T::sp_one()), base));
            assert(refs_ok(NodeModel::Const::<T>(T::sp_ratio(20, 1)), base));
            assert(refs_ok(NodeModel::Const::<T>(T::sp_ratio(200, 1)), base));
            assert(refs_ok(NodeModel::Const::<T>(T::sp_ratio(2000, 1)), base));
            assert(refs_ok(NodeModel::Const::<T>(T::sp_ratio(5, 1)), base));
            assert(refs_ok(vib_m, base));
            assert(refs_ok(trem_m, base));
            assert(refs_ok(vib_scaled@, base));
            assert(refs_ok(bent_m, base));
            assert(refs_ok(saw_m, base));
            assert(refs_ok(trem_lift@, base));
            assert(refs_ok(trem_scaled@, base));
            assert(refs_ok(env_m, base));
            assert(refs_ok(bow_m, base));
            assert(refs_ok(high_m, base));
            assert(refs_ok(low@, base));
        }
        let cached = CacheValue::new(bank, low);
        let f1 = TrapezoidSVF::band(
            cached.clone().value(),
            Value::constant(T::ratio(400, 1)),
            Value::constant(T::ratio(1, 2)),
        ).value();
        let f2 = TrapezoidSVF::band(
            cached.clone().value(),
            Value::constant(T::ratio(700, 1)),
            Value::constant(T::ratio(1, 2)),
        ).value();
        let f3 = TrapezoidSVF::band(
            cached.value(),
            Value::constant(T::ratio(4000, 1)),
            Value::constant(T::ratio(2, 5)),
        ).value();
        let ghost f1m = f1@;
        let ghost f2m = f2@;
        let ghost f3m = f3@;
        let pair = f1.add(f2);
        let trio = pair.add(f3);
        let sig = trio.div(Value::constant(T::ratio(3, 1)));
        proof {
            let shared = NodeModel::Shared::<T>(base as usize);
            assert(f1m == svf_model(
                crate::filter::FilterType::Band,
                shared,
                T::sp_ratio(400, 1),
                T::sp_ratio(1, 2),
            ));
            assert(f2m == svf_model(
                crate::filter::FilterType::Band,
                shared,
                T::sp_ratio(700, 1),
                T::sp_ratio(1, 2),
            ));
            assert(f3m == svf_model(
                crate::filter::FilterType::Band,
                shared,
                T::sp_ratio(4000, 1),
                T::sp_ratio(2, 5),
            ));
            assert(pair@ == NodeModel::Bin(
                crate::value::BinKind::Add,
                Box::new(f1m),
                Box::new(f2m),
            ));
            assert(trio@ == NodeModel::Bin(
                crate::value::BinKind::Add,
                Box::new(pair@),
                Box::new(f3m),
            ));
            assert(sig@ == driven_string_model::<T>(base, freq@));
            let blen = bank@.len() as int;
            assert(refs_ok(shared, blen));
            assert(refs_ok(NodeModel::Const::<T>(T::sp_ratio(400, 1)), blen));
            assert(refs_ok(NodeModel::Const::<T>(T::sp_ratio(700, 1)), blen));
            assert(refs_ok(NodeModel::Const::<T>(T::sp_ratio(4000, 1)), blen));
            assert(refs_ok(NodeModel::Const::<T>(T::sp_ratio(1, 2)), blen));
            assert(refs_ok(NodeModel::Const::<T>(T::sp_ratio(2, 5)), blen));
            assert(refs_ok(NodeModel::Const::<T>(T::sp_ratio(3, 1)), blen));
            assert(refs_ok(f1m, blen));
            assert(refs_ok(f2m, blen));
            assert(refs_ok(f3m, blen));
            assert(refs_ok(pair@, blen));
            assert(refs_ok(trio@, blen));
            assert(refs_ok(sig@, blen));
        }
        DrivenString { output: sig }
    }
}

impl<T: Sample> ValueNode<T> for DrivenString<T> {
    open spec fn sp_node(self) -> NodeModel<T> {
        self.output@
    }

    fn value(self) -> (v: Value<T>) {
        self.output
    }
}

} // verus!
