//! Effects: delay line, soft clipper, ring modulator, and the reverb
//! network built from them.

use vstd::prelude::*;
use std::collections::VecDeque;
use crate::sample::Sample;
use crate::filter::{AllPass, RLPF, RlpfState};
use crate::value::{Bank, CacheValue, EntryModel, Node, NodeModel, Value, ValueNode, models,
    refs_ok, lemma_refs_ok_widen};

verus! {

/// A delay queue after accepting one sample: the new sample enters at the
/// back and the front leaves.
pub open spec fn delay_push<T: Sample>(q: Seq<T>, x: T) -> Seq<T> {
    q.push(x).subrange(1, q.len() as int + 1)
}

/// What leaves the delay queue when one sample enters: the oldest queued
/// sample, or the sample itself when the queue is empty.
pub open spec fn delay_out<T: Sample>(q: Seq<T>, x: T) -> T {
    q.push(x)[0]
}

/// The delay queue after accepting the first `i` input samples.
pub open spec fn delay_state_at<T: Sample>(q0: Seq<T>, ins: Seq<T>, i: nat) -> Seq<T>
    decreases i,
{
    if i == 0 {
        q0
    } else {
        delay_push(delay_state_at(q0, ins, (i - 1) as nat), ins[i - 1])
    }
}

/// Everything a delay line emits for the given input.
pub open spec fn delay_outs<T: Sample>(q0: Seq<T>, ins: Seq<T>) -> Seq<T> {
    Seq::new(ins.len(), |i: int| delay_out(delay_state_at(q0, ins, i as nat), ins[i]))
}

/// Everything a feed-forward comb emits: each input sample plus its own
/// delayed copy.
pub open spec fn comb_outs<T: Sample>(q0: Seq<T>, ins: Seq<T>) -> Seq<T> {
    Seq::new(
        ins.len(),
        |i: int| T::sp_add(ins[i], delay_out(delay_state_at(q0, ins, i as nat), ins[i])),
    )
}

/// The cubic soft clipper curve.
pub open spec fn sp_soft_clip<T: Sample>(v: T) -> T {
    T::sp_sub(v, T::sp_div(T::sp_pow(v, T::sp_ratio(3, 1)), T::sp_ratio(3, 1)))
}

/// The ring modulator's element-wise blend of input, modulator and mix.
pub open spec fn ringmod_outs<T: Sample>(sa: Seq<T>, sc: Seq<T>, sd: Seq<T>, count: nat) -> Seq<
    T,
> {
    Seq::new(
        count,
        |i: int|
            T::sp_add(
                T::sp_mul(T::sp_sub(T::sp_one(), sd[i]), sa[i]),
                T::sp_mul(T::sp_mul(sd[i], sc[i]), sa[i]),
            ),
    )
}

/// Runs a delay queue over a whole input buffer.
pub(crate) fn delay_run<T: Sample>(q: &mut VecDeque<T>, input: &Vec<T>) -> (out: Vec<T>)
    ensures
        final(q)@ == delay_state_at(old(q)@, input@, input@.len() as nat),
        out@ == delay_outs(old(q)@, input@),
{
    let mut out: Vec<T> = Vec::new();
    let mut i: usize = 0;
    while i < input.len()
        invariant
            i <= input@.len(),
            q@ == delay_state_at(old(q)@, input@, i as nat),
            out@.len() == i,
            forall|j: int| 0 <= j < i ==> out@[j] == delay_outs(old(q)@, input@)[j],
        decreases input@.len() - i,
    {
        let ghost before = q@;
        let x = input[i];
        q.push_back(x);
        let y = match q.pop_front() {
            Some(v) => v,
            None => x,
        };
        proof {
            assert(q@ =~= delay_push(before, x));
            assert(y == delay_out(before, x));
        }
        out.push(y);
        i = i + 1;
    }
    proof {
        assert(out@ =~= delay_outs(old(q)@, input@));
    }
    out
}

/// Runs a feed-forward comb queue over a whole input buffer.
pub(crate) fn comb_run<T: Sample>(q: &mut VecDeque<T>, input: &Vec<T>) -> (out: Vec<T>)
    ensures
        final(q)@ == delay_state_at(old(q)@, input@, input@.len() as nat),
        out@ == comb_outs(old(q)@, input@),
{
    let mut out: Vec<T> = Vec::new();
    let mut i: usize = 0;
    while i < input.len()
        invariant
            i <= input@.len(),
            q@ == delay_state_at(old(q)@, input@, i as nat),
            out@.len() == i,
            forall|j: int| 0 <= j < i ==> out@[j] == comb_outs(old(q)@, input@)[j],
        decreases input@.len() - i,
    {
        let ghost before = q@;
        let x = input[i];
        q.push_back(x);
        let d = match q.pop_front() {
            Some(v) => v,
            None => x,
        };
        proof {
            assert(q@ =~= delay_push(before, x));
            assert(d == delay_out(before, x));
        }
        out.push(T::add(x, d));
        i = i + 1;
    }
    proof {
        assert(out@ =~= comb_outs(old(q)@, input@));
    }
    out
}

/// Applies the soft clipper to a whole buffer.
pub(crate) fn soft_clip_all<T: Sample>(a: &Vec<T>) -> (r: Vec<T>)
    ensures
        r@ == Seq::new(a@.len(), |i: int| sp_soft_clip(a@[i])),
{
    let mut r: Vec<T> = Vec::new();
    let mut i: usize = 0;
    while i < a.len()
        invariant
            i <= a@.len(),
            r@.len() == i,
            forall|j: int| 0 <= j < i ==> r@[j] == sp_soft_clip(a@[j]),
        decreases a@.len() - i,
    {
        let v = a[i];
        let three = T::ratio(3, 1);
        r.push(T::sub(v, T::div(T::pow(v, three), three)));
        i = i + 1;
    }
    proof {
        assert(r@ =~= Seq::new(a@.len(), |i: int| sp_soft_clip(a@[i])));
    }
    r
}

/// Blends input, modulator and mix buffers element-wise.
pub(crate) fn ringmod_combine<T: Sample>(sa: &Vec<T>, sc: &Vec<T>, sd: &Vec<T>) -> (r: Vec<T>)
    requires
        sa@.len() == sc@.len(),
        sa@.len() == sd@.len(),
    ensures
        r@ == ringmod_outs(sa@, sc@, sd@, sa@.len()),
{
    let mut r: Vec<T> = Vec::new();
    let mut i: usize = 0;
    while i < sa.len()
        invariant
            i <= sa@.len(),
            sa@.len() == sc@.len(),
            sa@.len() == sd@.len(),
            r@.len() == i,
            forall|j: int| 0 <= j < i ==> r@[j] == ringmod_outs(sa@, sc@, sd@, sa@.len())[j],
        decreases sa@.len() - i,
    {
        let v = sa[i];
        let m = sc[i];
        let mix = sd[i];
        r.push(T::add(T::mul(T::sub(T::one(), mix), v), T::mul(T::mul(mix, m), v)));
        i = i + 1;
    }
    proof {
        assert(r@ =~= ringmod_outs(sa@, sc@, sd@, sa@.len()));
    }
    r
}

/// A queue of `len` silent samples.
pub(crate) fn silent_line<T: Sample>(len: usize) -> (q: VecDeque<T>)
    ensures
        q@ == Seq::new(len as nat, |i: int| T::sp_zero()),
{
    let mut q: VecDeque<T> = VecDeque::new();
    let mut i: usize = 0;
    while i < len
        invariant
            i <= len,
            q@.len() == i,
            forall|j: int| 0 <= j < i ==> q@[j] == T::sp_zero(),
        decreases len - i,
    {
        q.push_back(T::zero());
        i = i + 1;
    }
    proof {
        assert(q@ =~= Seq::new(len as nat, |i: int| T::sp_zero()));
    }
    q
}

/// A pure delay: the input resurfaces unchanged after a fixed time. The
/// line length is the scalar's truncation of `44100 · delay`, initially
/// silent.
pub struct Delay<T: Sample> {
    pub input: Value<T>,
    pub line: VecDeque<T>,
}

impl<T: Sample> Delay<T> {
    /// A delay of `delay` seconds (at the fixed 44100 reference rate) in
    /// front of `input`.
    pub fn new(input: Value<T>, delay: T) -> (d: Delay<T>)
        ensures
            d.input == input,
            d.line@ == Seq::new(
                T::sp_index(T::sp_mul(T::sp_ratio(44100, 1), delay)) as nat,
                |i: int| T::sp_zero(),
            ),
    {
        let len = T::index(T::mul(T::ratio(44100, 1), delay));
        Delay { input, line: silent_line(len) }
    }
}

impl<T: Sample> ValueNode<T> for Delay<T> {
    open spec fn sp_node(self) -> NodeModel<T> {
        NodeModel::Delay(Box::new(self.input@), self.line@)
    }

    fn value(self) -> (v: Value<T>) {
        Value { node: Node::Delay(Box::new(self.input.node), self.line) }
    }
}

/// A cubic soft clipper around its input.
pub struct SoftClip<T: Sample> {
    pub input: Value<T>,
}

impl<T: Sample> SoftClip<T> {
    /// Clips `input` softly: `v - v³/3` element-wise.
    pub fn new(input: Value<T>) -> (s: SoftClip<T>)
        ensures
            s.input == input,
    {
        SoftClip { input }
    }
}

impl<T: Sample> ValueNode<T> for SoftClip<T> {
    open spec fn sp_node(self) -> NodeModel<T> {
        NodeModel::SoftClip(Box::new(self.input@))
    }

    fn value(self) -> (v: Value<T>) {
        Value { node: Node::SoftClip(Box::new(self.input.node)) }
    }
}

/// A ring modulator: blends the carrier with its modulated copy under a
/// mix control, all three supplied as graphs.
pub struct RingModulator<T: Sample> {
    pub input: Value<T>,
    pub modulator: Value<T>,
    pub mix: Value<T>,
}

impl<T: Sample> RingModulator<T> {
    /// A ring modulator over the given carrier, modulator and mix graphs.
    pub fn new(input: Value<T>, modulator: Value<T>, mix: Value<T>) -> (r: RingModulator<T>)
        ensures
            r.input == input,
            r.modulator == modulator,
            r.mix == mix,
    {
        RingModulator { input, modulator, mix }
    }
}

impl<T: Sample> ValueNode<T> for RingModulator<T> {
    open spec fn sp_node(self) -> NodeModel<T> {
        NodeModel::RingMod(Box::new(self.input@), Box::new(self.modulator@), Box::new(self.mix@))
    }

    fn value(self) -> (v: Value<T>) {
        Value {
            node: Node::RingMod(
                Box::new(self.input.node),
                Box::new(self.modulator.node),
                Box::new(self.mix.node),
            ),
        }
    }
}

/// The vintage-radio graph around a signal: band-limit it, clip it, and
/// lay crackle from three brownian sources over it. The seeds are
/// whatever the noise constructors drew.
pub open spec fn old_timeify_model<T: Sample>(
    sig: NodeModel<T>,
    overdrive: T,
    s1: u64,
    s2: u64,
    s3: u64,
) -> NodeModel<T> {
    let low = crate::oscillator::string::svf_model(
        crate::filter::FilterType::Low,
        sig,
        T::sp_ratio(800, 1),
        T::sp_ratio(4, 5),
    );
    let high = crate::oscillator::string::svf_model(
        crate::filter::FilterType::High,
        low,
        T::sp_ratio(100, 1),
        T::sp_ratio(4, 5),
    );
    let imp = NodeModel::Brownian(
        Box::new(NodeModel::Const(T::sp_ratio(4, 5))),
        Box::new(NodeModel::Const(T::sp_ratio(1, 2))),
        T::sp_zero(),
        s1,
    );
    let crackle = NodeModel::Brownian(
        Box::new(NodeModel::Const(T::sp_ratio(20, 1))),
        Box::new(NodeModel::Const(T::sp_ratio(1, 10))),
        T::sp_zero(),
        s2,
    );
    let crackle2 = NodeModel::Brownian(
        Box::new(NodeModel::Const(T::sp_ratio(30, 1))),
        Box::new(NodeModel::Const(T::sp_ratio(1, 10))),
        T::sp_zero(),
        s3,
    );
    let clipped = NodeModel::SoftClip(
        Box::new(
            NodeModel::Bin(
                crate::value::BinKind::Mul,
                Box::new(high),
                Box::new(NodeModel::Const(overdrive)),
            ),
        ),
    );
    NodeModel::Bin(
        crate::value::BinKind::Add,
        Box::new(
            NodeModel::Bin(
                crate::value::BinKind::Mul,
                Box::new(clipped),
                Box::new(NodeModel::Const(T::sp_one())),
            ),
        ),
        Box::new(
            NodeModel::Bin(
                crate::value::BinKind::Mul,
                Box::new(
                    NodeModel::Bin(
                        crate::value::BinKind::Add,
                        Box::new(
                            NodeModel::Bin(
                                crate::value::BinKind::Add,
                                Box::new(
                                    NodeModel::Bin(
                                        crate::value::BinKind::Mul,
                                        Box::new(imp),
                                        Box::new(NodeModel::Const(T::sp_ratio(3, 5))),
                                    ),
                                ),
                                Box::new(
                                    NodeModel::Bin(
                                        crate::value::BinKind::Mul,
                                        Box::new(crackle),
                                        Box::new(NodeModel::Const(T::sp_ratio(1, 2))),
                                    ),
                                ),
                            ),
                        ),
                        Box::new(
                            NodeModel::Bin(
                                crate::value::BinKind::Mul,
                                Box::new(crackle2),
                                Box::new(NodeModel::Const(T::sp_ratio(1, 2))),
                            ),
                        ),
                    ),
                ),
                Box::new(NodeModel::Const(T::sp_ratio(3, 5))),
            ),
        ),
    )
}

/// Ages a signal like a worn radio: band-limited, softly clipped, and
/// dusted with random crackle; the noise seeds are drawn fresh, so the
/// graph is pinned up to those three seeds.
pub fn old_timeify<T: Sample>(sig: Value<T>, overdrive: T) -> (v: Value<T>)
    ensures
        exists|s1: u64, s2: u64, s3: u64|
            v@ == old_timeify_model(sig@, overdrive, s1, s2, s3),
        (forall|b: int| crate::value::refs_ok(sig@, b) ==> crate::value::refs_ok(v@, b)),
{
    let low = crate::filter::TrapezoidSVF::low_pass(
        sig,
        Value::constant(T::ratio(800, 1)),
        Value::constant(T::ratio(4, 5)),
    ).value();
    let high = crate::filter::TrapezoidSVF::high(
        low,
        Value::constant(T::ratio(100, 1)),
        Value::constant(T::ratio(4, 5)),
    ).value();
    let imp_b = crate::oscillator::BrownianNoise::new(
        Value::constant(T::ratio(4, 5)),
        Value::constant(T::ratio(1, 2)),
    );
    let ghost s1 = imp_b.seed;
    let imp = imp_b.value();
    let crackle_b = crate::oscillator::BrownianNoise::new(
        Value::constant(T::ratio(20, 1)),
        Value::constant(T::ratio(1, 10)),
    );
    let ghost s2 = crackle_b.seed;
    let crackle = crackle_b.value();
    let crackle2_b = crate::oscillator::BrownianNoise::new(
        Value::constant(T::ratio(30, 1)),
        Value::constant(T::ratio(1, 10)),
    );
    let ghost s3 = crackle2_b.seed;
    let crackle2 = crackle2_b.value();
    let ghost high_m = high@;
    let ghost imp_m = imp@;
    let ghost crackle_m = crackle@;
    let ghost crackle2_m = crackle2@;
    let driven = high.mul(Value::constant(overdrive));
    let clipped = SoftClip::new(driven).value();
    let imp_part = imp.mul(Value::constant(T::ratio(3, 5)));
    let crackle_part = crackle.mul(Value::constant(T::ratio(1, 2)));
    let crackle2_part = crackle2.mul(Value::constant(T::ratio(1, 2)));
    let dust_pair = imp_part.add(crackle_part);
    let dust = dust_pair.add(crackle2_part);
    let dust_scaled = dust.mul(Value::constant(T::ratio(3, 5)));
    let kept = clipped.mul(Value::constant(T::one()));
    let v = kept.add(dust_scaled);
    proof {
        assert(high_m == crate::oscillator::string::svf_model(
            crate::filter::FilterType::High,
            crate::oscillator::string::svf_model(
                crate::filter::FilterType::Low,
                sig@,
                T::sp_ratio(800, 1),
                T::sp_ratio(4, 5),
            ),
            T::sp_ratio(100, 1),
            T::sp_ratio(4, 5),
        ));
        assert(driven@ == NodeModel::Bin(
            crate::value::BinKind::Mul,
            Box::new(high_m),
            Box::new(NodeModel::Const(overdrive)),
        ));
        assert(clipped@ == NodeModel::SoftClip(Box::new(driven@)));
        assert(imp_part@ == NodeModel::Bin(
            crate::value::BinKind::Mul,
            Box::new(imp_m),
            Box::new(NodeModel::Const(T::sp_ratio(3, 5))),
        ));
        assert(crackle_part@ == NodeModel::Bin(
            crate::value::BinKind::Mul,
            Box::new(crackle_m),
            Box::new(NodeModel::Const(T::sp_ratio(1, 2))),
        ));
        assert(crackle2_part@ == NodeModel::Bin(
            crate::value::BinKind::Mul,
            Box::new(crackle2_m),
            Box::new(NodeModel::Const(T::sp_ratio(1, 2))),
        ));
        assert(dust_pair@ == NodeModel::Bin(
            crate::value::BinKind::Add,
            Box::new(imp_part@),
            Box::new(crackle_part@),
        ));
        assert(dust@ == NodeModel::Bin(
            crate::value::BinKind::Add,
            Box::new(dust_pair@),
            Box::new(crackle2_part@),
        ));
        assert(dust_scaled@ == NodeModel::Bin(
            crate::value::BinKind::Mul,
            Box::new(dust@),
            Box::new(NodeModel::Const(T::sp_ratio(3, 5))),
        ));
        assert(kept@ == NodeModel::Bin(
            crate::value::BinKind::Mul,
            Box::new(clipped@),
            Box::new(NodeModel::Const(T::sp_one())),
        ));
        assert(v@ == old_timeify_model(sig@, overdrive, s1, s2, s3));
        assert forall|b: int| crate::value::refs_ok(sig@, b) implies crate::value::refs_ok(
            v@,
            b,
        ) by {
            assert(crate::value::refs_ok(NodeModel::Const::<T>(T::sp_ratio(800, 1)), b));
            assert(crate::value::refs_ok(NodeModel::Const::<T>(T::sp_ratio(100, 1)), b));
            assert(crate::value::refs_ok(NodeModel::Const::<T>(T::sp_ratio(4, 5)), b));
            assert(crate::value::refs_ok(NodeModel::Const::<T>(overdrive), b));
            assert(crate::value::refs_ok(NodeModel::Const::<T>(T::sp_one()), b));
            assert(crate::value::refs_ok(NodeModel::Const::<T>(T::sp_ratio(3, 5)), b));
            assert(crate::value::refs_ok(NodeModel::Const::<T>(T::sp_ratio(1, 2)), b));
            assert(crate::value::refs_ok(NodeModel::Const::<T>(T::sp_ratio(20, 1)), b));
            assert(crate::value::refs_ok(NodeModel::Const::<T>(T::sp_ratio(30, 1)), b));
            assert(crate::value::refs_ok(NodeModel::Const::<T>(T::sp_ratio(1, 10)), b));
            assert(crate::value::refs_ok(imp_m, b));
            assert(crate::value::refs_ok(crackle_m, b));
            assert(crate::value::refs_ok(crackle2_m, b));
            assert(crate::value::refs_ok(crate::oscillator::string::svf_model(
                crate::filter::FilterType::Low,
                sig@,
                T::sp_ratio(800, 1),
                T::sp_ratio(4, 5),
            ), b));
            assert(crate::value::refs_ok(high_m, b));
            assert(crate::value::refs_ok(driven@, b));
            assert(crate::value::refs_ok(clipped@, b));
            assert(crate::value::refs_ok(imp_part@, b));
            assert(crate::value::refs_ok(crackle_part@, b));
            assert(crate::value::refs_ok(crackle2_part@, b));
            assert(crate::value::refs_ok(dust_pair@, b));
            assert(crate::value::refs_ok(dust@, b));
            assert(crate::value::refs_ok(dust_scaled@, b));
            assert(crate::value::refs_ok(kept@, b));
        }
    }
    v
}

/// The denominator of the reverb stage-delay table.
pub const STAGE_DEN: i64 = 1_000_000_000_000_000_000;

/// The numerators of the sixteen reverb stage delays, in seconds over
/// [`STAGE_DEN`]: the designed echo-density table, not a free parameter.
/// The denominator carries eighteen decimal places; the two delays with a
/// nineteenth digit are truncated there, within one double-precision ulp
/// and below [`crate::sample::Fixed`]'s resolution.
pub open spec fn reverb_delay_nums() -> Seq<i64> {
    seq![
        38045169615104804i64,
        29990760168477620i64,
        49638739233797720i64,
        43688949796266560i64,
        7460425959828037i64,
        28170801304123640i64,
        6571268322223540i64,
        47794293696668020i64,
        4010513054838128i64,
        15416010716649560i64,
        11602441530870984i64,
        1212287229287421i64,
        25404225677194647i64,
        1734147269316826i64,
        10036457597208340i64,
        46043572960279470i64,
    ]
}

/// The reverb stage-delay table, executably.
fn reverb_delay_nums_run() -> (v: Vec<i64>)
    ensures
        v@ == reverb_delay_nums(),
{
    let v: Vec<i64> = vec![
        38045169615104804i64,
        29990760168477620i64,
        49638739233797720i64,
        43688949796266560i64,
        7460425959828037i64,
        28170801304123640i64,
        6571268322223540i64,
        47794293696668020i64,
        4010513054838128i64,
        15416010716649560i64,
        11602441530870984i64,
        1212287229287421i64,
        25404225677194647i64,
        1734147269316826i64,
        10036457597208340i64,
        46043572960279470i64,
    ];
    proof {
        assert(v@ =~= reverb_delay_nums());
    }
    v
}

/// The allpass node one reverb stage wraps around the running signal.
pub open spec fn reverb_allpass<T: Sample>(temp: NodeModel<T>, r: T, revtime: T) -> NodeModel<T> {
    NodeModel::AllPass(
        Box::new(temp),
        T::sp_mul(
            T::sp_pow(T::sp_ratio(1, 1000), T::sp_div(r, T::sp_abs(revtime))),
            T::sp_signum(revtime),
        ),
        Seq::new(T::sp_index(T::sp_mul(T::sp_ratio(44100, 1), r)) as nat, |i: int| T::sp_zero()),
    )
}

/// The damped stage node one reverb stage registers: the allpass run
/// through a resonant lowpass at the damping cutoff with a Q of fifty.
pub open spec fn reverb_stage_node<T: Sample>(temp: NodeModel<T>, r: T, lpf: T, revtime: T) -> NodeModel<T> {
    NodeModel::Rlpf(
        Box::new(reverb_allpass(temp, r, revtime)),
        Box::new(NodeModel::Const(lpf)),
        Box::new(NodeModel::Const(T::sp_ratio(50, 1))),
        RlpfState {
            cache: None,
            co: (T::sp_zero(), T::sp_zero(), T::sp_zero()),
            y1: T::sp_zero(),
            y2: T::sp_zero(),
            recomputes: 0,
        },
    )
}

/// The reverb network from stage `k` on: each stage caches its damped
/// allpass in the bank at the next index, adds that shared signal into
/// the wet sum, and hands it on as the next stage's input. Yields the
/// registered entries and the final wet and running signals.
pub open spec fn reverb_build<T: Sample>(
    base: int,
    lpf: T,
    revtime: T,
    temp: NodeModel<T>,
    wet: NodeModel<T>,
    k: nat,
) -> (Seq<EntryModel<T>>, NodeModel<T>, NodeModel<T>)
    decreases 16 - k,
{
    if k >= 16 {
        (Seq::empty(), wet, temp)
    } else {
        let r = T::sp_ratio(reverb_delay_nums()[k as int], STAGE_DEN);
        let stage = reverb_stage_node(temp, r, lpf, revtime);
        let shared = NodeModel::Shared::<T>((base + k) as usize);
        let (rest, wet2, temp2) = reverb_build(
            base,
            lpf,
            revtime,
            shared,
            NodeModel::Bin(crate::value::BinKind::Add, Box::new(wet), Box::new(shared)),
            k + 1,
        );
        (seq![EntryModel { node: stage, memo: None }] + rest, wet2, temp2)
    }
}

/// The whole reverb graph over a dry signal registered at `base`: the
/// predelayed dry signal runs through the sixteen stages, and the output
/// blends `dry · mix` with `wet · (1 - mix)`.
pub open spec fn reverb_model<T: Sample>(base: int, mix: T, predelay: T, lpf: T, revtime: T) -> NodeModel<T> {
    let temp0 = NodeModel::Delay(
        Box::new(NodeModel::Shared::<T>(base as usize)),
        Seq::new(
            T::sp_index(T::sp_mul(T::sp_ratio(44100, 1), predelay)) as nat,
            |i: int| T::sp_zero(),
        ),
    );
    let (ents, wet, temp) = reverb_build(
        base + 1,
        lpf,
        revtime,
        temp0,
        NodeModel::Const(T::sp_zero()),
        0,
    );
    NodeModel::Bin(
        crate::value::BinKind::Add,
        Box::new(
            NodeModel::Bin(
                crate::value::BinKind::Mul,
                Box::new(NodeModel::Shared::<T>(base as usize)),
                Box::new(NodeModel::Const(mix)),
            ),
        ),
        Box::new(
            NodeModel::Bin(
                crate::value::BinKind::Mul,
                Box::new(wet),
                Box::new(
                    NodeModel::Bin(
                        crate::value::BinKind::Sub,
                        Box::new(NodeModel::Const(T::sp_one())),
                        Box::new(NodeModel::Const(mix)),
                    ),
                ),
            ),
        ),
    )
}

/// A Schroeder-style reverb: one cached dry signal, a predelay, sixteen
/// cached allpass-and-damping stages summed into a wet signal, and a
/// dry/wet blend.
pub struct Reverb<T: Sample> {
    pub output: Value<T>,
}

impl<T: Sample> Reverb<T> {
    /// Builds the reverb network around `input`. The same arguments over
    /// the same bank prefix always build the same network, so two
    /// instances constructed alike render identically.
    pub fn new(bank: &mut Bank<T>, input: Value<T>, mix: T, predelay: T, lpf: T, revtime: T) -> (rv:
        Reverb<T>)
        requires
            input.wf(*old(bank)),
            old(bank).ok(),
        ensures
            ({
                let base = old(bank)@.len() as int;
                let (ents, wet, temp) = reverb_build::<T>(
                    base + 1,
                    lpf,
                    revtime,
                    reverb_model_predelay::<T>(base, predelay),
                    NodeModel::Const(T::sp_zero()),
                    0,
                );
                &&& final(bank)@ == old(bank)@ + seq![
                    EntryModel { node: input@, memo: None },
                ] + ents
                &&& rv.output@ == reverb_model::<T>(base, mix, predelay, lpf, revtime)
                &&& final(bank).ok()
                &&& rv.output.wf(*final(bank))
            }),
    {
        let ghost base = old(bank)@.len() as int;
        let dry = CacheValue::new(bank, input);
        let mut temp: Value<T> = Delay::new(dry.clone().value(), predelay).value();
        let mut wet: Value<T> = Value::constant(T::zero());
        let nums = reverb_delay_nums_run();
        let mut k: usize = 0;
        proof {
            assert(dry.index as int == base);
            assert(temp@ == reverb_model_predelay::<T>(base, predelay));
            assert(refs_ok(NodeModel::Shared::<T>(dry.index), bank@.len() as int));
            assert(refs_ok(temp@, bank@.len() as int));
            assert(refs_ok(wet@, bank@.len() as int));
            assert(bank@.subrange(0, base + 1) =~= old(bank)@ + seq![
                EntryModel { node: input@, memo: None },
            ]);
            assert(bank@.subrange(base + 1, bank@.len() as int) =~= Seq::<EntryModel<T>>::empty());
            let (ents, wetf, tempf) = reverb_build::<T>(
                base + 1,
                lpf,
                revtime,
                reverb_model_predelay::<T>(base, predelay),
                NodeModel::Const(T::sp_zero()),
                0,
            );
            assert(ents =~= bank@.subrange(base + 1, bank@.len() as int) + ents);
        }
        while k < 16
            invariant
                k <= 16,
                base == old(bank)@.len() as int,
                nums@ == reverb_delay_nums(),
                bank@.len() == base + 1 + k,
                bank.ok(),
                refs_ok(temp@, bank@.len() as int),
                refs_ok(wet@, bank@.len() as int),
                bank@.subrange(0, base + 1) == old(bank)@ + seq![
                    EntryModel { node: input@, memo: None },
                ],
                ({
                    let (ents, wetf, tempf) = reverb_build::<T>(
                        base + 1,
                        lpf,
                        revtime,
                        reverb_model_predelay::<T>(base, predelay),
                        NodeModel::Const(T::sp_zero()),
                        0,
                    );
                    let (entsk, wetk, tempk) = reverb_build::<T>(
                        base + 1,
                        lpf,
                        revtime,
                        temp@,
                        wet@,
                        k as nat,
                    );
                    &&& ents == bank@.subrange(base + 1, bank@.len() as int) + entsk
                    &&& wetf == wetk
                    &&& tempf == tempk
                }),
            decreases 16 - k,
        {
            let ghost temp0 = temp@;
            let ghost wet0 = wet@;
            let r = T::ratio(nums[k], STAGE_DEN);
            let ltemp = AllPass::new(temp, r, revtime);
            let stage = RLPF::new(
                ltemp.value(),
                Value::constant(lpf),
                Value::constant(T::ratio(50, 1)),
            );
            let ghost prev = bank@;
            let ghost rr = T::sp_ratio(reverb_delay_nums()[k as int], STAGE_DEN);
            let ghost stage_m = reverb_stage_node::<T>(temp0, rr, lpf, revtime);
            proof {
                assert(stage.sp_node() == stage_m);
                assert(refs_ok(temp0, prev.len() as int));
                assert(refs_ok(reverb_allpass::<T>(temp0, rr, revtime), prev.len() as int));
                assert(refs_ok(NodeModel::Const::<T>(lpf), prev.len() as int));
                assert(refs_ok(NodeModel::Const::<T>(T::sp_ratio(50, 1)), prev.len() as int));
                assert(refs_ok(stage_m, prev.len() as int));
            }
            let cache = CacheValue::new(bank, stage.value());
            wet = wet.add(cache.clone().value());
            temp = cache.value();
            proof {
                let shared = NodeModel::Shared::<T>((base + 1 + k) as usize);
                assert(bank@ == prev.push(EntryModel { node: stage_m, memo: None }));
                assert(temp@ == shared);
                assert(wet@ == NodeModel::Bin(
                    crate::value::BinKind::Add,
                    Box::new(wet0),
                    Box::new(shared),
                ));
                assert(bank@.subrange(0, base + 1) =~= prev.subrange(0, base + 1));
                assert(bank@.subrange(base + 1, bank@.len() as int) =~= prev.subrange(
                    base + 1,
                    prev.len() as int,
                ) + seq![EntryModel { node: stage_m, memo: None }]);
                let (rest1, wet2, temp2) = reverb_build::<T>(
                    base + 1,
                    lpf,
                    revtime,
                    shared,
                    wet@,
                    (k + 1) as nat,
                );
                assert(reverb_build::<T>(base + 1, lpf, revtime, temp0, wet0, k as nat).0
                    == seq![EntryModel { node: stage_m, memo: None }] + rest1);
                assert(reverb_build::<T>(base + 1, lpf, revtime, temp0, wet0, k as nat).1 == wet2);
                assert(reverb_build::<T>(base + 1, lpf, revtime, temp0, wet0, k as nat).2 == temp2);
                assert((prev.subrange(base + 1, prev.len() as int) + (seq![
                    EntryModel { node: stage_m, memo: None },
                ] + rest1)) =~= (bank@.subrange(base + 1, bank@.len() as int) + rest1));
                assert(refs_ok(temp@, bank@.len() as int));
                crate::value::lemma_refs_ok_widen(wet0, prev.len() as int, bank@.len() as int);
                assert(refs_ok(wet@, bank@.len() as int));
            }
            k = k + 1;
        }
        let ghost wet_end = wet@;
        let dry_v = dry.clone().value();
        let dry_mix = dry_v.mul(Value::constant(mix));
        let one_minus = Value::constant(T::one()).sub(Value::constant(mix));
        let wet_scaled = wet.mul(one_minus);
        let output = dry_mix.add(wet_scaled);
        proof {
            assert(dry_mix@ == NodeModel::Bin(
                crate::value::BinKind::Mul,
                Box::new(NodeModel::Shared::<T>(dry.index)),
                Box::new(NodeModel::Const(mix)),
            ));
            assert(one_minus@ == NodeModel::Bin(
                crate::value::BinKind::Sub,
                Box::new(NodeModel::Const(T::sp_one())),
                Box::new(NodeModel::Const(mix)),
            ));
            assert(wet_scaled@ == NodeModel::Bin(
                crate::value::BinKind::Mul,
                Box::new(wet_end),
                Box::new(one_minus@),
            ));
            assert(refs_ok(NodeModel::Shared::<T>(dry.index), bank@.len() as int));
            assert(refs_ok(NodeModel::Const::<T>(mix), bank@.len() as int));
            assert(refs_ok(dry_mix@, bank@.len() as int));
            assert(refs_ok(NodeModel::Const::<T>(T::sp_one()), bank@.len() as int));
            assert(refs_ok(one_minus@, bank@.len() as int));
            assert(refs_ok(wet_end, bank@.len() as int));
            assert(refs_ok(wet_scaled@, bank@.len() as int));
            assert(output@ == NodeModel::Bin(
                crate::value::BinKind::Add,
                Box::new(NodeModel::Bin(
                    crate::value::BinKind::Mul,
                    Box::new(NodeModel::Shared::<T>(dry.index)),
                    Box::new(NodeModel::Const(mix)),
                )),
                Box::new(NodeModel::Bin(
                    crate::value::BinKind::Mul,
                    Box::new(wet_end),
                    Box::new(NodeModel::Bin(
                        crate::value::BinKind::Sub,
                        Box::new(NodeModel::Const(T::sp_one())),
                        Box::new(NodeModel::Const(mix)),
                    )),
                )),
            ));
            assert(dry.index as int == base);
            assert(reverb_build::<T>(base + 1, lpf, revtime, temp@, wet_end, 16) == (
                Seq::<EntryModel<T>>::empty(),
                wet_end,
                temp@,
            ));
            let (ents, wetf, tempf) = reverb_build::<T>(
                base + 1,
                lpf,
                revtime,
                reverb_model_predelay::<T>(base, predelay),
                NodeModel::Const(T::sp_zero()),
                0,
            );
            assert(ents =~= bank@.subrange(base + 1, bank@.len() as int));
            assert(wetf == wet_end);
            assert(bank@ =~= bank@.subrange(0, base + 1) + bank@.subrange(
                base + 1,
                bank@.len() as int,
            ));
            assert(bank@ =~= old(bank)@ + seq![EntryModel { node: input@, memo: None }] + ents);
            assert(output@ == reverb_model::<T>(base, mix, predelay, lpf, revtime));
            assert(refs_ok(wetf, bank@.len() as int));
            assert(refs_ok(output@, bank@.len() as int));
        }
        Reverb { output }
    }
}

/// No cross-instance state leakage: a reverb reads and writes only its
/// own run of bank entries, so two sessions whose banks agree on that run
/// render the same reverb network identically, sample for sample,
/// whatever else their banks hold. Together with [`Reverb::new`]'s exact
/// construction — the network is a function of its arguments alone — two
/// independently constructed reverbs with identical parameters render a
/// given input identically.
pub proof fn lemma_reverb_isolated<T: Sample>(
    s: Seq<EntryModel<T>>,
    t: Seq<EntryModel<T>>,
    base: int,
    mix: T,
    predelay: T,
    lpf: T,
    revtime: T,
    env: crate::Env,
    count: nat,
)
    requires
        0 <= base,
        base + 17 <= s.len(),
        base + 17 <= t.len(),
        forall|k: int| 0 <= k < base + 17 ==> s[k] == t[k],
    ensures
        ({
            let m = reverb_model::<T>(base, mix, predelay, lpf, revtime);
            let a = crate::value::fill_spec(s, m, env, count, base + 17);
            let b = crate::value::fill_spec(t, m, env, count, base + 17);
            &&& a.1 == b.1
            &&& a.2 == b.2
            &&& forall|k: int| 0 <= k < base + 17 ==> a.0[k] == b.0[k]
        }),
{
    crate::value::lemma_fill_frame(
        s,
        t,
        reverb_model::<T>(base, mix, predelay, lpf, revtime),
        env,
        count,
        base + 17,
    );
}

/// The predelay node of the reverb, as a function of the dry entry.
pub open spec fn reverb_model_predelay<T: Sample>(base: int, predelay: T) -> NodeModel<T> {
    NodeModel::Delay(
        Box::new(NodeModel::Shared::<T>(base as usize)),
        Seq::new(
            T::sp_index(T::sp_mul(T::sp_ratio(44100, 1), predelay)) as nat,
            |i: int| T::sp_zero(),
        ),
    )
}

impl<T: Sample> ValueNode<T> for Reverb<T> {
    open spec fn sp_node(self) -> NodeModel<T> {
        self.output@
    }

    fn value(self) -> (v: Value<T>) {
        self.output
    }
}

} // verus!
