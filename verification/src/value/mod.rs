//! The execution engine: signal graph nodes, the owning [`Value`] handle,
//! and the shared-subexpression cache.
//!
//! A graph is an expression tree of [`Node`]s whose topology is fixed at
//! construction. Fan-out — one subgraph feeding several consumers — is the
//! one deliberate exception: such a subgraph lives in a [`Bank`] entry and
//! is referenced through [`CacheValue`] handles, each of which renders as a
//! `Node::Shared` leaf. Every entry carries a memo keyed by `(time, count)`;
//! for one render tick the wrapped subgraph therefore runs at most once,
//! and every reference observes the identical samples.
//!
//! Each node has a ghost image, its [`NodeModel`], and the whole
//! evaluation is pinned down by the specification function [`fill_spec`]
//! over those images: what every node kind emits, how its state advances,
//! and how the bank's memos are consulted and refreshed.

use vstd::prelude::*;
use vstd::seq_lib::*;
use std::collections::VecDeque;
use crate::sample::Sample;
use crate::Env;
use crate::effect::{delay_state_at, delay_outs, delay_run, comb_outs, comb_run, sp_soft_clip,
    soft_clip_all, ringmod_outs, ringmod_combine};
use crate::filter::{RlpfState, SvfState, rlpf_state_at, rlpf_outs, rlpf_run, svf_state_at,
    svf_outs, svf_run, allpass_state_at, allpass_outs, allpass_run};
use crate::envelope::{AdsrState, adsr_state_at, adsr_outs, adsr_run};
use crate::oscillator::{tables_model, osc_pos_at, osc_outs, osc_run, white_state_at, white_outs,
    white_run, impulse_outs, impulse_run, brownian_state_at, brownian_outs, brownian_run,
    player_pos_at, player_outs, player_run};
use crate::oscillator::string::{pluck_state_at, pluck_outs, pluck_run};
use crate::sequence::{SeqData, SeqModel, seq_refs_ok, seq_chunks, seq_chunks_run,
    lemma_seq_chunks_shape, lemma_seq_chunks_props, lemma_seq_chunks_frame};

pub mod multisample;
pub mod operators;

verus! {

/// The arithmetic a binary operator node applies element-wise.
#[derive(Clone, Copy, PartialEq, Eq, Structural, Debug)]
pub enum BinKind {
    Add,
    Sub,
    Mul,
    Div,
}

/// What a binary operator node computes for one pair of samples.
pub open spec fn bin_apply<T: Sample>(k: BinKind, a: T, b: T) -> T {
    match k {
        BinKind::Add => T::sp_add(a, b),
        BinKind::Sub => T::sp_sub(a, b),
        BinKind::Mul => T::sp_mul(a, b),
        BinKind::Div => T::sp_div(a, b),
    }
}

/// One stateful unit of the signal graph.
///
/// A node fills a requested number of samples given the render context,
/// reading and updating its own state; a composite node owns its operands
/// exclusively, and a `Shared` leaf refers to a [`Bank`] entry instead.
pub enum Node<T: Sample> {
    /// A broadcasting leaf: fills every requested slot with itself.
    Const(T),
    /// Element-wise arithmetic: evaluates the left operand first, then the
    /// right, both for the same length, then combines.
    Bin(BinKind, Box<Node<T>>, Box<Node<T>>),
    /// Element-wise negation.
    Neg(Box<Node<T>>),
    /// A reference to the shared subgraph in the bank entry of this index.
    Shared(usize),
    /// A pure delay line: each input sample leaves the queue after as many
    /// steps as the queue is long.
    Delay(Box<Node<T>>, VecDeque<T>),
    /// A feed-forward comb: the input plus its own delayed copy.
    Comb(Box<Node<T>>, VecDeque<T>),
    /// A cubic soft clipper applied element-wise.
    SoftClip(Box<Node<T>>),
    /// A ring modulator: input, modulator and mix, evaluated in that order.
    RingMod(Box<Node<T>>, Box<Node<T>>, Box<Node<T>>),
    /// A resonant lowpass: input, cutoff and Q, the controls evaluated
    /// before the input.
    Rlpf(Box<Node<T>>, Box<Node<T>>, Box<Node<T>>, RlpfState<T>),
    /// A trapezoidal state-variable filter: input, frequency and Q, the
    /// input evaluated before the controls.
    Svf(Box<Node<T>>, Box<Node<T>>, Box<Node<T>>, SvfState<T>),
    /// A one-pole allpass delay with feedback coefficient and line.
    AllPass(Box<Node<T>>, T, VecDeque<T>),
    /// A running ADSR envelope.
    Adsr(AdsrState<T>),
    /// A wavetable oscillator: frequency control, table family, read
    /// position.
    Table(Box<Node<T>>, Vec<(T, Vec<T>)>, T),
    /// A white-noise source with its draw state.
    White(u64),
    /// An impulse source: expected rate and draw state.
    Impulses(T, u64),
    /// A brownian noise source: rate and step-bound controls, level, draw
    /// state.
    Brownian(Box<Node<T>>, Box<Node<T>>, T, u64),
    /// A polyphonic sequencer over bank-registered note subgraphs.
    Sequencer(SeqData),
    /// A fixed recording played back at a resampling rate.
    Player(Vec<T>, T, T),
    /// A plucked string: noise ring, smoothing, body gain, last output,
    /// read position.
    Pluck(Vec<T>, T, T, T, usize),
}

/// The ghost image of a node: the same tree with every buffer seen as a
/// sequence.
pub enum NodeModel<T: Sample> {
    Const(T),
    Bin(BinKind, Box<NodeModel<T>>, Box<NodeModel<T>>),
    Neg(Box<NodeModel<T>>),
    Shared(usize),
    Delay(Box<NodeModel<T>>, Seq<T>),
    Comb(Box<NodeModel<T>>, Seq<T>),
    SoftClip(Box<NodeModel<T>>),
    RingMod(Box<NodeModel<T>>, Box<NodeModel<T>>, Box<NodeModel<T>>),
    Rlpf(Box<NodeModel<T>>, Box<NodeModel<T>>, Box<NodeModel<T>>, RlpfState<T>),
    Svf(Box<NodeModel<T>>, Box<NodeModel<T>>, Box<NodeModel<T>>, SvfState<T>),
    AllPass(Box<NodeModel<T>>, T, Seq<T>),
    Adsr(AdsrState<T>),
    Table(Box<NodeModel<T>>, Seq<(T, Seq<T>)>, T),
    White(u64),
    Impulses(T, u64),
    Brownian(Box<NodeModel<T>>, Box<NodeModel<T>>, T, u64),
    Sequencer(SeqModel),
    Player(Seq<T>, T, T),
    Pluck(Seq<T>, T, T, T, usize),
}

/// The ghost image of a node.
pub open spec fn node_model<T: Sample>(n: Node<T>) -> NodeModel<T>
    decreases n,
{
    match n {
        Node::Const(c) => NodeModel::Const(c),
        Node::Bin(k, a, c) => NodeModel::Bin(k, Box::new(node_model(*a)), Box::new(node_model(*c))),
        Node::Neg(a) => NodeModel::Neg(Box::new(node_model(*a))),
        Node::Shared(i) => NodeModel::Shared(i),
        Node::Delay(a, q) => NodeModel::Delay(Box::new(node_model(*a)), q@),
        Node::Comb(a, q) => NodeModel::Comb(Box::new(node_model(*a)), q@),
        Node::SoftClip(a) => NodeModel::SoftClip(Box::new(node_model(*a))),
        Node::RingMod(a, c, d) => NodeModel::RingMod(
            Box::new(node_model(*a)),
            Box::new(node_model(*c)),
            Box::new(node_model(*d)),
        ),
        Node::Rlpf(a, c, d, st) => NodeModel::Rlpf(
            Box::new(node_model(*a)),
            Box::new(node_model(*c)),
            Box::new(node_model(*d)),
            st,
        ),
        Node::Svf(a, c, d, st) => NodeModel::Svf(
            Box::new(node_model(*a)),
            Box::new(node_model(*c)),
            Box::new(node_model(*d)),
            st,
        ),
        Node::AllPass(a, k, q) => NodeModel::AllPass(Box::new(node_model(*a)), k, q@),
        Node::Adsr(st) => NodeModel::Adsr(st),
        Node::Table(a, tables, pos) => NodeModel::Table(
            Box::new(node_model(*a)),
            tables_model(tables@),
            pos,
        ),
        Node::White(s) => NodeModel::White(s),
        Node::Impulses(f, s) => NodeModel::Impulses(f, s),
        Node::Brownian(a, c, cur, s) => NodeModel::Brownian(
            Box::new(node_model(*a)),
            Box::new(node_model(*c)),
            cur,
            s,
        ),
        Node::Sequencer(sd) => NodeModel::Sequencer(sd@),
        Node::Player(samples, pos, rate) => NodeModel::Player(samples@, pos, rate),
        Node::Pluck(buf, smoothing, amp, prev, pos) => NodeModel::Pluck(
            buf@,
            smoothing,
            amp,
            prev,
            pos,
        ),
    }
}

impl<T: Sample> View for Node<T> {
    type V = NodeModel<T>;

    open spec fn view(&self) -> NodeModel<T> {
        node_model(*self)
    }
}

/// The ghost image of one bank entry: its subgraph and its memo, the
/// latter holding the trigger key `(time, count)` and the cached samples.
pub struct EntryModel<T: Sample> {
    pub node: NodeModel<T>,
    pub memo: Option<(u64, nat, Seq<T>)>,
}

/// One shared subgraph with its at-most-once-per-tick memo.
pub struct Entry<T: Sample> {
    pub node: Node<T>,
    pub memo: Option<(u64, usize, Vec<T>)>,
}

impl<T: Sample> View for Entry<T> {
    type V = EntryModel<T>;

    open spec fn view(&self) -> EntryModel<T> {
        EntryModel {
            node: self.node@,
            memo: match self.memo {
                Some(m) => Some((m.0, m.1 as nat, m.2@)),
                None => None,
            },
        }
    }
}

/// The owner of every shared subgraph of one render session.
pub struct Bank<T: Sample> {
    pub entries: Vec<Entry<T>>,
}

impl<T: Sample> View for Bank<T> {
    type V = Seq<EntryModel<T>>;

    open spec fn view(&self) -> Seq<EntryModel<T>> {
        models(self.entries@)
    }
}

/// The ghost image of a run of bank entries.
pub open spec fn models<T: Sample>(s: Seq<Entry<T>>) -> Seq<EntryModel<T>> {
    Seq::new(s.len(), |i: int| s[i]@)
}

/// Every `Shared` leaf of `n` points strictly below `b`.
pub open spec fn refs_ok<T: Sample>(n: NodeModel<T>, b: int) -> bool
    decreases n,
{
    match n {
        NodeModel::Const(_) => true,
        NodeModel::Bin(_, a, c) => refs_ok(*a, b) && refs_ok(*c, b),
        NodeModel::Neg(a) => refs_ok(*a, b),
        NodeModel::Shared(i) => (i as int) < b,
        NodeModel::Delay(a, _) => refs_ok(*a, b),
        NodeModel::Comb(a, _) => refs_ok(*a, b),
        NodeModel::SoftClip(a) => refs_ok(*a, b),
        NodeModel::RingMod(a, c, d) => refs_ok(*a, b) && refs_ok(*c, b) && refs_ok(*d, b),
        NodeModel::Rlpf(a, c, d, _) => refs_ok(*a, b) && refs_ok(*c, b) && refs_ok(*d, b),
        NodeModel::Svf(a, c, d, _) => refs_ok(*a, b) && refs_ok(*c, b) && refs_ok(*d, b),
        NodeModel::AllPass(a, _, _) => refs_ok(*a, b),
        NodeModel::Adsr(_) => true,
        NodeModel::Table(a, _, _) => refs_ok(*a, b),
        NodeModel::White(_) => true,
        NodeModel::Impulses(_, _) => true,
        NodeModel::Brownian(a, c, _, _) => refs_ok(*a, b) && refs_ok(*c, b),
        NodeModel::Sequencer(sd) => seq_refs_ok(sd, b),
        NodeModel::Player(_, _, _) => true,
        NodeModel::Pluck(_, _, _, _, _) => true,
    }
}

/// Structural height of a node, the engine's recursion measure.
pub open spec fn node_height<T: Sample>(n: NodeModel<T>) -> nat
    decreases n,
{
    match n {
        NodeModel::Const(_) => 0,
        NodeModel::Bin(_, a, c) => (1 + vstd::math::max(
            node_height(*a) as int,
            node_height(*c) as int,
        )) as nat,
        NodeModel::Neg(a) => (1 + node_height(*a) as int) as nat,
        NodeModel::Shared(_) => 0,
        NodeModel::Delay(a, _) => (1 + node_height(*a) as int) as nat,
        NodeModel::Comb(a, _) => (1 + node_height(*a) as int) as nat,
        NodeModel::SoftClip(a) => (1 + node_height(*a) as int) as nat,
        NodeModel::RingMod(a, c, d) => (1 + vstd::math::max(
            node_height(*a) as int,
            vstd::math::max(node_height(*c) as int, node_height(*d) as int),
        )) as nat,
        NodeModel::Rlpf(a, c, d, _) => (1 + vstd::math::max(
            node_height(*a) as int,
            vstd::math::max(node_height(*c) as int, node_height(*d) as int),
        )) as nat,
        NodeModel::Svf(a, c, d, _) => (1 + vstd::math::max(
            node_height(*a) as int,
            vstd::math::max(node_height(*c) as int, node_height(*d) as int),
        )) as nat,
        NodeModel::AllPass(a, _, _) => (1 + node_height(*a) as int) as nat,
        NodeModel::Adsr(_) => 0,
        NodeModel::Table(a, _, _) => (1 + node_height(*a) as int) as nat,
        NodeModel::White(_) => 0,
        NodeModel::Impulses(_, _) => 0,
        NodeModel::Brownian(a, c, _, _) => (1 + vstd::math::max(
            node_height(*a) as int,
            node_height(*c) as int,
        )) as nat,
        NodeModel::Sequencer(_) => 1,
        NodeModel::Player(_, _, _) => 0,
        NodeModel::Pluck(_, _, _, _, _) => 0,
    }
}

/// A reference bound only loosens as the bank grows.
pub proof fn lemma_refs_ok_widen<T: Sample>(n: NodeModel<T>, b: int, c: int)
    requires
        refs_ok(n, b),
        b <= c,
    ensures
        refs_ok(n, c),
    decreases node_height(n), n,
{
    match n {
        NodeModel::Const(_) => {},
        NodeModel::Bin(_, a, d) => {
            lemma_refs_ok_widen(*a, b, c);
            lemma_refs_ok_widen(*d, b, c);
        },
        NodeModel::Neg(a) => {
            lemma_refs_ok_widen(*a, b, c);
        },
        NodeModel::Shared(_) => {},
        NodeModel::Delay(a, _) => {
            lemma_refs_ok_widen(*a, b, c);
        },
        NodeModel::Comb(a, _) => {
            lemma_refs_ok_widen(*a, b, c);
        },
        NodeModel::SoftClip(a) => {
            lemma_refs_ok_widen(*a, b, c);
        },
        NodeModel::RingMod(a, d, e) => {
            lemma_refs_ok_widen(*a, b, c);
            lemma_refs_ok_widen(*d, b, c);
            lemma_refs_ok_widen(*e, b, c);
        },
        NodeModel::Rlpf(a, d, e, _) => {
            lemma_refs_ok_widen(*a, b, c);
            lemma_refs_ok_widen(*d, b, c);
            lemma_refs_ok_widen(*e, b, c);
        },
        NodeModel::Svf(a, d, e, _) => {
            lemma_refs_ok_widen(*a, b, c);
            lemma_refs_ok_widen(*d, b, c);
            lemma_refs_ok_widen(*e, b, c);
        },
        NodeModel::AllPass(a, _, _) => {
            lemma_refs_ok_widen(*a, b, c);
        },
        NodeModel::Adsr(_) => {},
        NodeModel::Table(a, _, _) => {
            lemma_refs_ok_widen(*a, b, c);
        },
        NodeModel::White(_) => {},
        NodeModel::Impulses(_, _) => {},
        NodeModel::Brownian(a, d, _, _) => {
            lemma_refs_ok_widen(*a, b, c);
            lemma_refs_ok_widen(*d, b, c);
        },
        NodeModel::Sequencer(_) => {},
        NodeModel::Player(_, _, _) => {},
        NodeModel::Pluck(_, _, _, _, _) => {},
    }
}

/// A bank entry in its place: it refers only to earlier entries, and its
/// memo, if any, caches exactly as many samples as its key promises.
pub open spec fn entry_ok<T: Sample>(e: EntryModel<T>, i: int) -> bool {
    &&& refs_ok(e.node, i)
    &&& match e.memo {
        Some(m) => m.2.len() == m.1,
        None => true,
    }
}

/// The first `b` entries of the bank are each in order.
pub open spec fn prefix_ok<T: Sample>(bank: Seq<EntryModel<T>>, b: int) -> bool {
    forall|j: int| 0 <= j < b ==> entry_ok(#[trigger] bank[j], j)
}

/// Whether a memo answers for the tick `(time, count)`.
pub open spec fn memo_hit<T: Sample>(
    memo: Option<(u64, nat, Seq<T>)>,
    time: u64,
    count: nat,
) -> bool {
    match memo {
        Some(m) => m.0 == time && m.1 == count,
        None => false,
    }
}

/// The engine's semantics: evaluating `n` for `count` samples against the
/// bank yields the new bank, the node with its state advanced, and the
/// emitted samples. `bound` caps which entries a `Shared` leaf may touch;
/// an out-of-range reference yields silence and changes nothing.
pub open spec fn fill_spec<T: Sample>(
    bank: Seq<EntryModel<T>>,
    n: NodeModel<T>,
    env: Env,
    count: nat,
    bound: int,
) -> (Seq<EntryModel<T>>, NodeModel<T>, Seq<T>)
    decreases bound, 3 * node_height(n) + 2, 0nat, 0nat,
{
    match n {
        NodeModel::Const(c) => (bank, n, Seq::new(count, |i: int| c)),
        NodeModel::Neg(a) => {
            let (b1, a1, s) = fill_spec(bank, *a, env, count, bound);
            (b1, NodeModel::Neg(Box::new(a1)), Seq::new(count, |i: int| T::sp_neg(s[i])))
        },
        NodeModel::Bin(op, a, c) => {
            let (b1, a1, sa) = fill_spec(bank, *a, env, count, bound);
            let (b2, c1, sc) = fill_spec(b1, *c, env, count, bound);
            (
                b2,
                NodeModel::Bin(op, Box::new(a1), Box::new(c1)),
                Seq::new(count, |i: int| bin_apply(op, sa[i], sc[i])),
            )
        },
        NodeModel::Shared(i) => {
            if 0 <= i < bound && i < bank.len() {
                let e = bank[i as int];
                if memo_hit(e.memo, env.time, count) {
                    (bank, n, e.memo.unwrap().2)
                } else {
                    let (b1, n1, s) = fill_spec(bank, e.node, env, count, i as int);
                    (
                        b1.update(
                            i as int,
                            EntryModel { node: n1, memo: Some((env.time, count, s)) },
                        ),
                        n,
                        s,
                    )
                }
            } else {
                (bank, n, Seq::new(count, |i: int| T::sp_zero()))
            }
        },
        NodeModel::Delay(a, q) => {
            let (b1, a1, sa) = fill_spec(bank, *a, env, count, bound);
            (
                b1,
                NodeModel::Delay(Box::new(a1), delay_state_at(q, sa, sa.len())),
                delay_outs(q, sa),
            )
        },
        NodeModel::Comb(a, q) => {
            let (b1, a1, sa) = fill_spec(bank, *a, env, count, bound);
            (
                b1,
                NodeModel::Comb(Box::new(a1), delay_state_at(q, sa, sa.len())),
                comb_outs(q, sa),
            )
        },
        NodeModel::SoftClip(a) => {
            let (b1, a1, sa) = fill_spec(bank, *a, env, count, bound);
            (
                b1,
                NodeModel::SoftClip(Box::new(a1)),
                Seq::new(count, |i: int| sp_soft_clip(sa[i])),
            )
        },
        NodeModel::RingMod(a, c, d) => {
            let (b1, a1, sa) = fill_spec(bank, *a, env, count, bound);
            let (b2, c1, sc) = fill_spec(b1, *c, env, count, bound);
            let (b3, d1, sd) = fill_spec(b2, *d, env, count, bound);
            (
                b3,
                NodeModel::RingMod(Box::new(a1), Box::new(c1), Box::new(d1)),
                ringmod_outs(sa, sc, sd, count),
            )
        },
        NodeModel::Rlpf(a, c, d, st) => {
            let (b1, c1, sc) = fill_spec(bank, *c, env, count, bound);
            let (b2, d1, sq) = fill_spec(b1, *d, env, count, bound);
            let (b3, a1, si) = fill_spec(b2, *a, env, count, bound);
            (
                b3,
                NodeModel::Rlpf(
                    Box::new(a1),
                    Box::new(c1),
                    Box::new(d1),
                    rlpf_state_at(st, si, sc, sq, si.len()),
                ),
                rlpf_outs(st, si, sc, sq),
            )
        },
        NodeModel::Svf(a, c, d, st) => {
            let (b1, a1, si) = fill_spec(bank, *a, env, count, bound);
            let (b2, c1, sc) = fill_spec(b1, *c, env, count, bound);
            let (b3, d1, sq) = fill_spec(b2, *d, env, count, bound);
            (
                b3,
                NodeModel::Svf(
                    Box::new(a1),
                    Box::new(c1),
                    Box::new(d1),
                    svf_state_at(st, si, sc, sq, env.sample_rate, si.len()),
                ),
                svf_outs(st, si, sc, sq, env.sample_rate),
            )
        },
        NodeModel::AllPass(a, k, q) => {
            let (b1, a1, sa) = fill_spec(bank, *a, env, count, bound);
            (
                b1,
                NodeModel::AllPass(Box::new(a1), k, allpass_state_at(q, k, sa, sa.len())),
                allpass_outs(q, k, sa),
            )
        },
        NodeModel::Adsr(st) => (
            bank,
            NodeModel::Adsr(adsr_state_at(st, env.sample_rate, count)),
            adsr_outs(st, env.sample_rate, count),
        ),
        NodeModel::Table(a, tables, pos) => {
            let (b1, a1, sf) = fill_spec(bank, *a, env, count, bound);
            (
                b1,
                NodeModel::Table(
                    Box::new(a1),
                    tables,
                    osc_pos_at(tables, pos, sf, env.sample_rate, sf.len()),
                ),
                osc_outs(tables, pos, sf, env.sample_rate),
            )
        },
        NodeModel::White(st) => (
            bank,
            NodeModel::White(white_state_at(st, count)),
            white_outs::<T>(st, count),
        ),
        NodeModel::Impulses(f, st) => (
            bank,
            NodeModel::Impulses(f, white_state_at(st, count)),
            impulse_outs::<T>(st, f, env.sample_rate, count),
        ),
        NodeModel::Brownian(a, c, cur, st) => {
            let (b1, a1, sf) = fill_spec(bank, *a, env, count, bound);
            let (b2, c1, sw) = fill_spec(b1, *c, env, count, bound);
            let end = brownian_state_at(cur, st, sf, sw, env.sample_rate, sf.len());
            (
                b2,
                NodeModel::Brownian(Box::new(a1), Box::new(c1), end.0, end.1),
                brownian_outs(cur, st, sf, sw, env.sample_rate),
            )
        },
        NodeModel::Sequencer(sd) => {
            let (b1, sd1, out) = seq_chunks::<T>(bank, sd, env, count, bound);
            (b1, NodeModel::Sequencer(sd1), out)
        },
        NodeModel::Player(samples, pos, rate) => (
            bank,
            NodeModel::Player(samples, player_pos_at(samples, pos, rate, count), rate),
            player_outs(samples, pos, rate, count),
        ),
        NodeModel::Pluck(buf, smoothing, amp, prev, pos) => {
            let s = pluck_state_at(buf, smoothing, amp, prev, pos, count);
            (
                bank,
                NodeModel::Pluck(s.0, smoothing, amp, s.1, s.2),
                pluck_outs(buf, smoothing, amp, prev, pos, count),
            )
        },
    }
}

/// Unconditional shape facts of one evaluation step: the bank keeps its
/// length, entries at or above `bound` are untouched, reference bounds
/// carry over, and no node grows.
pub proof fn lemma_fill_shape<T: Sample>(
    bank: Seq<EntryModel<T>>,
    n: NodeModel<T>,
    env: Env,
    count: nat,
    bound: int,
)
    ensures
        ({
            let (b2, n2, o) = fill_spec(bank, n, env, count, bound);
            &&& b2.len() == bank.len()
            &&& (refs_ok(n, bound) ==> refs_ok(n2, bound))
            &&& node_height(n2) <= node_height(n)
            &&& forall|j: int| 0 <= j < bank.len() && !(0 <= j < bound) ==> b2[j] == bank[j]
            &&& forall|j: int|
                0 <= j < bank.len() ==> node_height(#[trigger] b2[j].node) <= node_height(
                    bank[j].node,
                )
        }),
    decreases bound, 3 * node_height(n) + 2, 0nat, 0nat,
{
    match n {
        NodeModel::Const(_) => {},
        NodeModel::Neg(a) => {
            lemma_fill_shape(bank, *a, env, count, bound);
        },
        NodeModel::Bin(op, a, c) => {
            lemma_fill_shape(bank, *a, env, count, bound);
            let (b1, a1, sa) = fill_spec(bank, *a, env, count, bound);
            lemma_fill_shape(b1, *c, env, count, bound);
        },
        NodeModel::Shared(i) => {
            if 0 <= i < bound && i < bank.len() {
                let e = bank[i as int];
                if !memo_hit(e.memo, env.time, count) {
                    lemma_fill_shape(bank, e.node, env, count, i as int);
                }
            }
        },
        NodeModel::Delay(a, _) => {
            lemma_fill_shape(bank, *a, env, count, bound);
        },
        NodeModel::Comb(a, _) => {
            lemma_fill_shape(bank, *a, env, count, bound);
        },
        NodeModel::SoftClip(a) => {
            lemma_fill_shape(bank, *a, env, count, bound);
        },
        NodeModel::RingMod(a, c, d) => {
            lemma_fill_shape(bank, *a, env, count, bound);
            let (b1, a1, sa) = fill_spec(bank, *a, env, count, bound);
            lemma_fill_shape(b1, *c, env, count, bound);
            let (b2, c1, sc) = fill_spec(b1, *c, env, count, bound);
            lemma_fill_shape(b2, *d, env, count, bound);
        },
        NodeModel::Rlpf(a, c, d, _) => {
            lemma_fill_shape(bank, *c, env, count, bound);
            let (b1, x1, s1) = fill_spec(bank, *c, env, count, bound);
            lemma_fill_shape(b1, *d, env, count, bound);
            let (b2, x2, s2) = fill_spec(b1, *d, env, count, bound);
            lemma_fill_shape(b2, *a, env, count, bound);
        },
        NodeModel::Svf(a, c, d, _) => {
            lemma_fill_shape(bank, *a, env, count, bound);
            let (b1, x1, s1) = fill_spec(bank, *a, env, count, bound);
            lemma_fill_shape(b1, *c, env, count, bound);
            let (b2, x2, s2) = fill_spec(b1, *c, env, count, bound);
            lemma_fill_shape(b2, *d, env, count, bound);
        },
        NodeModel::AllPass(a, _, _) => {
            lemma_fill_shape(bank, *a, env, count, bound);
        },
        NodeModel::Adsr(_) => {},
        NodeModel::White(_) => {},
        NodeModel::Impulses(_, _) => {},
        NodeModel::Table(a, _, _) => {
            lemma_fill_shape(bank, *a, env, count, bound);
        },
        NodeModel::Brownian(a, c, _, _) => {
            lemma_fill_shape(bank, *a, env, count, bound);
            let (b1, a1, sa) = fill_spec(bank, *a, env, count, bound);
            lemma_fill_shape(b1, *c, env, count, bound);
        },
        NodeModel::Sequencer(sd) => {
            lemma_seq_chunks_shape::<T>(bank, sd, env, count, bound);
        },
        NodeModel::Player(_, _, _) => {},
        NodeModel::Pluck(_, _, _, _, _) => {},
    }
}

/// Bookkeeping facts of one evaluation step over an ordered bank: exactly
/// `count` samples come out and the bank stays ordered.
pub proof fn lemma_fill_props<T: Sample>(
    bank: Seq<EntryModel<T>>,
    n: NodeModel<T>,
    env: Env,
    count: nat,
    bound: int,
)
    requires
        0 <= bound <= bank.len(),
        refs_ok(n, bound),
        prefix_ok(bank, bound),
    ensures
        ({
            let (b2, n2, o) = fill_spec(bank, n, env, count, bound);
            &&& b2.len() == bank.len()
            &&& o.len() == count
            &&& refs_ok(n2, bound)
            &&& node_height(n2) <= node_height(n)
            &&& prefix_ok(b2, bound)
            &&& forall|j: int|
                0 <= j < bound ==> node_height(#[trigger] b2[j].node) <= node_height(bank[j].node)
            &&& forall|j: int| bound <= j < bank.len() ==> b2[j] == bank[j]
        }),
    decreases bound, 3 * node_height(n) + 2, 0nat, 0nat,
{
    lemma_fill_shape(bank, n, env, count, bound);
    match n {
        NodeModel::Const(_) => {},
        NodeModel::Neg(a) => {
            lemma_fill_props(bank, *a, env, count, bound);
        },
        NodeModel::Bin(op, a, c) => {
            lemma_fill_props(bank, *a, env, count, bound);
            let (b1, a1, sa) = fill_spec(bank, *a, env, count, bound);
            lemma_fill_props(b1, *c, env, count, bound);
        },
        NodeModel::Shared(i) => {
            if 0 <= i < bound && i < bank.len() {
                let e = bank[i as int];
                if memo_hit(e.memo, env.time, count) {
                    assert(entry_ok(bank[i as int], i as int));
                } else {
                    assert(entry_ok(bank[i as int], i as int));
                    lemma_fill_props(bank, e.node, env, count, i as int);
                    lemma_fill_shape(bank, e.node, env, count, i as int);
                }
            }
        },
        NodeModel::Delay(a, _) => {
            lemma_fill_props(bank, *a, env, count, bound);
        },
        NodeModel::Comb(a, _) => {
            lemma_fill_props(bank, *a, env, count, bound);
        },
        NodeModel::SoftClip(a) => {
            lemma_fill_props(bank, *a, env, count, bound);
        },
        NodeModel::RingMod(a, c, d) => {
            lemma_fill_props(bank, *a, env, count, bound);
            let (b1, a1, sa) = fill_spec(bank, *a, env, count, bound);
            lemma_fill_props(b1, *c, env, count, bound);
            let (b2, c1, sc) = fill_spec(b1, *c, env, count, bound);
            lemma_fill_props(b2, *d, env, count, bound);
        },
        NodeModel::Rlpf(a, c, d, _) => {
            lemma_fill_props(bank, *c, env, count, bound);
            let (b1, x1, s1) = fill_spec(bank, *c, env, count, bound);
            lemma_fill_props(b1, *d, env, count, bound);
            let (b2, x2, s2) = fill_spec(b1, *d, env, count, bound);
            lemma_fill_props(b2, *a, env, count, bound);
        },
        NodeModel::Svf(a, c, d, _) => {
            lemma_fill_props(bank, *a, env, count, bound);
            let (b1, x1, s1) = fill_spec(bank, *a, env, count, bound);
            lemma_fill_props(b1, *c, env, count, bound);
            let (b2, x2, s2) = fill_spec(b1, *c, env, count, bound);
            lemma_fill_props(b2, *d, env, count, bound);
        },
        NodeModel::AllPass(a, _, _) => {
            lemma_fill_props(bank, *a, env, count, bound);
        },
        NodeModel::Adsr(_) => {},
        NodeModel::White(_) => {},
        NodeModel::Impulses(_, _) => {},
        NodeModel::Table(a, _, _) => {
            lemma_fill_props(bank, *a, env, count, bound);
        },
        NodeModel::Brownian(a, c, _, _) => {
            lemma_fill_props(bank, *a, env, count, bound);
            let (b1, a1, sa) = fill_spec(bank, *a, env, count, bound);
            lemma_fill_props(b1, *c, env, count, bound);
        },
        NodeModel::Sequencer(sd) => {
            lemma_seq_chunks_props::<T>(bank, sd, env, count, bound);
        },
        NodeModel::Player(_, _, _) => {},
        NodeModel::Pluck(_, _, _, _, _) => {},
    }
}

/// Evaluation only reads the bank below `bound`: two banks that agree
/// there produce the same node, the same samples, and agreeing banks.
pub proof fn lemma_fill_frame<T: Sample>(
    s: Seq<EntryModel<T>>,
    t: Seq<EntryModel<T>>,
    n: NodeModel<T>,
    env: Env,
    count: nat,
    bound: int,
)
    requires
        0 <= bound <= s.len(),
        bound <= t.len(),
        forall|j: int| 0 <= j < bound ==> s[j] == t[j],
    ensures
        ({
            let (s2, n2, o) = fill_spec(s, n, env, count, bound);
            let (t2, n3, p) = fill_spec(t, n, env, count, bound);
            &&& n3 == n2
            &&& p == o
            &&& s2.len() == s.len()
            &&& t2.len() == t.len()
            &&& forall|j: int| 0 <= j < bound ==> s2[j] == t2[j]
        }),
    decreases bound, 3 * node_height(n) + 2, 0nat, 0nat,
{
    lemma_fill_shape(s, n, env, count, bound);
    lemma_fill_shape(t, n, env, count, bound);
    match n {
        NodeModel::Const(_) => {},
        NodeModel::Neg(a) => {
            lemma_fill_frame(s, t, *a, env, count, bound);
        },
        NodeModel::Bin(op, a, c) => {
            lemma_fill_frame(s, t, *a, env, count, bound);
            let (s1, a1, sa) = fill_spec(s, *a, env, count, bound);
            let (t1, a2, ta) = fill_spec(t, *a, env, count, bound);
            lemma_fill_frame(s1, t1, *c, env, count, bound);
        },
        NodeModel::Shared(i) => {
            if 0 <= i < bound {
                lemma_fill_frame(s, t, s[i as int].node, env, count, i as int);
                lemma_fill_shape(s, s[i as int].node, env, count, i as int);
                lemma_fill_shape(t, t[i as int].node, env, count, i as int);
            }
        },
        NodeModel::Delay(a, _) => {
            lemma_fill_frame(s, t, *a, env, count, bound);
        },
        NodeModel::Comb(a, _) => {
            lemma_fill_frame(s, t, *a, env, count, bound);
        },
        NodeModel::SoftClip(a) => {
            lemma_fill_frame(s, t, *a, env, count, bound);
        },
        NodeModel::RingMod(a, c, d) => {
            lemma_fill_frame(s, t, *a, env, count, bound);
            let (s1, a1, sa) = fill_spec(s, *a, env, count, bound);
            let (t1, a2, ta) = fill_spec(t, *a, env, count, bound);
            lemma_fill_frame(s1, t1, *c, env, count, bound);
            let (s2, c1, sc) = fill_spec(s1, *c, env, count, bound);
            let (t2, c2, tc) = fill_spec(t1, *c, env, count, bound);
            lemma_fill_frame(s2, t2, *d, env, count, bound);
        },
        NodeModel::Rlpf(a, c, d, _) => {
            lemma_fill_frame(s, t, *c, env, count, bound);
            let (s1, x1, u1) = fill_spec(s, *c, env, count, bound);
            let (t1, x2, u2) = fill_spec(t, *c, env, count, bound);
            lemma_fill_frame(s1, t1, *d, env, count, bound);
            let (s2, x3, u3) = fill_spec(s1, *d, env, count, bound);
            let (t2, x4, u4) = fill_spec(t1, *d, env, count, bound);
            lemma_fill_frame(s2, t2, *a, env, count, bound);
        },
        NodeModel::Svf(a, c, d, _) => {
            lemma_fill_frame(s, t, *a, env, count, bound);
            let (s1, x1, u1) = fill_spec(s, *a, env, count, bound);
            let (t1, x2, u2) = fill_spec(t, *a, env, count, bound);
            lemma_fill_frame(s1, t1, *c, env, count, bound);
            let (s2, x3, u3) = fill_spec(s1, *c, env, count, bound);
            let (t2, x4, u4) = fill_spec(t1, *c, env, count, bound);
            lemma_fill_frame(s2, t2, *d, env, count, bound);
        },
        NodeModel::AllPass(a, _, _) => {
            lemma_fill_frame(s, t, *a, env, count, bound);
        },
        NodeModel::Adsr(_) => {},
        NodeModel::White(_) => {},
        NodeModel::Impulses(_, _) => {},
        NodeModel::Table(a, _, _) => {
            lemma_fill_frame(s, t, *a, env, count, bound);
        },
        NodeModel::Brownian(a, c, _, _) => {
            lemma_fill_frame(s, t, *a, env, count, bound);
            let (s1, x1, u1) = fill_spec(s, *a, env, count, bound);
            let (t1, x2, u2) = fill_spec(t, *a, env, count, bound);
            lemma_fill_frame(s1, t1, *c, env, count, bound);
        },
        NodeModel::Sequencer(sd) => {
            lemma_seq_chunks_frame::<T>(s, t, sd, env, count, bound);
        },
        NodeModel::Player(_, _, _) => {},
        NodeModel::Pluck(_, _, _, _, _) => {},
    }
}

/// Copies a sample buffer.
pub(crate) fn copy_samples<T: Sample>(v: &Vec<T>) -> (r: Vec<T>)
    ensures
        r@ == v@,
{
    let mut r: Vec<T> = Vec::new();
    let mut i: usize = 0;
    while i < v.len()
        invariant
            i <= v@.len(),
            r@ == v@.take(i as int),
        decreases v@.len() - i,
    {
        r.push(v[i]);
        proof {
            assert(r@ =~= v@.take(i + 1));
        }
        i = i + 1;
    }
    proof {
        assert(v@.take(v@.len() as int) =~= v@);
    }
    r
}

/// Fills every slot with the same sample.
pub(crate) fn splat<T: Sample>(c: T, count: usize) -> (r: Vec<T>)
    ensures
        r@ == Seq::new(count as nat, |i: int| c),
{
    let mut r: Vec<T> = Vec::new();
    let mut i: usize = 0;
    while i < count
        invariant
            i <= count,
            r@.len() == i,
            forall|j: int| 0 <= j < i ==> r@[j] == c,
        decreases count - i,
    {
        r.push(c);
        i = i + 1;
    }
    proof {
        assert(r@ =~= Seq::new(count as nat, |i: int| c));
    }
    r
}

/// Element-wise combination of two equal-length buffers.
pub(crate) fn bin_combine<T: Sample>(op: BinKind, a: &Vec<T>, b: &Vec<T>) -> (r: Vec<T>)
    requires
        a@.len() == b@.len(),
    ensures
        r@ == Seq::new(a@.len(), |i: int| bin_apply(op, a@[i], b@[i])),
{
    let mut r: Vec<T> = Vec::new();
    let mut i: usize = 0;
    while i < a.len()
        invariant
            i <= a@.len(),
            a@.len() == b@.len(),
            r@.len() == i,
            forall|j: int| 0 <= j < i ==> r@[j] == bin_apply(op, a@[j], b@[j]),
        decreases a@.len() - i,
    {
        let x = match op {
            BinKind::Add => T::add(a[i], b[i]),
            BinKind::Sub => T::sub(a[i], b[i]),
            BinKind::Mul => T::mul(a[i], b[i]),
            BinKind::Div => T::div(a[i], b[i]),
        };
        r.push(x);
        i = i + 1;
    }
    proof {
        assert(r@ =~= Seq::new(a@.len(), |i: int| bin_apply(op, a@[i], b@[i])));
    }
    r
}

/// Element-wise negation of a buffer.
fn neg_all<T: Sample>(a: &Vec<T>) -> (r: Vec<T>)
    ensures
        r@ == Seq::new(a@.len(), |i: int| T::sp_neg(a@[i])),
{
    let mut r: Vec<T> = Vec::new();
    let mut i: usize = 0;
    while i < a.len()
        invariant
            i <= a@.len(),
            r@.len() == i,
            forall|j: int| 0 <= j < i ==> r@[j] == T::sp_neg(a@[j]),
        decreases a@.len() - i,
    {
        r.push(T::neg(a[i]));
        i = i + 1;
    }
    proof {
        assert(r@ =~= Seq::new(a@.len(), |i: int| T::sp_neg(a@[i])));
    }
    r
}

/// The engine's one evaluator: renders `count` samples of `node` against
/// the bank, advancing node state and bank memos exactly as [`fill_spec`]
/// says.
#[verifier::rlimit(100)]
pub(crate) fn fill<T: Sample>(
    bank: &mut Vec<Entry<T>>,
    node: &mut Node<T>,
    env: &Env,
    count: usize,
    Ghost(bound): Ghost<int>,
) -> (out: Vec<T>)
    requires
        0 <= bound <= old(bank)@.len(),
        refs_ok(old(node)@, bound),
        prefix_ok(models(old(bank)@), bound),
    ensures
        ({
            let (b2, n2, o) = fill_spec(models(old(bank)@), old(node)@, *env, count as nat, bound);
            &&& models(final(bank)@) == b2
            &&& final(node)@ == n2
            &&& out@ == o
        }),
    decreases bound, 3 * node_height(old(node)@) + 2, 0nat, 0nat,
{
    let ghost model = models(old(bank)@);
    match node {
        Node::Const(c) => {
            let out = splat(*c, count);
            proof {
                assert(old(node)@ == NodeModel::<T>::Const(*c));
                assert(out@ =~= fill_spec(model, old(node)@, *env, count as nat, bound).2);
            }
            out
        },
        Node::Neg(a) => {
            let sa = fill(bank, a, env, count, Ghost(bound));
            proof {
                lemma_fill_props(model, *old(node)@->Neg_0, *env, count as nat, bound);
            }
            let out = neg_all(&sa);
            proof {
                assert(out@ =~= fill_spec(model, old(node)@, *env, count as nat, bound).2);
            }
            out
        },
        Node::Bin(op, a, c) => {
            let k = *op;
            let sa = fill(bank, a, env, count, Ghost(bound));
            proof {
                lemma_fill_props(model, *old(node)@->Bin_1, *env, count as nat, bound);
            }
            let sc = fill(bank, c, env, count, Ghost(bound));
            proof {
                let (b1, a1, sa_) = fill_spec(model, *old(node)@->Bin_1, *env, count as nat, bound);
                lemma_fill_props(b1, *old(node)@->Bin_2, *env, count as nat, bound);
            }
            let out = bin_combine(k, &sa, &sc);
            proof {
                assert(out@ =~= fill_spec(model, old(node)@, *env, count as nat, bound).2);
            }
            out
        },
        Node::Shared(i) => {
            let idx: usize = *i;
            let mut hit: Option<Vec<T>> = None;
            {
                let e = &bank[idx];
                match &e.memo {
                    Some(m) => {
                        if m.0 == env.time && m.1 == count {
                            hit = Some(copy_samples(&m.2));
                        }
                    },
                    None => {},
                }
            }
            match hit {
                Some(out) => out,
                None => {
                    let mut e = bank.remove(idx);
                    let ghost removed = models(bank@);
                    proof {
                        assert(removed =~= model.remove(idx as int));
                    }
                    let sub = fill(bank, &mut e.node, env, count, Ghost(idx as int));
                    proof {
                        lemma_fill_frame(
                            removed,
                            model,
                            model[idx as int].node,
                            *env,
                            count as nat,
                            idx as int,
                        );
                        lemma_fill_shape(
                            removed,
                            model[idx as int].node,
                            *env,
                            count as nat,
                            idx as int,
                        );
                        lemma_fill_shape(
                            model,
                            model[idx as int].node,
                            *env,
                            count as nat,
                            idx as int,
                        );
                    }
                    e.memo = Some((env.time, count, copy_samples(&sub)));
                    bank.insert(idx, e);
                    proof {
                        let (b1, n1, s) = fill_spec(
                            model,
                            model[idx as int].node,
                            *env,
                            count as nat,
                            idx as int,
                        );
                        let (br, nr, sr) = fill_spec(
                            removed,
                            model[idx as int].node,
                            *env,
                            count as nat,
                            idx as int,
                        );
                        let target = b1.update(
                            idx as int,
                            EntryModel { node: n1, memo: Some((env.time, count as nat, s)) },
                        );
                        let got = models(bank@);
                        assert(got.len() == target.len());
                        assert forall|j: int| 0 <= j < got.len() implies got[j] == target[j] by {
                            if j < idx as int {
                                assert(got[j] == br[j]);
                            } else if j == idx as int {
                                assert(got[j] == e@);
                            } else {
                                assert(got[j] == br[j - 1]);
                                assert(br[j - 1] == removed[j - 1]);
                                assert(removed[j - 1] == model[j]);
                                assert(b1[j] == model[j]);
                            }
                        }
                        assert(got =~= target);
                        assert(old(node)@ == NodeModel::<T>::Shared(idx));
                        assert(!memo_hit(model[idx as int].memo, env.time, count as nat));
                        assert(sub@ == s);
                    }
                    sub
                },
            }
        },
        Node::Delay(a, q) => {
            let sa = fill(bank, a, env, count, Ghost(bound));
            proof {
                lemma_fill_props(model, *old(node)@->Delay_0, *env, count as nat, bound);
            }
            delay_run(q, &sa)
        },
        Node::Comb(a, q) => {
            let sa = fill(bank, a, env, count, Ghost(bound));
            proof {
                lemma_fill_props(model, *old(node)@->Comb_0, *env, count as nat, bound);
            }
            comb_run(q, &sa)
        },
        Node::SoftClip(a) => {
            let sa = fill(bank, a, env, count, Ghost(bound));
            proof {
                lemma_fill_props(model, *old(node)@->SoftClip_0, *env, count as nat, bound);
            }
            let out = soft_clip_all(&sa);
            proof {
                assert(out@ =~= fill_spec(model, old(node)@, *env, count as nat, bound).2);
            }
            out
        },
        Node::RingMod(a, c, d) => {
            let sa = fill(bank, a, env, count, Ghost(bound));
            proof {
                lemma_fill_props(model, *old(node)@->RingMod_0, *env, count as nat, bound);
            }
            let sc = fill(bank, c, env, count, Ghost(bound));
            proof {
                let (b1, a1, sa_) = fill_spec(
                    model,
                    *old(node)@->RingMod_0,
                    *env,
                    count as nat,
                    bound,
                );
                lemma_fill_props(b1, *old(node)@->RingMod_1, *env, count as nat, bound);
            }
            let sd = fill(bank, d, env, count, Ghost(bound));
            proof {
                let (b1, a1, sa_) = fill_spec(
                    model,
                    *old(node)@->RingMod_0,
                    *env,
                    count as nat,
                    bound,
                );
                let (b2, c1, sc_) = fill_spec(b1, *old(node)@->RingMod_1, *env, count as nat, bound);
                lemma_fill_props(b2, *old(node)@->RingMod_2, *env, count as nat, bound);
            }
            ringmod_combine(&sa, &sc, &sd)
        },
        Node::Rlpf(a, c, d, st) => {
            let sc = fill(bank, c, env, count, Ghost(bound));
            proof {
                lemma_fill_props(model, *old(node)@->Rlpf_1, *env, count as nat, bound);
            }
            let sq = fill(bank, d, env, count, Ghost(bound));
            proof {
                let (b1, x1, u1) = fill_spec(model, *old(node)@->Rlpf_1, *env, count as nat, bound);
                lemma_fill_props(b1, *old(node)@->Rlpf_2, *env, count as nat, bound);
            }
            let si = fill(bank, a, env, count, Ghost(bound));
            proof {
                let (b1, x1, u1) = fill_spec(model, *old(node)@->Rlpf_1, *env, count as nat, bound);
                let (b2, x2, u2) = fill_spec(b1, *old(node)@->Rlpf_2, *env, count as nat, bound);
                lemma_fill_props(b2, *old(node)@->Rlpf_0, *env, count as nat, bound);
            }
            rlpf_run(st, &si, &sc, &sq)
        },
        Node::Svf(a, c, d, st) => {
            let si = fill(bank, a, env, count, Ghost(bound));
            proof {
                lemma_fill_props(model, *old(node)@->Svf_0, *env, count as nat, bound);
            }
            let sc = fill(bank, c, env, count, Ghost(bound));
            proof {
                let (b1, x1, u1) = fill_spec(model, *old(node)@->Svf_0, *env, count as nat, bound);
                lemma_fill_props(b1, *old(node)@->Svf_1, *env, count as nat, bound);
            }
            let sq = fill(bank, d, env, count, Ghost(bound));
            proof {
                let (b1, x1, u1) = fill_spec(model, *old(node)@->Svf_0, *env, count as nat, bound);
                let (b2, x2, u2) = fill_spec(b1, *old(node)@->Svf_1, *env, count as nat, bound);
                lemma_fill_props(b2, *old(node)@->Svf_2, *env, count as nat, bound);
            }
            svf_run(st, &si, &sc, &sq, env.sample_rate)
        },
        Node::AllPass(a, k, q) => {
            let kk = *k;
            let sa = fill(bank, a, env, count, Ghost(bound));
            proof {
                lemma_fill_props(model, *old(node)@->AllPass_0, *env, count as nat, bound);
            }
            allpass_run(q, kk, &sa)
        },
        Node::Adsr(st) => {
            adsr_run(st, env.sample_rate, count)
        },
        Node::Table(a, tables, pos) => {
            let sf = fill(bank, a, env, count, Ghost(bound));
            proof {
                lemma_fill_props(model, *old(node)@->Table_0, *env, count as nat, bound);
            }
            osc_run(tables, pos, &sf, env.sample_rate)
        },
        Node::White(st) => {
            white_run(st, count)
        },
        Node::Impulses(f, st) => {
            let ff = *f;
            impulse_run(st, ff, env.sample_rate, count)
        },
        Node::Brownian(a, c, cur, st) => {
            let sf = fill(bank, a, env, count, Ghost(bound));
            proof {
                lemma_fill_props(model, *old(node)@->Brownian_0, *env, count as nat, bound);
            }
            let sw = fill(bank, c, env, count, Ghost(bound));
            proof {
                let (b1, x1, u1) = fill_spec(model, *old(node)@->Brownian_0, *env, count as nat, bound);
                lemma_fill_props(b1, *old(node)@->Brownian_1, *env, count as nat, bound);
            }
            brownian_run(cur, st, &sf, &sw, env.sample_rate)
        },
        Node::Sequencer(sd) => {
            seq_chunks_run(bank, sd, env, count, Ghost(bound))
        },
        Node::Player(samples, pos, rate) => {
            let rr = *rate;
            player_run(samples, pos, rr, count)
        },
        Node::Pluck(buf, smoothing, amp, prev, pos) => {
            let sm = *smoothing;
            let am = *amp;
            pluck_run(buf, sm, am, prev, pos, count)
        },
    }
}

/// The shared-value guarantee: a graph that references the same bank
/// entry twice and sums the two references runs the underlying subgraph
/// exactly once per tick — the bank afterwards is exactly the bank after
/// a single standalone reference — and every sample of the sum is the
/// element-wise double of the single evaluation, stateful subgraphs
/// included.
pub proof fn lemma_shared_dedup<T: Sample>(
    bank: Seq<EntryModel<T>>,
    i: usize,
    env: Env,
    count: nat,
    bound: int,
)
    requires
        (i as int) < bound,
        bound <= bank.len(),
        prefix_ok(bank, bound),
        !memo_hit(bank[i as int].memo, env.time, count),
    ensures
        ({
            let single = fill_spec(bank, NodeModel::Shared::<T>(i), env, count, bound);
            let pair = fill_spec(
                bank,
                NodeModel::Bin(
                    BinKind::Add,
                    Box::new(NodeModel::Shared::<T>(i)),
                    Box::new(NodeModel::Shared::<T>(i)),
                ),
                env,
                count,
                bound,
            );
            &&& pair.0 == single.0
            &&& pair.2 == Seq::new(count, |j: int| T::sp_add(single.2[j], single.2[j]))
        }),
{
    lemma_fill_props(bank, NodeModel::Shared::<T>(i), env, count, bound);
    let single = fill_spec(bank, NodeModel::Shared::<T>(i), env, count, bound);
    let (b1, n1, s) = fill_spec(bank, bank[i as int].node, env, count, i as int);
    lemma_fill_props(bank, bank[i as int].node, env, count, i as int);
    assert(single.0[i as int].memo == Some((env.time, count, s)));
    assert(memo_hit(single.0[i as int].memo, env.time, count));
    let second = fill_spec(single.0, NodeModel::Shared::<T>(i), env, count, bound);
    assert(second.0 == single.0);
    assert(second.2 == s);
    let pair = fill_spec(
        bank,
        NodeModel::Bin(
            BinKind::Add,
            Box::new(NodeModel::Shared::<T>(i)),
            Box::new(NodeModel::Shared::<T>(i)),
        ),
        env,
        count,
        bound,
    );
    assert(pair.2 =~= Seq::new(count, |j: int| T::sp_add(single.2[j], single.2[j])));
}

/// An owning, type-erased handle around exactly one node: the unit of
/// graph composition.
pub struct Value<T: Sample> {
    pub node: Node<T>,
}

impl<T: Sample> View for Value<T> {
    type V = NodeModel<T>;

    open spec fn view(&self) -> NodeModel<T> {
        self.node@
    }
}

/// Anything that can stand in a graph: a builder that renders itself as
/// one node.
pub trait ValueNode<T: Sample>: Sized {
    /// The node this builder denotes.
    spec fn sp_node(self) -> NodeModel<T>;

    /// Renders the builder as an owning graph handle.
    fn value(self) -> (v: Value<T>)
        ensures
            v@ == self.sp_node(),
    ;
}

impl<T: Sample> Value<T> {
    /// A broadcasting constant leaf.
    pub fn constant(c: T) -> (v: Value<T>)
        ensures
            v@ == NodeModel::<T>::Const(c),
    {
        Value { node: Node::Const(c) }
    }

    /// This graph only references bank entries that exist in `bank`.
    pub open spec fn wf(self, bank: Bank<T>) -> bool {
        refs_ok(self@, bank@.len() as int)
    }

    /// Fills `buffer[0..samples]` with this graph's next samples, leaving
    /// the rest of the buffer alone: exactly one evaluation step of
    /// [`fill_spec`] against the whole bank.
    pub fn fill_buffer(
        &mut self,
        env: &Env,
        bank: &mut Bank<T>,
        buffer: &mut Vec<T>,
        samples: usize,
    )
        requires
            old(self).wf(*old(bank)),
            old(bank).ok(),
            old(buffer)@.len() >= samples,
        ensures
            ({
                let (b2, n2, o) = fill_spec(
                    old(bank)@,
                    old(self)@,
                    *env,
                    samples as nat,
                    old(bank)@.len() as int,
                );
                &&& final(bank)@ == b2
                &&& final(self)@ == n2
                &&& final(buffer)@ == o + old(buffer)@.skip(samples as int)
                &&& final(self).wf(*final(bank))
                &&& final(bank).ok()
                &&& final(buffer)@.len() == old(buffer)@.len()
            }),
    {
        let ghost bound = old(bank)@.len() as int;
        let out = fill(&mut bank.entries, &mut self.node, env, samples, Ghost(bound));
        proof {
            lemma_fill_props(old(bank)@, old(self)@, *env, samples as nat, bound);
        }
        let mut i: usize = 0;
        while i < samples
            invariant
                i <= samples,
                samples <= buffer@.len(),
                out@.len() == samples,
                buffer@.len() == old(buffer)@.len(),
                forall|j: int| 0 <= j < i ==> buffer@[j] == out@[j],
                forall|j: int| i <= j < buffer@.len() ==> buffer@[j] == old(buffer)@[j],
            decreases samples - i,
        {
            let x = out[i];
            buffer[i] = x;
            i = i + 1;
        }
        proof {
            assert(final(buffer)@ =~= out@ + old(buffer)@.skip(samples as int));
        }
    }
}

impl<T: Sample> Value<T> {
    /// The recomputation count of this graph's root filter, when the root
    /// is one of the coefficient-caching filters: how often its design
    /// equations have run so far.
    pub fn recomputations(&self) -> (n: Option<u64>)
        ensures
            n == (match self@ {
                NodeModel::Rlpf(a, c, d, st) => Some(st.recomputes),
                NodeModel::Svf(a, c, d, st) => Some(st.recomputes),
                _ => None::<u64>,
            }),
    {
        match &self.node {
            Node::Rlpf(_, _, _, st) => Some(st.recomputes),
            Node::Svf(_, _, _, st) => Some(st.recomputes),
            _ => None,
        }
    }
}

impl<T: Sample> Bank<T> {
    /// The bank is in order: every entry refers only to earlier entries
    /// and its memo length matches its key.
    pub open spec fn ok(self) -> bool {
        prefix_ok(self@, self@.len() as int)
    }

    /// An empty bank.
    pub fn new() -> (bank: Bank<T>)
        ensures
            bank@ == Seq::<EntryModel<T>>::empty(),
            bank.ok(),
    {
        let bank = Bank { entries: Vec::new() };
        proof {
            assert(bank@ =~= Seq::<EntryModel<T>>::empty());
        }
        bank
    }
}

/// A reference-counted-style handle to one shared bank entry: cloning it
/// is free, and every copy renders as a reference to the same entry, so
/// all of them observe identical samples within one tick.
pub struct CacheValue<T: Sample> {
    pub index: usize,
    pub _sample: core::marker::PhantomData<T>,
}

impl<T: Sample> Clone for CacheValue<T> {
    fn clone(&self) -> (c: Self)
        ensures
            c == *self,
    {
        CacheValue { index: self.index, _sample: core::marker::PhantomData }
    }
}

impl<T: Sample> CacheValue<T> {
    /// Registers `value` as a shared subgraph of `bank` and hands back the
    /// handle all consumers should clone.
    pub fn new(bank: &mut Bank<T>, value: Value<T>) -> (c: CacheValue<T>)
        requires
            value.wf(*old(bank)),
            old(bank).ok(),
        ensures
            c.index == old(bank)@.len(),
            final(bank)@ == old(bank)@.push(EntryModel { node: value@, memo: None }),
            final(bank).ok(),
    {
        let index = bank.entries.len();
        bank.entries.push(Entry { node: value.node, memo: None });
        proof {
            assert(final(bank)@ =~= old(bank)@.push(EntryModel { node: value@, memo: None }));
        }
        CacheValue { index, _sample: core::marker::PhantomData }
    }
}

impl<T: Sample> ValueNode<T> for CacheValue<T> {
    open spec fn sp_node(self) -> NodeModel<T> {
        NodeModel::Shared(self.index)
    }

    fn value(self) -> (v: Value<T>) {
        Value { node: Node::Shared(self.index) }
    }
}

} // verus!
