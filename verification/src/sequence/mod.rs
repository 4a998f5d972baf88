//! The sequencer: turns a finite stream of timed note graphs into one
//! continuous polyphonic signal over a bounded rotating pool of voices.
//!
//! Each event's subgraph is registered in the session's [`Bank`] when the
//! sequence is built; the sequencer itself holds only entry indices. Per
//! render segment it pops due events into the voice ring — evicting the
//! oldest voice, never the newest — sums whatever the active voices
//! produce, and carries on until the requested count is filled. When the
//! events run out, the remaining time is silence for new notes while the
//! installed voices keep ringing.

use vstd::prelude::*;
use crate::sample::Sample;
use crate::value::{Bank, BinKind, Entry, EntryModel, Node, NodeModel, Value, ValueNode, models,
    fill_spec, prefix_ok, entry_ok};
use crate::Env;

verus! {

/// The sequencer's working state: pending events as `(duration in
/// nanoseconds, bank entry)` pairs, the voice ring of bank entries, and
/// the countdown until the next event is due.
pub struct SeqData {
    pub events: Vec<(u64, usize)>,
    pub voices: Vec<Option<usize>>,
    pub samples_remaining: u64,
}

/// The ghost image of the sequencer's working state.
pub struct SeqModel {
    pub events: Seq<(u64, usize)>,
    pub voices: Seq<Option<usize>>,
    pub samples_remaining: u64,
}

impl View for SeqData {
    type V = SeqModel;

    open spec fn view(&self) -> SeqModel {
        SeqModel {
            events: self.events@,
            voices: self.voices@,
            samples_remaining: self.samples_remaining,
        }
    }
}

/// Every entry index the sequencer holds lies strictly below `b`.
pub open spec fn seq_refs_ok(sd: SeqModel, b: int) -> bool {
    &&& forall|i: int| 0 <= i < sd.events.len() ==> (#[trigger] sd.events[i]).1 < b
    &&& forall|i: int|
        0 <= i < sd.voices.len() ==> match #[trigger] sd.voices[i] {
            Some(v) => v < b,
            None => true,
        }
}

/// A duration in nanoseconds as a sample count at the given rate,
/// truncated, saturating at the counter's range.
pub open spec fn dur_to_samples(nanos: u64, sample_rate: u32) -> u64 {
    let n = (nanos * sample_rate) / 1_000_000_000;
    if n > u64::MAX {
        u64::MAX
    } else {
        n as u64
    }
}

/// Computes a duration's sample count.
pub(crate) fn dur_to_samples_run(nanos: u64, sample_rate: u32) -> (r: u64)
    ensures
        r == dur_to_samples(nanos, sample_rate),
{
    proof {
        assert(nanos as int * sample_rate as int <= u64::MAX as int * u32::MAX as int)
            by (nonlinear_arith)
            requires
                nanos <= u64::MAX,
                sample_rate <= u32::MAX,
        ;
    }
    let n: u128 = (nanos as u128 * sample_rate as u128) / 1_000_000_000;
    if n > u64::MAX as u128 {
        u64::MAX
    } else {
        n as u64
    }
}

/// Installing a note in the ring: the oldest slot leaves at the front and
/// the new voice enters at the back, so eviction always takes the oldest.
pub open spec fn seq_install(voices: Seq<Option<usize>>, idx: usize) -> Seq<Option<usize>> {
    if voices.len() == 0 {
        voices
    } else {
        voices.subrange(1, voices.len() as int).push(Some(idx))
    }
}

/// The due-event bookkeeping at the head of a segment: when the countdown
/// has run out, the next event (if any) is installed and the countdown
/// reset; with no events left, the countdown is parked at its maximum.
pub open spec fn seq_pop(sd: SeqModel, sample_rate: u32) -> SeqModel {
    if sd.samples_remaining == 0 {
        if sd.events.len() > 0 {
            let ev = sd.events[0];
            SeqModel {
                events: sd.events.subrange(1, sd.events.len() as int),
                voices: seq_install(sd.voices, ev.1),
                samples_remaining: dur_to_samples(ev.0, sample_rate),
            }
        } else {
            SeqModel { samples_remaining: u64::MAX, ..sd }
        }
    } else {
        sd
    }
}

/// Sums the active voices' next `r` samples, slot by slot from the
/// oldest: each active voice's bank entry is advanced in place, and the
/// first active voice's output seeds the sum. `None` means no voice was
/// active.
pub open spec fn seq_voices<T: Sample>(
    bank: Seq<EntryModel<T>>,
    voices: Seq<Option<usize>>,
    env: Env,
    r: nat,
    bound: int,
    j: int,
    acc: Option<Seq<T>>,
) -> (Seq<EntryModel<T>>, Option<Seq<T>>)
    decreases bound, 3nat, voices.len() - j, 0nat,
{
    if j < 0 || j >= voices.len() {
        (bank, acc)
    } else {
        match voices[j] {
            Some(v) => {
                if 0 <= v < bound && (v as int) < bank.len() {
                    let (b1, n1, s) = fill_spec(bank, bank[v as int].node, env, r, v as int);
                    let b2 = b1.update(
                        v as int,
                        EntryModel { node: n1, memo: bank[v as int].memo },
                    );
                    let acc2 = match acc {
                        None => Some(s),
                        Some(p) => Some(Seq::new(r, |i: int| T::sp_add(p[i], s[i]))),
                    };
                    seq_voices(b2, voices, env, r, bound, j + 1, acc2)
                } else {
                    seq_voices(bank, voices, env, r, bound, j + 1, acc)
                }
            },
            None => seq_voices(bank, voices, env, r, bound, j + 1, acc),
        }
    }
}

/// One whole sequencer fill: handle due events, render one segment up to
/// the next event boundary, and recurse on the rest of the request.
pub open spec fn seq_chunks<T: Sample>(
    bank: Seq<EntryModel<T>>,
    sd: SeqModel,
    env: Env,
    count: nat,
    bound: int,
) -> (Seq<EntryModel<T>>, SeqModel, Seq<T>)
    decreases bound, 4nat, count + sd.events.len(), 0nat,
{
    if count == 0 {
        (bank, sd, Seq::empty())
    } else {
        let sd1 = seq_pop(sd, env.sample_rate);
        let r: nat = if sd1.samples_remaining as nat >= count {
            count
        } else {
            sd1.samples_remaining as nat
        };
        let (b1, acc) = seq_voices::<T>(bank, sd1.voices, env, r, bound, 0, None);
        let out1 = match acc {
            Some(s) => s,
            None => Seq::new(r, |i: int| T::sp_zero()),
        };
        let sd2 = SeqModel {
            samples_remaining: (sd1.samples_remaining - r) as u64,
            ..sd1
        };
        let (b2, sd3, out2) = seq_chunks::<T>(b1, sd2, env, (count - r) as nat, bound);
        (b2, sd3, out1 + out2)
    }
}

/// Whether an accumulated sum is absent or exactly `r` samples long.
pub open spec fn acc_ok<T: Sample>(acc: Option<Seq<T>>, r: nat) -> bool {
    match acc {
        None => true,
        Some(s) => s.len() == r,
    }
}

/// Unconditional shape facts of one voice sweep: the bank keeps its
/// length, entries at or above `bound` are untouched, and no entry node
/// grows.
pub proof fn lemma_seq_voices_shape<T: Sample>(
    bank: Seq<EntryModel<T>>,
    voices: Seq<Option<usize>>,
    env: Env,
    r: nat,
    bound: int,
    j: int,
    acc: Option<Seq<T>>,
)
    ensures
        ({
            let (b2, a2) = seq_voices(bank, voices, env, r, bound, j, acc);
            &&& b2.len() == bank.len()
            &&& forall|k: int| 0 <= k < bank.len() && !(0 <= k < bound) ==> b2[k] == bank[k]
            &&& forall|k: int|
                0 <= k < bank.len() ==> crate::value::node_height(#[trigger] b2[k].node)
                    <= crate::value::node_height(bank[k].node)
        }),
    decreases bound, 3nat, voices.len() - j, 0nat,
{
    if 0 <= j < voices.len() {
        match voices[j] {
            Some(v) => {
                if 0 <= v < bound && (v as int) < bank.len() {
                    crate::value::lemma_fill_shape(bank, bank[v as int].node, env, r, v as int);
                    let (b1, n1, sv) = fill_spec(bank, bank[v as int].node, env, r, v as int);
                    let b2 = b1.update(
                        v as int,
                        EntryModel { node: n1, memo: bank[v as int].memo },
                    );
                    let acc2 = match acc {
                        None => Some(sv),
                        Some(p) => Some(Seq::new(r, |i: int| T::sp_add(p[i], sv[i]))),
                    };
                    lemma_seq_voices_shape(b2, voices, env, r, bound, j + 1, acc2);
                } else {
                    lemma_seq_voices_shape(bank, voices, env, r, bound, j + 1, acc);
                }
            },
            None => {
                lemma_seq_voices_shape(bank, voices, env, r, bound, j + 1, acc);
            },
        }
    }
}

/// Unconditional shape facts of a whole sequencer fill.
pub proof fn lemma_seq_chunks_shape<T: Sample>(
    bank: Seq<EntryModel<T>>,
    sd: SeqModel,
    env: Env,
    count: nat,
    bound: int,
)
    ensures
        ({
            let (b2, sd3, o) = seq_chunks::<T>(bank, sd, env, count, bound);
            &&& b2.len() == bank.len()
            &&& sd3.voices.len() == sd.voices.len()
            &&& (seq_refs_ok(sd, bound) ==> seq_refs_ok(sd3, bound))
            &&& forall|k: int| 0 <= k < bank.len() && !(0 <= k < bound) ==> b2[k] == bank[k]
            &&& forall|k: int|
                0 <= k < bank.len() ==> crate::value::node_height(#[trigger] b2[k].node)
                    <= crate::value::node_height(bank[k].node)
        }),
    decreases bound, 4nat, count + sd.events.len(), 0nat,
{
    if count > 0 {
        let sd1 = seq_pop(sd, env.sample_rate);
        assert(seq_refs_ok(sd, bound) ==> seq_refs_ok(sd1, bound));
        let r: nat = if sd1.samples_remaining as nat >= count {
            count
        } else {
            sd1.samples_remaining as nat
        };
        lemma_seq_voices_shape::<T>(bank, sd1.voices, env, r, bound, 0, None);
        let (b1, acc) = seq_voices::<T>(bank, sd1.voices, env, r, bound, 0, None);
        let sd2 = SeqModel { samples_remaining: (sd1.samples_remaining - r) as u64, ..sd1 };
        lemma_seq_chunks_shape::<T>(b1, sd2, env, (count - r) as nat, bound);
    }
}

/// Bookkeeping facts of one voice sweep over an ordered bank: the bank
/// stays ordered and the accumulated sum keeps its length.
pub proof fn lemma_seq_voices_props<T: Sample>(
    bank: Seq<EntryModel<T>>,
    voices: Seq<Option<usize>>,
    env: Env,
    r: nat,
    bound: int,
    j: int,
    acc: Option<Seq<T>>,
)
    requires
        0 <= bound <= bank.len(),
        prefix_ok(bank, bound),
        acc_ok(acc, r),
    ensures
        ({
            let (b2, a2) = seq_voices(bank, voices, env, r, bound, j, acc);
            &&& b2.len() == bank.len()
            &&& prefix_ok(b2, bound)
            &&& acc_ok(a2, r)
        }),
    decreases bound, 3nat, voices.len() - j, 0nat,
{
    lemma_seq_voices_shape(bank, voices, env, r, bound, j, acc);
    if 0 <= j < voices.len() {
        match voices[j] {
            Some(v) => {
                if 0 <= v < bound && (v as int) < bank.len() {
                    assert(entry_ok(bank[v as int], v as int));
                    crate::value::lemma_fill_props(bank, bank[v as int].node, env, r, v as int);
                    crate::value::lemma_fill_shape(bank, bank[v as int].node, env, r, v as int);
                    let (b1, n1, sv) = fill_spec(bank, bank[v as int].node, env, r, v as int);
                    let b2 = b1.update(
                        v as int,
                        EntryModel { node: n1, memo: bank[v as int].memo },
                    );
                    assert(prefix_ok(b2, bound)) by {
                        assert forall|k: int| 0 <= k < bound implies entry_ok(
                            #[trigger] b2[k],
                            k,
                        ) by {
                            if k < v as int {
                                assert(entry_ok(b1[k], k));
                            } else if k == v as int {
                                assert(crate::value::refs_ok(n1, v as int));
                            } else {
                                assert(b1[k] == bank[k]);
                                assert(entry_ok(bank[k], k));
                            }
                        }
                    }
                    let acc2 = match acc {
                        None => Some(sv),
                        Some(p) => Some(Seq::new(r, |i: int| T::sp_add(p[i], sv[i]))),
                    };
                    lemma_seq_voices_props(b2, voices, env, r, bound, j + 1, acc2);
                } else {
                    lemma_seq_voices_props(bank, voices, env, r, bound, j + 1, acc);
                }
            },
            None => {
                lemma_seq_voices_props(bank, voices, env, r, bound, j + 1, acc);
            },
        }
    }
}

/// Bookkeeping facts of a whole sequencer fill over an ordered bank:
/// exactly `count` samples come out and the bank stays ordered.
pub proof fn lemma_seq_chunks_props<T: Sample>(
    bank: Seq<EntryModel<T>>,
    sd: SeqModel,
    env: Env,
    count: nat,
    bound: int,
)
    requires
        0 <= bound <= bank.len(),
        prefix_ok(bank, bound),
    ensures
        ({
            let (b2, sd3, o) = seq_chunks::<T>(bank, sd, env, count, bound);
            &&& b2.len() == bank.len()
            &&& o.len() == count
            &&& prefix_ok(b2, bound)
        }),
    decreases bound, 4nat, count + sd.events.len(), 0nat,
{
    if count > 0 {
        let sd1 = seq_pop(sd, env.sample_rate);
        let r: nat = if sd1.samples_remaining as nat >= count {
            count
        } else {
            sd1.samples_remaining as nat
        };
        lemma_seq_voices_props::<T>(bank, sd1.voices, env, r, bound, 0, None);
        let (b1, acc) = seq_voices::<T>(bank, sd1.voices, env, r, bound, 0, None);
        let sd2 = SeqModel { samples_remaining: (sd1.samples_remaining - r) as u64, ..sd1 };
        lemma_seq_chunks_props::<T>(b1, sd2, env, (count - r) as nat, bound);
    }
}

/// A voice sweep only reads the bank below `bound`: agreeing banks give
/// the same sum and agreeing banks back.
pub proof fn lemma_seq_voices_frame<T: Sample>(
    s: Seq<EntryModel<T>>,
    t: Seq<EntryModel<T>>,
    voices: Seq<Option<usize>>,
    env: Env,
    r: nat,
    bound: int,
    j: int,
    acc: Option<Seq<T>>,
)
    requires
        0 <= bound <= s.len(),
        bound <= t.len(),
        forall|k: int| 0 <= k < bound ==> s[k] == t[k],
    ensures
        ({
            let (s2, a2) = seq_voices(s, voices, env, r, bound, j, acc);
            let (t2, a3) = seq_voices(t, voices, env, r, bound, j, acc);
            &&& a3 == a2
            &&& s2.len() == s.len()
            &&& t2.len() == t.len()
            &&& forall|k: int| 0 <= k < bound ==> s2[k] == t2[k]
        }),
    decreases bound, 3nat, voices.len() - j, 0nat,
{
    lemma_seq_voices_shape(s, voices, env, r, bound, j, acc);
    lemma_seq_voices_shape(t, voices, env, r, bound, j, acc);
    if 0 <= j < voices.len() {
        match voices[j] {
            Some(v) => {
                if 0 <= v < bound {
                    crate::value::lemma_fill_frame(s, t, s[v as int].node, env, r, v as int);
                    crate::value::lemma_fill_shape(s, s[v as int].node, env, r, v as int);
                    crate::value::lemma_fill_shape(t, t[v as int].node, env, r, v as int);
                    let (s1, n1, sv) = fill_spec(s, s[v as int].node, env, r, v as int);
                    let (t1, n2, tv) = fill_spec(t, t[v as int].node, env, r, v as int);
                    let s2 = s1.update(v as int, EntryModel { node: n1, memo: s[v as int].memo });
                    let t2 = t1.update(v as int, EntryModel { node: n2, memo: t[v as int].memo });
                    let acc2 = match acc {
                        None => Some(sv),
                        Some(p) => Some(Seq::new(r, |i: int| T::sp_add(p[i], sv[i]))),
                    };
                    lemma_seq_voices_frame(s2, t2, voices, env, r, bound, j + 1, acc2);
                } else {
                    lemma_seq_voices_frame(s, t, voices, env, r, bound, j + 1, acc);
                }
            },
            None => {
                lemma_seq_voices_frame(s, t, voices, env, r, bound, j + 1, acc);
            },
        }
    }
}

/// A sequencer fill only reads the bank below `bound`.
pub proof fn lemma_seq_chunks_frame<T: Sample>(
    s: Seq<EntryModel<T>>,
    t: Seq<EntryModel<T>>,
    sd: SeqModel,
    env: Env,
    count: nat,
    bound: int,
)
    requires
        0 <= bound <= s.len(),
        bound <= t.len(),
        forall|k: int| 0 <= k < bound ==> s[k] == t[k],
    ensures
        ({
            let (s2, sd3, o) = seq_chunks::<T>(s, sd, env, count, bound);
            let (t2, sd4, p) = seq_chunks::<T>(t, sd, env, count, bound);
            &&& sd4 == sd3
            &&& p == o
            &&& s2.len() == s.len()
            &&& t2.len() == t.len()
            &&& forall|k: int| 0 <= k < bound ==> s2[k] == t2[k]
        }),
    decreases bound, 4nat, count + sd.events.len(), 0nat,
{
    if count > 0 {
        let sd1 = seq_pop(sd, env.sample_rate);
        let r: nat = if sd1.samples_remaining as nat >= count {
            count
        } else {
            sd1.samples_remaining as nat
        };
        lemma_seq_voices_frame::<T>(s, t, sd1.voices, env, r, bound, 0, None);
        let (s1, acc) = seq_voices::<T>(s, sd1.voices, env, r, bound, 0, None);
        let (t1, acc2) = seq_voices::<T>(t, sd1.voices, env, r, bound, 0, None);
        let sd2 = SeqModel { samples_remaining: (sd1.samples_remaining - r) as u64, ..sd1 };
        lemma_seq_chunks_frame::<T>(s1, t1, sd2, env, (count - r) as nat, bound);
    }
}

/// Advances one bank entry in place, leaving its memo alone: the voice
/// path of the sequencer.
pub(crate) fn fill_entry<T: Sample>(
    bank: &mut Vec<Entry<T>>,
    v: usize,
    env: &Env,
    count: usize,
) -> (out: Vec<T>)
    requires
        (v as int) < old(bank)@.len(),
        prefix_ok(models(old(bank)@), v as int + 1),
    ensures
        ({
            let model = models(old(bank)@);
            let (b1, n1, s) = fill_spec(model, model[v as int].node, *env, count as nat, v as int);
            &&& models(final(bank)@) == b1.update(
                v as int,
                EntryModel { node: n1, memo: model[v as int].memo },
            )
            &&& out@ == s
        }),
    decreases v as int + 1, 0nat, 0nat, 0nat,
{
    let ghost model = models(old(bank)@);
    proof {
        assert(entry_ok(model[v as int], v as int));
    }
    let mut e = bank.remove(v);
    let ghost removed = models(bank@);
    proof {
        assert(removed =~= model.remove(v as int));
    }
    let sub = crate::value::fill(bank, &mut e.node, env, count, Ghost(v as int));
    proof {
        crate::value::lemma_fill_frame(removed, model, model[v as int].node, *env, count as nat, v as int);
        crate::value::lemma_fill_shape(removed, model[v as int].node, *env, count as nat, v as int);
        crate::value::lemma_fill_shape(model, model[v as int].node, *env, count as nat, v as int);
    }
    bank.insert(v, e);
    proof {
        let (b1, n1, sq) = fill_spec(model, model[v as int].node, *env, count as nat, v as int);
        let (br, nr, sr) = fill_spec(removed, model[v as int].node, *env, count as nat, v as int);
        let target = b1.update(v as int, EntryModel { node: n1, memo: model[v as int].memo });
        let got = models(bank@);
        assert(got.len() == target.len());
        assert forall|k: int| 0 <= k < got.len() implies got[k] == target[k] by {
            if k < v as int {
                assert(got[k] == br[k]);
            } else if k == v as int {
                assert(got[k] == e@);
            } else {
                assert(got[k] == br[k - 1]);
                assert(br[k - 1] == removed[k - 1]);
                assert(removed[k - 1] == model[k]);
                assert(b1[k] == model[k]);
            }
        }
        assert(got =~= target);
        assert(sub@ == sq);
    }
    sub
}

/// One whole sequencer fill, executably: exactly the recursion of
/// [`seq_chunks`].
pub(crate) fn seq_chunks_run<T: Sample>(
    bank: &mut Vec<Entry<T>>,
    sd: &mut SeqData,
    env: &Env,
    count: usize,
    Ghost(bound): Ghost<int>,
) -> (out: Vec<T>)
    requires
        0 <= bound <= old(bank)@.len(),
        seq_refs_ok(old(sd)@, bound),
        prefix_ok(models(old(bank)@), bound),
    ensures
        ({
            let (b2, sd3, o) = seq_chunks::<T>(models(old(bank)@), old(sd)@, *env, count as nat, bound);
            &&& models(final(bank)@) == b2
            &&& final(sd)@ == sd3
            &&& out@ == o
        }),
    decreases bound, 4nat, count + old(sd).events@.len(), 0nat,
{
    if count == 0 {
        let out: Vec<T> = Vec::new();
        proof {
            assert(out@ =~= Seq::<T>::empty());
        }
        return out;
    }
    let ghost model = models(old(bank)@);
    if sd.samples_remaining == 0 {
        if sd.events.len() > 0 {
            let ev = sd.events.remove(0);
            if sd.voices.len() > 0 {
                let dropped = sd.voices.remove(0);
                sd.voices.push(Some(ev.1));
            }
            sd.samples_remaining = dur_to_samples_run(ev.0, env.sample_rate);
        } else {
            sd.samples_remaining = u64::MAX;
        }
    }
    let ghost popped = seq_pop(old(sd)@, env.sample_rate);
    proof {
        assert(sd@.events =~= popped.events);
        assert(sd@.voices =~= popped.voices);
        assert(sd@ == popped);
        assert(seq_refs_ok(popped, bound));
    }
    let r: usize = if sd.samples_remaining >= count as u64 {
        count
    } else {
        sd.samples_remaining as usize
    };
    let ghost rn = r as nat;
    let mut acc: Option<Vec<T>> = None;
    let mut j: usize = 0;
    let nvoices = sd.voices.len();
    while j < nvoices
        invariant
            j <= nvoices,
            nvoices == sd.voices@.len(),
            sd@ == popped,
            seq_refs_ok(popped, bound),
            0 <= bound <= bank@.len(),
            prefix_ok(models(bank@), bound),
            rn == r as nat,
            match acc {
                Some(p) => p@.len() == rn,
                None => true,
            },
            seq_voices::<T>(model, popped.voices, *env, rn, bound, 0, None) == seq_voices::<T>(
                models(bank@),
                popped.voices,
                *env,
                rn,
                bound,
                j as int,
                match acc {
                    Some(p) => Some(p@),
                    None => None::<Seq<T>>,
                },
            ),
        decreases nvoices - j,
    {
        let slot = sd.voices[j];
        match slot {
            Some(v) => {
                let ghost bank_before = models(bank@);
                let ghost acc_before: Option<Seq<T>> = match &acc {
                    Some(p) => Some(p@),
                    None => None,
                };
                proof {
                    assert(v < bound);
                    assert(prefix_ok(bank_before, v as int + 1));
                    assert(entry_ok(bank_before[v as int], v as int));
                    crate::value::lemma_fill_props(
                        bank_before,
                        bank_before[v as int].node,
                        *env,
                        rn,
                        v as int,
                    );
                    crate::value::lemma_fill_shape(
                        bank_before,
                        bank_before[v as int].node,
                        *env,
                        rn,
                        v as int,
                    );
                }
                let sv = fill_entry(bank, v, env, r);
                let acc2: Vec<T> = match &acc {
                    None => sv,
                    Some(p) => {
                        let both = crate::value::bin_combine(BinKind::Add, p, &sv);
                        both
                    },
                };
                proof {
                    let (b1, n1, sq) = fill_spec(
                        bank_before,
                        bank_before[v as int].node,
                        *env,
                        rn,
                        v as int,
                    );
                    let b2 = b1.update(
                        v as int,
                        EntryModel { node: n1, memo: bank_before[v as int].memo },
                    );
                    assert(models(bank@) == b2);
                    let acc2m: Option<Seq<T>> = match acc_before {
                        None => Some(sq),
                        Some(p) => Some(Seq::new(rn, |i: int| T::sp_add(p[i], sq[i]))),
                    };
                    assert(acc2@ =~= acc2m.unwrap());
                    assert(seq_voices::<T>(bank_before, popped.voices, *env, rn, bound, j as int, acc_before)
                        == seq_voices::<T>(b2, popped.voices, *env, rn, bound, j as int + 1, acc2m));
                    assert(prefix_ok(b2, bound)) by {
                        assert forall|k: int| 0 <= k < bound implies entry_ok(#[trigger] b2[k], k) by {
                            if k < v as int {
                                assert(entry_ok(b1[k], k));
                            } else if k == v as int {
                            } else {
                                assert(b1[k] == bank_before[k]);
                                assert(entry_ok(bank_before[k], k));
                            }
                        }
                    }
                }
                acc = Some(acc2);
            },
            None => {
            },
        }
        j = j + 1;
    }
    let out1: Vec<T> = match acc {
        Some(p) => p,
        None => crate::value::splat(T::zero(), r),
    };
    proof {
        let (b1s, accs) = seq_voices::<T>(model, popped.voices, *env, rn, bound, 0, None);
        assert(models(bank@) == b1s);
        let out1s = match accs {
            Some(sq) => sq,
            None => Seq::new(rn, |i: int| T::sp_zero()),
        };
        assert(out1@ =~= out1s);
    }
    sd.samples_remaining = sd.samples_remaining - r as u64;
    let rest = seq_chunks_run(bank, sd, env, count - r, Ghost(bound));
    let mut out = out1;
    let mut rest2 = rest;
    out.append(&mut rest2);
    proof {
        let (b2, sd3, o) = seq_chunks::<T>(model, old(sd)@, *env, count as nat, bound);
        assert(out@ =~= o);
    }
    out
}

/// A musical note event: how long it holds, and the amplitude and
/// frequency an instrument turns into sound.
pub struct Note<T: Sample> {
    pub duration: u64,
    pub amplitude: T,
    pub frequency: T,
}

/// A polyphonic sequence: timed note subgraphs played through a bounded
/// rotating pool of ten voices.
pub struct FancySequence<T: Sample> {
    pub data: SeqData,
    pub _sample: core::marker::PhantomData<T>,
}

impl<T: Sample> FancySequence<T> {
    /// Registers every event's subgraph in the bank and sets up the
    /// sequence: ten empty voice slots and the first event due at once.
    pub fn new(bank: &mut Bank<T>, events: Vec<(u64, Value<T>)>) -> (f: FancySequence<T>)
        requires
            old(bank).ok(),
            forall|i: int|
                0 <= i < events@.len() ==> crate::value::refs_ok(
                    (#[trigger] events@[i]).1@,
                    old(bank)@.len() as int,
                ),
        ensures
            final(bank)@ == old(bank)@ + Seq::new(
                events@.len(),
                |i: int| EntryModel { node: events@[i].1@, memo: None },
            ),
            final(bank).ok(),
            f.data@.events == Seq::new(
                events@.len(),
                |i: int| (events@[i].0, (old(bank)@.len() + i) as usize),
            ),
            f.data@.voices == Seq::new(10, |i: int| None::<usize>),
            f.data@.samples_remaining == 0,
            seq_refs_ok(f.data@, final(bank)@.len() as int),
    {
        let ghost orig = events@;
        let ghost base = old(bank)@.len();
        let mut evs = events;
        let n0 = evs.len();
        let mut idxs: Vec<(u64, usize)> = Vec::new();
        let mut k: usize = 0;
        while evs.len() > 0
            invariant
                base == old(bank)@.len(),
                orig.len() == n0,
                k + evs@.len() == orig.len(),
                evs@ =~= orig.skip(k as int),
                bank@.len() == old(bank)@.len() + k,
                bank@ =~= old(bank)@ + Seq::new(
                    k as nat,
                    |i: int| EntryModel { node: orig[i].1@, memo: None },
                ),
                bank.ok(),
                idxs@ =~= Seq::new(k as nat, |i: int| (orig[i].0, (base + i) as usize)),
                forall|i: int|
                    0 <= i < orig.len() ==> crate::value::refs_ok(
                        (#[trigger] orig[i]).1@,
                        base as int,
                    ),
            decreases evs@.len(),
        {
            let e = evs.remove(0);
            let idx = bank.entries.len();
            let ghost prev = bank@;
            proof {
                assert(orig[k as int] == e);
                assert(crate::value::refs_ok(e.1@, base as int));
                crate::value::lemma_refs_ok_widen(e.1@, base as int, bank@.len() as int);
            }
            bank.entries.push(Entry { node: e.1.node, memo: None });
            idxs.push((e.0, idx));
            proof {
                assert forall|i: int| 0 <= i < bank@.len() implies bank@[i] == (old(bank)@
                    + Seq::new(
                    (k + 1) as nat,
                    |x: int| EntryModel { node: orig[x].1@, memo: None },
                ))[i] by {
                    if i < prev.len() {
                        assert(bank@[i] == prev[i]);
                    } else {
                        assert(bank@[i] == EntryModel { node: e.1@, memo: None::<(u64, nat, Seq<T>)> });
                    }
                }
                assert(bank@ =~= old(bank)@ + Seq::new(
                    (k + 1) as nat,
                    |i: int| EntryModel { node: orig[i].1@, memo: None },
                ));
                assert(idxs@ =~= Seq::new((k + 1) as nat, |i: int| (orig[i].0, (base + i) as usize)));
                assert(evs@ =~= orig.skip(k as int + 1));
                assert forall|i: int| 0 <= i < bank@.len() implies entry_ok(
                    #[trigger] bank@[i],
                    i,
                ) by {
                    if i < bank@.len() - 1 {
                        assert(entry_ok(prev[i], i));
                        assert(bank@[i] == prev[i]);
                    } else {
                        crate::value::lemma_refs_ok_widen(e.1@, base as int, i);
                    }
                }
            }
            k = k + 1;
        }
        let mut voices: Vec<Option<usize>> = Vec::new();
        let mut s: usize = 0;
        while s < 10
            invariant
                s <= 10,
                voices@.len() == s,
                forall|i: int| 0 <= i < s ==> voices@[i] == None::<usize>,
            decreases 10 - s,
        {
            voices.push(None);
            s = s + 1;
        }
        proof {
            assert(voices@ =~= Seq::new(10, |i: int| None::<usize>));
        }
        FancySequence {
            data: SeqData { events: idxs, voices, samples_remaining: 0 },
            _sample: core::marker::PhantomData,
        }
    }
}

impl<T: Sample> FancySequence<T> {
    /// Appends one more event: registers its subgraph in the bank and
    /// queues it behind the events already pending. A session can
    /// therefore keep feeding an open-ended stream between fills instead
    /// of collecting every event up front — as long as the queue never
    /// runs dry, since a drained sequence parks its countdown for good
    /// and never polls for events again.
    pub fn push_event(&mut self, bank: &mut Bank<T>, duration: u64, note: Value<T>)
        requires
            note.wf(*old(bank)),
            old(bank).ok(),
        ensures
            final(bank)@ == old(bank)@.push(EntryModel { node: note@, memo: None }),
            final(bank).ok(),
            final(self).data@.events == old(self).data@.events.push(
                (duration, old(bank)@.len() as usize),
            ),
            final(self).data@.voices == old(self).data@.voices,
            final(self).data@.samples_remaining == old(self).data@.samples_remaining,
            seq_refs_ok(old(self).data@, old(bank)@.len() as int) ==> seq_refs_ok(
                final(self).data@,
                final(bank)@.len() as int,
            ),
    {
        let idx = bank.entries.len();
        let ghost prev = bank@;
        bank.entries.push(Entry { node: note.node, memo: None });
        self.data.events.push((duration, idx));
        proof {
            assert(bank@ =~= prev.push(EntryModel { node: note@, memo: None }));
            assert forall|i: int| 0 <= i < bank@.len() implies entry_ok(#[trigger] bank@[i], i) by {
                if i < prev.len() {
                    assert(bank@[i] == prev[i]);
                    assert(entry_ok(prev[i], i));
                }
            }
            if seq_refs_ok(old(self).data@, prev.len() as int) {
                assert forall|i: int| 0 <= i < final(self).data@.events.len() implies (
                #[trigger] final(self).data@.events[i]).1 < bank@.len() by {
                    if i < old(self).data@.events.len() {
                        assert(final(self).data@.events[i] == old(self).data@.events[i]);
                    }
                }
                assert forall|i: int| 0 <= i < final(self).data@.voices.len() implies match (
                #[trigger] final(self).data@.voices[i]) {
                    Some(v) => v < bank@.len(),
                    None => true,
                } by {
                    assert(final(self).data@.voices[i] == old(self).data@.voices[i]);
                }
            }
        }
    }
}

/// Builds a sequence from an already collected list of timed note
/// subgraphs.
pub fn sequence_from_iterator<T: Sample>(bank: &mut Bank<T>, events: Vec<(u64, Value<T>)>) -> (f:
    FancySequence<T>)
    requires
        old(bank).ok(),
        forall|i: int|
            0 <= i < events@.len() ==> crate::value::refs_ok(
                (#[trigger] events@[i]).1@,
                old(bank)@.len() as int,
            ),
    ensures
        final(bank)@ == old(bank)@ + Seq::new(
            events@.len(),
            |i: int| EntryModel { node: events@[i].1@, memo: None },
        ),
        final(bank).ok(),
        f.data@.events == Seq::new(
            events@.len(),
            |i: int| (events@[i].0, (old(bank)@.len() + i) as usize),
        ),
        f.data@.voices == Seq::new(10, |i: int| None::<usize>),
        f.data@.samples_remaining == 0,
        seq_refs_ok(f.data@, final(bank)@.len() as int),
{
    FancySequence::new(bank, events)
}

impl<T: Sample> ValueNode<T> for FancySequence<T> {
    open spec fn sp_node(self) -> NodeModel<T> {
        NodeModel::Sequencer(self.data@)
    }

    fn value(self) -> (v: Value<T>) {
        Value { node: Node::Sequencer(self.data) }
    }
}

/// Installing a note keeps the ring size, drops exactly the oldest slot,
/// shifts every survivor one step older, and seats the new note in the
/// newest slot.
pub proof fn lemma_install_evicts_oldest(voices: Seq<Option<usize>>, idx: usize)
    requires
        voices.len() > 0,
    ensures
        seq_install(voices, idx).len() == voices.len(),
        seq_install(voices, idx)[voices.len() - 1] == Some(idx),
        forall|k: int| 0 <= k < voices.len() - 1 ==> seq_install(voices, idx)[k] == voices[k + 1],
{
}

/// However dense the events, a fill never grows the voice ring: bounded
/// polyphony.
pub proof fn lemma_sequencer_polyphony<T: Sample>(
    bank: Seq<EntryModel<T>>,
    sd: SeqModel,
    env: Env,
    count: nat,
    bound: int,
)
    ensures
        seq_chunks::<T>(bank, sd, env, count, bound).1.voices.len() == sd.voices.len(),
{
    lemma_seq_chunks_shape::<T>(bank, sd, env, count, bound);
}

} // verus!
