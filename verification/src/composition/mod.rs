//! The composition layer's data carrier: parallel voices of timed notes,
//! annotated with musical messages. Beats are counted in milli-beats so
//! that totals and overlaps are exact.

use vstd::prelude::*;
use crate::note::Scale;

verus! {

/// Which part of a piece a section is.
#[derive(Clone, Copy, Debug)]
pub enum SectionType {
    Intro,
    Outro,
    Normal,
}

/// A musical annotation payload: a key, a single note, or a chord.
pub enum Message {
    Key(Scale),
    Note(u32),
    Chord(Vec<u32>),
}

/// A timed annotation: where it starts and how long it lasts, in
/// milli-beats, and what it says.
pub struct Annotation<M> {
    pub start: u64,
    pub duration: u64,
    pub message: M,
}

/// One voice: a list of notes, each a duration in milli-beats with the
/// `(pitch, amplitude)` pairs sounding through it.
pub type Voice = Vec<(u64, Vec<(u32, i64)>)>;

/// A piece under construction: melodic ideas, annotations, and voices.
pub struct Composition<M> {
    pub ideas: Vec<(u64, Vec<Option<i32>>)>,
    pub annotations: Vec<Annotation<M>>,
    pub voices: Vec<Voice>,
}

/// The length of one voice in milli-beats: the sum of its durations.
pub open spec fn voice_beats(v: Seq<(u64, Seq<(u32, i64)>)>) -> int
    decreases v.len(),
{
    if v.len() == 0 {
        0
    } else {
        voice_beats(v.drop_last()) + v.last().0
    }
}

/// The ghost image of a voice.
pub open spec fn voice_model(v: Voice) -> Seq<(u64, Seq<(u32, i64)>)> {
    v@.map_values(|p: (u64, Vec<(u32, i64)>)| (p.0, p.1@))
}

/// The longest voice's length in milli-beats, zero with no voices.
pub open spec fn total_beats_of(voices: Seq<Voice>) -> int
    decreases voices.len(),
{
    if voices.len() == 0 {
        0
    } else {
        let rest = total_beats_of(voices.drop_last());
        let last = voice_beats(voice_model(voices.last()));
        if last > rest {
            last
        } else {
            rest
        }
    }
}

/// Whether an annotation's span and the query span touch, exactly as the
/// window check is phrased: either endpoint of either span inside the
/// other.
pub open spec fn spans_overlap(a_start: int, a_dur: int, start: int, duration: int) -> bool {
    ||| (a_start <= start + duration && a_start >= start)
    ||| (a_start + a_dur <= start + duration && a_start + a_dur >= start)
    ||| (start <= a_start + a_dur && start >= a_start)
    ||| (start + duration <= a_start + a_dur && start + duration >= a_start)
}

/// The indices of the annotations that overlap the query span, in order.
pub open spec fn overlapping_prefix<M>(
    s: Seq<Annotation<M>>,
    start: int,
    duration: int,
    i: int,
) -> Seq<int>
    decreases i,
{
    if i <= 0 {
        Seq::empty()
    } else {
        let rest = overlapping_prefix(s, start, duration, i - 1);
        if spans_overlap(s[i - 1].start as int, s[i - 1].duration as int, start, duration) {
            rest.push(i - 1)
        } else {
            rest
        }
    }
}

impl<M> Composition<M> {
    /// An empty piece.
    pub fn new() -> (c: Composition<M>)
        ensures
            c.ideas@.len() == 0,
            c.annotations@.len() == 0,
            c.voices@.len() == 0,
    {
        Composition { ideas: Vec::new(), annotations: Vec::new(), voices: Vec::new() }
    }

    /// A voice by index, if it exists.
    pub fn voice(&self, idx: usize) -> (r: Option<&Voice>)
        ensures
            match r {
                Some(v) => idx < self.voices@.len() && *v == self.voices@[idx as int],
                None => idx >= self.voices@.len(),
            },
    {
        if idx < self.voices.len() {
            Some(&self.voices[idx])
        } else {
            None
        }
    }

    /// A voice by index, for editing.
    pub fn voice_mut(&mut self, idx: usize) -> (r: &mut Voice)
        requires
            idx < old(self).voices@.len(),
        ensures
            *r == old(self).voices@[idx as int],
            final(self).voices@ == old(self).voices@.update(idx as int, *final(r)),
            final(self).ideas == old(self).ideas,
            final(self).annotations == old(self).annotations,
    {
        &mut self.voices[idx]
    }

    /// Adds a voice and hands back its index.
    pub fn add_voice(&mut self, voice: Voice) -> (idx: usize)
        ensures
            final(self).voices@ == old(self).voices@.push(voice),
            idx == old(self).voices@.len(),
            final(self).ideas == old(self).ideas,
            final(self).annotations == old(self).annotations,
    {
        self.voices.push(voice);
        self.voices.len() - 1
    }

    /// Records an annotation over the given span.
    pub fn add_annotation(&mut self, start: u64, duration: u64, message: M)
        ensures
            final(self).annotations@ == old(self).annotations@.push(
                Annotation { start, duration, message },
            ),
            final(self).ideas == old(self).ideas,
            final(self).voices == old(self).voices,
    {
        self.annotations.push(Annotation { start, duration, message });
    }

    /// Every annotation whose span touches the query span, in order.
    pub fn annotations(&self, start: u64, duration: u64) -> (r: Vec<&Annotation<M>>)
        ensures
            ({
                let picked = overlapping_prefix(
                    self.annotations@,
                    start as int,
                    duration as int,
                    self.annotations@.len() as int,
                );
                &&& r@.len() == picked.len()
                &&& forall|j: int|
                    0 <= j < picked.len() ==> *(#[trigger] r@[j]) == self.annotations@[picked[j]]
            }),
    {
        let mut r: Vec<&Annotation<M>> = Vec::new();
        let mut i: usize = 0;
        while i < self.annotations.len()
            invariant
                i <= self.annotations@.len(),
                ({
                    let picked = overlapping_prefix(
                        self.annotations@,
                        start as int,
                        duration as int,
                        i as int,
                    );
                    &&& r@.len() == picked.len()
                    &&& forall|j: int|
                        0 <= j < picked.len() ==> *(#[trigger] r@[j])
                            == self.annotations@[picked[j]]
                }),
            decreases self.annotations@.len() - i,
        {
            let a = &self.annotations[i];
            let a_start = a.start as u128;
            let a_end = a.start as u128 + a.duration as u128;
            let q_start = start as u128;
            let q_end = start as u128 + duration as u128;
            let hit = (a_start <= q_end && a_start >= q_start) || (a_end <= q_end && a_end
                >= q_start) || (q_start <= a_end && q_start >= a_start) || (q_end <= a_end && q_end
                >= a_start);
            if hit {
                r.push(a);
            }
            i = i + 1;
        }
        r
    }

    /// The piece's length in milli-beats: its longest voice, saturating
    /// at the counter's range.
    pub fn total_beats(&self) -> (r: u64)
        ensures
            r as int == (if total_beats_of(self.voices@) > u64::MAX as int {
                u64::MAX as int
            } else {
                total_beats_of(self.voices@)
            }),
    {
        let mut best: u128 = 0;
        let mut i: usize = 0;
        while i < self.voices.len()
            invariant
                i <= self.voices@.len(),
                best == total_beats_of(self.voices@.take(i as int)),
                best <= (u64::MAX as int) * (u64::MAX as int),
            decreases self.voices@.len() - i,
        {
            let v = &self.voices[i];
            let mut sum: u128 = 0;
            let mut k: usize = 0;
            while k < v.len()
                invariant
                    k <= v@.len(),
                    sum == voice_beats(voice_model(*v).take(k as int)),
                    sum <= k as int * (u64::MAX as int),
                decreases v@.len() - k,
            {
                proof {
                    assert(voice_model(*v).take(k as int + 1).drop_last() =~= voice_model(
                        *v,
                    ).take(k as int));
                    assert(k as int * (u64::MAX as int) + u64::MAX as int == (k as int + 1) * (
                    u64::MAX as int)) by (nonlinear_arith);
                }
                sum = sum + v[k].0 as u128;
                k = k + 1;
            }
            proof {
                assert(voice_model(*v).take(v@.len() as int) =~= voice_model(*v));
                assert(self.voices@.take(i as int + 1).drop_last() =~= self.voices@.take(i as int));
                assert(self.voices@.take(i as int + 1).last() == self.voices@[i as int]);
                assert(v@.len() as int * (u64::MAX as int) <= (u64::MAX as int) * (
                u64::MAX as int)) by (nonlinear_arith)
                    requires
                        v@.len() <= u64::MAX,
                ;
            }
            if sum > best {
                best = sum;
            }
            i = i + 1;
        }
        proof {
            assert(self.voices@.take(self.voices@.len() as int) =~= self.voices@);
        }
        if best > u64::MAX as u128 {
            u64::MAX
        } else {
            best as u64
        }
    }

    /// Splices another piece onto the end of this one: its ideas carry
    /// over, its annotations shift by this piece's length, and each voice
    /// continues with its counterpart's notes.
    pub fn extend(&mut self, other: Composition<M>)
        requires
            other.voices@.len() >= old(self).voices@.len(),
        ensures
            final(self).ideas@ == old(self).ideas@ + other.ideas@,
            final(self).annotations@.len() == old(self).annotations@.len()
                + other.annotations@.len(),
            final(self).voices@.len() == old(self).voices@.len(),
            ({
                let dur = if total_beats_of(old(self).voices@) > u64::MAX as int {
                    u64::MAX as int
                } else {
                    total_beats_of(old(self).voices@)
                };
                forall|j: int|
                    0 <= j < other.annotations@.len() ==> {
                        let a = other.annotations@[j];
                        let shifted = if a.start + dur > u64::MAX {
                            u64::MAX
                        } else {
                            (a.start + dur) as u64
                        };
                        (#[trigger] final(self).annotations@[old(self).annotations@.len() + j])
                            == (Annotation { start: shifted, duration: a.duration, message: a.message })
                    }
            }),
            forall|j: int|
                0 <= j < old(self).annotations@.len() ==> #[trigger] final(self).annotations@[j]
                    == old(self).annotations@[j],
            forall|j: int|
                0 <= j < old(self).voices@.len() ==> #[trigger] final(self).voices@[j]@
                    == old(self).voices@[j]@ + other.voices@[j]@,
    {
        let ghost ideas0 = other.ideas@;
        let ghost anns0 = other.annotations@;
        let ghost voices0 = other.voices@;
        let dur = self.total_beats();
        let Composition { ideas: mut ideas2, annotations: mut anns, voices: mut theirs } = other;
        self.ideas.append(&mut ideas2);
        while anns.len() > 0
            invariant
                anns@.len() <= anns0.len(),
                self.annotations@.len() == old(self).annotations@.len()
                    + anns0.len() - anns@.len(),
                anns@ =~= anns0.skip(
                    anns0.len() - anns@.len(),
                ),
                dur as int == (if total_beats_of(old(self).voices@) > u64::MAX as int {
                    u64::MAX as int
                } else {
                    total_beats_of(old(self).voices@)
                }),
                forall|j: int|
                    0 <= j < old(self).annotations@.len() ==> #[trigger] self.annotations@[j]
                        == old(self).annotations@[j],
                forall|j: int|
                    0 <= j < anns0.len() - anns@.len() ==> {
                        let a = anns0[j];
                        let shifted = if a.start + dur > u64::MAX {
                            u64::MAX
                        } else {
                            (a.start + dur) as u64
                        };
                        (#[trigger] self.annotations@[old(self).annotations@.len() + j])
                            == (Annotation { start: shifted, duration: a.duration, message: a.message })
                    },
                self.ideas@ == old(self).ideas@ + ideas0,
                self.voices == old(self).voices,
            decreases anns@.len(),
        {
            let ghost k = anns0.len() - anns@.len();
            let ghost pre = anns@;
            let a = anns.remove(0);
            proof {
                assert(pre == anns0.skip(k));
                assert(a == anns0[k]);
                assert(anns@.len() == anns0.skip(k + 1).len());
                assert forall|j: int| 0 <= j < anns@.len() implies anns@[j] == anns0.skip(k + 1)[j] by {
                    assert(anns@[j] == pre.remove(0)[j]);
                    assert(pre.remove(0)[j] == pre[j + 1]);
                    assert(pre[j + 1] == anns0[k + 1 + j]);
                    assert(anns0.skip(k + 1)[j] == anns0[k + 1 + j]);
                }
                assert(anns@ =~= anns0.skip(k + 1));
            }
            let ghost before = self.annotations@;
            let shifted = if a.start as u128 + dur as u128 > u64::MAX as u128 {
                u64::MAX
            } else {
                a.start + dur
            };
            self.annotations.push(
                Annotation { start: shifted, duration: a.duration, message: a.message },
            );
            proof {
                assert forall|j: int|
                    0 <= j < old(self).annotations@.len() implies #[trigger] self.annotations@[j]
                    == old(self).annotations@[j] by {
                    assert(self.annotations@[j] == before[j]);
                }
                assert forall|j: int| 0 <= j < anns0.len() - anns@.len() implies {
                    let aa = anns0[j];
                    let sh = if aa.start + dur > u64::MAX {
                        u64::MAX
                    } else {
                        (aa.start + dur) as u64
                    };
                    (#[trigger] self.annotations@[old(self).annotations@.len() + j])
                        == (Annotation { start: sh, duration: aa.duration, message: aa.message })
                } by {
                    if j < k {
                        assert(self.annotations@[old(self).annotations@.len() + j] == before[
                            old(self).annotations@.len() + j
                        ]);
                    } else {
                        assert(j == k);
                        assert(self.annotations@[old(self).annotations@.len() + j]
                            == (Annotation { start: shifted, duration: a.duration, message: a.message }));
                    }
                }
            }
        }
        let mut rebuilt: Vec<Voice> = Vec::new();
        let n = self.voices.len();
        let mut i: usize = 0;
        while i < n
            invariant
                i <= n,
                n == old(self).voices@.len(),
                self.voices@.len() == n - i,
                self.voices@ =~= old(self).voices@.skip(i as int),
                theirs@.len() == voices0.len() - i,
                theirs@ =~= voices0.skip(i as int),
                voices0.len() >= n,
                rebuilt@.len() == i,
                forall|j: int|
                    0 <= j < i ==> #[trigger] rebuilt@[j]@ == old(self).voices@[j]@
                        + voices0[j]@,
                self.ideas@ == old(self).ideas@ + ideas0,
                self.annotations@.len() == old(self).annotations@.len()
                    + anns0.len(),
                forall|j: int|
                    0 <= j < old(self).annotations@.len() ==> #[trigger] self.annotations@[j]
                        == old(self).annotations@[j],
                dur as int == (if total_beats_of(old(self).voices@) > u64::MAX as int {
                    u64::MAX as int
                } else {
                    total_beats_of(old(self).voices@)
                }),
                forall|j: int|
                    0 <= j < anns0.len() ==> {
                        let a = anns0[j];
                        let shifted = if a.start + dur > u64::MAX {
                            u64::MAX
                        } else {
                            (a.start + dur) as u64
                        };
                        (#[trigger] self.annotations@[old(self).annotations@.len() + j])
                            == (Annotation { start: shifted, duration: a.duration, message: a.message })
                    },
            decreases n - i,
        {
            let ghost k = i as int;
            let mut mine = self.voices.remove(0);
            let mut extra = theirs.remove(0);
            proof {
                assert(self.voices@ =~= old(self).voices@.skip(k + 1));
                assert(theirs@ =~= voices0.skip(k + 1));
                assert(mine == old(self).voices@[k]);
                assert(extra == voices0[k]);
            }
            mine.append(&mut extra);
            rebuilt.push(mine);
            i = i + 1;
        }
        self.voices = rebuilt;
    }
}

} // verus!
