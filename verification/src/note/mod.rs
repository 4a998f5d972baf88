//! Musical pitch helpers: scale patterns, degree arithmetic, and the
//! roman-numeral chord notation.

use vstd::prelude::*;
use vstd::string::StringSliceAdditionalSpecFns;

verus! {

/// Converting between a frequency and its MIDI note number, in whatever
/// numeric domain the implementor chooses.
pub trait Pitch<T> {
    /// The MIDI note number of this frequency.
    fn midi_from_frequency(&self) -> T;

    /// The frequency of this MIDI note number.
    fn frequency_from_midi(&self) -> T;
}

/// The natural-minor step pattern.
pub fn minor_pattern() -> (p: Vec<u32>)
    ensures
        p@ == seq![2u32, 1u32, 2u32, 2u32, 1u32, 2u32, 2u32],
{
    let p: Vec<u32> = vec![2, 1, 2, 2, 1, 2, 2];
    proof {
        assert(p@ =~= seq![2u32, 1u32, 2u32, 2u32, 1u32, 2u32, 2u32]);
    }
    p
}

/// The major step pattern.
pub fn major_pattern() -> (p: Vec<u32>)
    ensures
        p@ == seq![2u32, 2u32, 1u32, 2u32, 2u32, 2u32, 1u32],
{
    let p: Vec<u32> = vec![2, 2, 1, 2, 2, 2, 1];
    proof {
        assert(p@ =~= seq![2u32, 2u32, 1u32, 2u32, 2u32, 2u32, 1u32]);
    }
    p
}

/// The semitone offset of the `k`-th degree of a step pattern.
pub open spec fn scale_pos(pattern: Seq<u32>, k: int) -> int
    decreases k,
{
    if k <= 0 {
        0
    } else {
        scale_pos(pattern, k - 1) + pattern[k - 1]
    }
}

/// The first degree at or after `k` whose offset from the root hits
/// `target`, if any; the root itself counts as degree zero and the octave
/// top as the pattern's length.
pub open spec fn scale_find(pattern: Seq<u32>, root: int, target: int, k: int) -> Option<int>
    decreases pattern.len() + 1 - k,
{
    if k < 0 || k > pattern.len() {
        None
    } else if root + scale_pos(pattern, k) == target {
        Some(k)
    } else {
        scale_find(pattern, root, target, k + 1)
    }
}

/// A scale: a step pattern above a root semitone.
pub struct Scale {
    pub pattern: Vec<u32>,
    pub root: u32,
}

impl Scale {
    /// A scale from a step pattern and a root semitone.
    pub fn new(pattern: &[u32], root: u32) -> (s: Scale)
        ensures
            s.pattern@ == pattern@,
            s.root == root,
    {
        let mut p: Vec<u32> = Vec::new();
        let mut i: usize = 0;
        while i < pattern.len()
            invariant
                i <= pattern@.len(),
                p@ == pattern@.take(i as int),
            decreases pattern@.len() - i,
        {
            let x = pattern[i];
            p.push(x);
            proof {
                assert(p@ =~= pattern@.take(i + 1));
            }
            i = i + 1;
        }
        proof {
            assert(pattern@.take(pattern@.len() as int) =~= pattern@);
        }
        Scale { pattern: p, root }
    }

    /// Finds which degree of the scale a semitone is, if any: the
    /// semitone is first folded into the octave starting at the root, and
    /// the returned pair carries the octave displacement and the degree.
    /// The degree comes back in the result's 32-bit field, so a pattern
    /// longer than that range has its index narrowed modulo `2^32`.
    pub fn degree(&self, semitone: u32) -> (r: Option<(i32, u32)>)
        requires
            self.root + 12 <= u32::MAX,
            self.root + scale_pos(self.pattern@, self.pattern@.len() as int) <= u32::MAX,
        ensures
            ({
                let rel = semitone as int - self.root as int;
                let target = self.root as int + rel % 12;
                let oct = rel / 12;
                match r {
                    Some(p) => {
                        &&& p.0 == oct
                        &&& scale_find(self.pattern@, self.root as int, target, 0) is Some
                        &&& p.1 as int == scale_find(
                            self.pattern@,
                            self.root as int,
                            target,
                            0,
                        ).unwrap() % 0x1_0000_0000
                    },
                    None => scale_find(self.pattern@, self.root as int, target, 0) is None,
                }
            }),
    {
        let ghost rel = semitone as int - self.root as int;
        let mut sem: u32 = semitone;
        let mut octave: i64 = 0;
        while sem < self.root
            invariant
                self.root + 12 <= u32::MAX,
                sem as int == semitone as int - 12 * octave,
                octave <= 0,
                -(octave as int) * 12 <= self.root as int + 12,
            decreases self.root + 12 - sem,
        {
            sem = sem + 12;
            octave = octave - 1;
        }
        while sem >= self.root + 12
            invariant
                self.root + 12 <= u32::MAX,
                sem as int == semitone as int - 12 * octave,
                sem >= self.root,
                -(octave as int) * 12 <= self.root as int + 12,
                octave as int * 12 <= semitone as int + 12,
            decreases sem,
        {
            sem = sem - 12;
            octave = octave + 1;
        }
        proof {
            vstd::arithmetic::div_mod::lemma_fundamental_div_mod_converse_mod(
                rel,
                12,
                octave as int,
                sem as int - self.root as int,
            );
            vstd::arithmetic::div_mod::lemma_fundamental_div_mod_converse_div(
                rel,
                12,
                octave as int,
                sem as int - self.root as int,
            );
        }
        proof {
            assert(sem as int == self.root as int + rel % 12);
            assert(octave as int == rel / 12);
        }
        let oct32: i32 = octave as i32;
        let mut current: u32 = self.root;
        let mut k: usize = 0;
        let mut deg: u32 = 0;
        while k < self.pattern.len()
            invariant
                deg as int == k as int % 0x1_0000_0000,
                self.root + scale_pos(self.pattern@, self.pattern@.len() as int) <= u32::MAX,
                k <= self.pattern@.len(),
                rel == semitone as int - self.root as int,
                sem as int == self.root as int + rel % 12,
                oct32 as int == rel / 12,
                current as int == self.root as int + scale_pos(self.pattern@, k as int),
                scale_find(self.pattern@, self.root as int, sem as int, 0) == scale_find(
                    self.pattern@,
                    self.root as int,
                    sem as int,
                    k as int,
                ),
            decreases self.pattern@.len() - k,
        {
            if current == sem {
                proof {
                    assert(scale_find(self.pattern@, self.root as int, sem as int, k as int)
                        == Some(k as int));
                }
                return Some((oct32, deg));
            }
            proof {
                lemma_scale_pos_nonneg(self.pattern@, k as int);
                lemma_scale_pos_grows(self.pattern@, k as int + 1, self.pattern@.len() as int);
            }
            current = current + self.pattern[k];
            proof {
                lemma_mod_count_step(k as int);
            }
            deg = if deg == u32::MAX {
                0
            } else {
                deg + 1
            };
            k = k + 1;
        }
        if current == sem {
            proof {
                assert(scale_find(
                    self.pattern@,
                    self.root as int,
                    sem as int,
                    self.pattern@.len() as int,
                ) == Some(self.pattern@.len() as int));
            }
            Some((oct32, deg))
        } else {
            proof {
                assert(scale_find(
                    self.pattern@,
                    self.root as int,
                    sem as int,
                    self.pattern@.len() as int + 1,
                ) is None);
                assert(scale_find(
                    self.pattern@,
                    self.root as int,
                    sem as int,
                    self.pattern@.len() as int,
                ) is None);
            }
            None
        }
    }

    /// The semitone of a scale degree: the degree is folded into the
    /// pattern's length, and the octave displacement re-applied as twelve
    /// semitones each.
    pub fn pitch(&self, degree: i32) -> (r: u32)
        requires
            self.pattern@.len() >= 1,
            ({
                let n = self.pattern@.len() as int;
                let d0 = (degree as int) % n;
                let oct = (degree as int) / n;
                &&& 0 <= self.root as int + scale_pos(self.pattern@, d0) + 12 * oct
                &&& self.root as int + scale_pos(self.pattern@, d0) + 12 * oct <= u32::MAX
            }),
            self.root + scale_pos(self.pattern@, self.pattern@.len() as int) <= u32::MAX,
        ensures
            ({
                let n = self.pattern@.len() as int;
                let d0 = (degree as int) % n;
                let oct = (degree as int) / n;
                r as int == self.root as int + scale_pos(self.pattern@, d0) + 12 * oct
            }),
    {
        let n = self.pattern.len();
        let mut d: i128 = degree as i128;
        let mut octave: i128 = 0;
        while d < 0
            invariant
                n >= 1,
                n == self.pattern@.len(),
                d + n as i128 * octave == degree as int,
                octave <= 0,
                octave * (n as i128) >= (if degree < 0 {
                    degree as int
                } else {
                    0
                }) - n as int,
            decreases n as int - d,
        {
            proof {
                assert((n as int) * ((octave as int) - 1) == (n as int) * (octave as int) - (
                n as int)) by (nonlinear_arith);
                assert((n as int) * (octave as int) == (octave as int) * (n as int))
                    by (nonlinear_arith);
                assert(((octave as int) - 1) * (n as int) == (n as int) * ((octave as int) - 1))
                    by (nonlinear_arith);
                assert((octave as int) * (n as int) <= octave as int) by (nonlinear_arith)
                    requires
                        octave <= 0,
                        n >= 1,
                ;
            }
            d = d + n as i128;
            octave = octave - 1;
        }
        while d >= n as i128
            invariant
                n >= 1,
                n == self.pattern@.len(),
                d + n as i128 * octave == degree as int,
                d >= 0,
                octave * (n as i128) <= (if degree > 0 {
                    degree as int
                } else {
                    0
                }),
            decreases d,
        {
            proof {
                assert((n as int) * ((octave as int) + 1) == (n as int) * (octave as int) + (
                n as int)) by (nonlinear_arith);
                assert((n as int) * (octave as int) == (octave as int) * (n as int))
                    by (nonlinear_arith);
                assert(((octave as int) + 1) * (n as int) == (n as int) * ((octave as int) + 1))
                    by (nonlinear_arith);
                assert(octave >= 1 ==> (octave as int) <= (octave as int) * (n as int))
                    by (nonlinear_arith)
                    requires
                        n >= 1,
                ;
            }
            d = d - n as i128;
            octave = octave + 1;
        }
        proof {
            assert(octave >= 1 ==> (octave as int) <= (octave as int) * (n as int))
                by (nonlinear_arith)
                requires
                    n >= 1,
            ;
            assert(octave <= -1 ==> (octave as int) >= (octave as int) * (n as int))
                by (nonlinear_arith)
                requires
                    n >= 1,
            ;
            vstd::arithmetic::div_mod::lemma_fundamental_div_mod_converse_mod(
                degree as int,
                self.pattern@.len() as int,
                octave as int,
                d as int,
            );
            vstd::arithmetic::div_mod::lemma_fundamental_div_mod_converse_div(
                degree as int,
                self.pattern@.len() as int,
                octave as int,
                d as int,
            );
        }
        let d0: usize = d as usize;
        let mut sem: u32 = self.root;
        let mut k: usize = 0;
        while k < d0
            invariant
                d0 <= self.pattern@.len(),
                self.root + scale_pos(self.pattern@, self.pattern@.len() as int) <= u32::MAX,
                k <= d0,
                sem as int == self.root as int + scale_pos(self.pattern@, k as int),
            decreases d0 - k,
        {
            proof {
                lemma_scale_pos_nonneg(self.pattern@, k as int);
                lemma_scale_pos_grows(self.pattern@, k as int + 1, self.pattern@.len() as int);
            }
            sem = sem + self.pattern[k];
            k = k + 1;
        }
        proof {
            let nn = self.pattern@.len() as int;
            let dd0 = (degree as int) % nn;
            let oct = (degree as int) / nn;
            assert(sem as int + 12 * (octave as int) == self.root as int + scale_pos(
                self.pattern@,
                dd0,
            ) + 12 * oct);
        }
        let out: i128 = sem as i128 + 12 * octave;
        out as u32
    }
}

/// Counting one step up moves the 32-bit remainder one step up, wrapping
/// at the top.
proof fn lemma_mod_count_step(k: int)
    requires
        k >= 0,
    ensures
        (k + 1) % 0x1_0000_0000 == (if k % 0x1_0000_0000 == 0xFFFF_FFFF {
            0int
        } else {
            k % 0x1_0000_0000 + 1
        }),
{
    let m = 0x1_0000_0000int;
    vstd::arithmetic::div_mod::lemma_add_mod_noop(k, 1, m);
    vstd::arithmetic::div_mod::lemma_mod_division_less_than_divisor(k, m);
    vstd::arithmetic::div_mod::lemma_small_mod(1nat, m as nat);
    if k % m == m - 1 {
        vstd::arithmetic::div_mod::lemma_mod_self_0(m);
    } else {
        vstd::arithmetic::div_mod::lemma_small_mod((k % m + 1) as nat, m as nat);
    }
}

/// Whether a byte is a lowercase roman-numeral letter.
pub open spec fn is_lower_numeral(c: u8) -> bool {
    c == 105 || c == 118
}

/// Whether a byte is an uppercase roman-numeral letter.
pub open spec fn is_upper_numeral(c: u8) -> bool {
    c == 73 || c == 86
}

/// Whether a byte is a roman-numeral letter of either case.
pub open spec fn is_numeral(c: u8) -> bool {
    is_lower_numeral(c) || is_upper_numeral(c)
}

/// The first numeral letter at or after `k`; the length when none.
pub open spec fn numeral_start(b: Seq<u8>, k: int) -> int
    decreases b.len() - k,
{
    if k < 0 || k >= b.len() {
        b.len() as int
    } else if is_numeral(b[k]) {
        k
    } else {
        numeral_start(b, k + 1)
    }
}

/// The run of same-case numeral letters from `s`, capped at three.
pub open spec fn numeral_run(b: Seq<u8>, s: int, lower: bool, cap: nat) -> int
    decreases cap,
{
    if cap == 0 {
        0
    } else if 0 <= s < b.len() && (if lower {
        is_lower_numeral(b[s])
    } else {
        is_upper_numeral(b[s])
    }) {
        1 + numeral_run(b, s + 1, lower, (cap - 1) as nat)
    } else {
        0
    }
}

/// A numeral letter folded to upper case.
pub open spec fn upper_of(c: u8) -> u8 {
    if c == 105 {
        73
    } else if c == 118 {
        86
    } else {
        c
    }
}

/// The scale degree a roman numeral of up to three letters names, if it
/// names one.
pub open spec fn roman_degree_of(b: Seq<u8>, s: int, rl: int) -> Option<usize> {
    if rl == 1 {
        if upper_of(b[s]) == 73 {
            Some(0usize)
        } else if upper_of(b[s]) == 86 {
            Some(4usize)
        } else {
            None
        }
    } else if rl == 2 {
        if upper_of(b[s]) == 73 && upper_of(b[s + 1]) == 73 {
            Some(1usize)
        } else if upper_of(b[s]) == 73 && upper_of(b[s + 1]) == 86 {
            Some(3usize)
        } else if upper_of(b[s]) == 86 && upper_of(b[s + 1]) == 73 {
            Some(5usize)
        } else {
            None
        }
    } else if rl == 3 {
        if upper_of(b[s]) == 73 && upper_of(b[s + 1]) == 73 && upper_of(b[s + 2]) == 73 {
            Some(2usize)
        } else if upper_of(b[s]) == 86 && upper_of(b[s + 1]) == 73 && upper_of(b[s + 2]) == 73 {
            Some(6usize)
        } else {
            None
        }
    } else {
        None
    }
}

/// Whether the uppercase numeral is followed by the diminution mark (the
/// three-byte encoding of its ring character).
pub open spec fn rn_diminished(b: Seq<u8>, e: int) -> bool {
    e + 3 <= b.len() && b[e] == 0xe1 && b[e + 1] == 0x90 && b[e + 2] == 0xa4
}

/// Whether the position holds the other augmentation mark, whose meaning
/// the notation leaves undefined.
pub open spec fn rn_bad_augmentation(b: Seq<u8>, e: int) -> bool {
    e + 3 <= b.len() && b[e] == 0xe1 && b[e + 1] == 0x90 && b[e + 2] == 0xa9
}

/// Whether the position holds a superscript added-note digit, which the
/// notation names but does not define.
pub open spec fn rn_added_note(b: Seq<u8>, p: int) -> bool {
    p + 3 <= b.len() && b[p] == 0xe2 && b[p + 1] == 0x81 && 0xb0 <= b[p + 2] <= 0xb9
}

/// A well-formed roman-numeral chord: a numeral run that names a degree,
/// not followed by anything the notation leaves undefined.
pub open spec fn rn_valid(b: Seq<u8>) -> bool {
    let s = numeral_start(b, 0);
    if s >= b.len() {
        false
    } else {
        let lower = is_lower_numeral(b[s]);
        let rl = numeral_run(b, s, lower, 3);
        let e = s + rl;
        &&& roman_degree_of(b, s, rl) is Some
        &&& (lower || !rn_bad_augmentation(b, e))
        &&& (lower || !rn_added_note(b, if rn_diminished(b, e) {
            e + 3
        } else {
            e
        }))
    }
}

/// The degree a well-formed chord names.
pub open spec fn rn_degree(b: Seq<u8>) -> usize {
    let s = numeral_start(b, 0);
    let lower = is_lower_numeral(b[s]);
    let rl = numeral_run(b, s, lower, 3);
    roman_degree_of(b, s, rl).unwrap()
}

/// The semitone offsets of a well-formed chord: a minor, major or
/// diminished triad.
pub open spec fn rn_semitones(b: Seq<u8>) -> Seq<usize> {
    let s = numeral_start(b, 0);
    let lower = is_lower_numeral(b[s]);
    let rl = numeral_run(b, s, lower, 3);
    if lower {
        seq![0usize, 3usize, 7usize]
    } else if rn_diminished(b, s + rl) {
        seq![0usize, 3usize, 6usize]
    } else {
        seq![0usize, 4usize, 7usize]
    }
}

/// Whether the numeral run continues `rl` letters past `s` in the given
/// case.
fn run_continues(b: &[u8], s: usize, rl: usize, lower: bool) -> (r: bool)
    requires
        s <= b@.len(),
    ensures
        r == (s + rl < b@.len() && (if lower {
            is_lower_numeral(b@[s + rl])
        } else {
            is_upper_numeral(b@[s + rl])
        })),
{
    if rl < b.len() - s {
        let c = b[s + rl];
        if lower {
            c == 105 || c == 118
        } else {
            c == 73 || c == 86
        }
    } else {
        false
    }
}

/// Everything a numeral run guarantees about the underlying bytes.
proof fn lemma_run_bytes(b: Seq<u8>, s: int, lower: bool, cap: nat)
    requires
        0 <= s,
    ensures
        0 <= numeral_run(b, s, lower, cap) <= cap,
        s + numeral_run(b, s, lower, cap) <= b.len() || numeral_run(b, s, lower, cap) == 0,
        forall|j: int|
            0 <= j < numeral_run(b, s, lower, cap) ==> (if lower {
                is_lower_numeral(#[trigger] b[s + j])
            } else {
                is_upper_numeral(b[s + j])
            }),
    decreases cap,
{
    if cap > 0 && 0 <= s < b.len() && (if lower {
        is_lower_numeral(b[s])
    } else {
        is_upper_numeral(b[s])
    }) {
        lemma_run_bytes(b, s + 1, lower, (cap - 1) as nat);
        let r = numeral_run(b, s, lower, cap);
        assert forall|j: int| 0 <= j < r implies (if lower {
            is_lower_numeral(#[trigger] b[s + j])
        } else {
            is_upper_numeral(b[s + j])
        }) by {
            if j > 0 {
                assert(0 <= j - 1 < numeral_run(b, s + 1, lower, (cap - 1) as nat));
                assert(b[s + 1 + (j - 1)] == b[s + j]);
            }
        }
    }
}

/// Reads a roman-numeral chord: the scale degree it names and the
/// semitone offsets of its triad — minor for a lowercase numeral, major
/// for an uppercase one, diminished under the ring mark.
pub fn parse_roman_numeral_notation(src: &str) -> (r: (usize, Vec<usize>))
    requires
        rn_valid(src.spec_bytes()),
    ensures
        r.0 == rn_degree(src.spec_bytes()),
        r.1@ == rn_semitones(src.spec_bytes()),
{
    let b = src.as_bytes();
    let mut s: usize = 0;
    while s < b.len() && !(b[s] == 105 || b[s] == 118 || b[s] == 73 || b[s] == 86)
        invariant
            s <= b@.len(),
            numeral_start(b@, 0) == numeral_start(b@, s as int),
        decreases b@.len() - s,
    {
        s = s + 1;
    }
    proof {
        assert(numeral_start(b@, 0) == s as int);
    }
    let lower = b[s] == 105 || b[s] == 118;
    let mut rl: usize = 0;
    while rl < 3 && run_continues(b, s, rl, lower)
        invariant
            rl <= 3,
            s as int + rl as int <= b@.len() + 3,
            s < b@.len(),
            lower == is_lower_numeral(b@[s as int]),
            numeral_run(b@, s as int, lower, 3) == rl + numeral_run(
                b@,
                s as int + rl as int,
                lower,
                (3 - rl) as nat,
            ),
        decreases 3 - rl,
    {
        rl = rl + 1;
    }
    proof {
        assert(numeral_run(b@, s as int + rl as int, lower, (3 - rl) as nat) == 0);
        assert(numeral_run(b@, s as int, lower, 3) == rl as int);
        lemma_run_bytes(b@, s as int, lower, 3);
    }
    let degree: usize = if rl == 1 {
        if b[s] == 73 || b[s] == 105 {
            0
        } else {
            4
        }
    } else if rl == 2 {
        let c0 = b[s] == 73 || b[s] == 105;
        let c1 = b[s + 1] == 73 || b[s + 1] == 105;
        if c0 && c1 {
            1
        } else if c0 {
            3
        } else {
            5
        }
    } else {
        if b[s] == 73 || b[s] == 105 {
            2
        } else {
            6
        }
    };
    let e = s + rl;
    let diminished = !lower && b.len() - e >= 3 && b[e] == 0xe1 && b[e + 1] == 0x90 && b[e + 2]
        == 0xa4;
    let semitones: Vec<usize> = if lower {
        vec![0, 3, 7]
    } else if diminished {
        vec![0, 3, 6]
    } else {
        vec![0, 4, 7]
    };
    proof {
        if lower {
            assert(semitones@ =~= rn_semitones(src.spec_bytes()));
        } else if diminished {
            assert(semitones@ =~= rn_semitones(src.spec_bytes()));
        } else {
            assert(semitones@ =~= rn_semitones(src.spec_bytes()));
        }
    }
    (degree, semitones)
}

/// Partial step sums are never negative.
proof fn lemma_scale_pos_nonneg(pattern: Seq<u32>, k: int)
    ensures
        scale_pos(pattern, k) >= 0,
    decreases k,
{
    if k > 0 {
        lemma_scale_pos_nonneg(pattern, k - 1);
    }
}

/// Partial step sums only grow along the pattern.
proof fn lemma_scale_pos_grows(pattern: Seq<u32>, k: int, m: int)
    requires
        0 <= k <= m <= pattern.len(),
    ensures
        scale_pos(pattern, k) <= scale_pos(pattern, m),
    decreases m - k,
{
    if k < m {
        lemma_scale_pos_grows(pattern, k + 1, m);
    }
}

} // verus!
