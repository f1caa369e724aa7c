use vstd::prelude::*;

use crate::errors::IntervalError;
use crate::note::Note;
use crate::note::pitch_class_from_interval;
use vstd::arithmetic::div_mod::lemma_fundamental_div_mod;
use vstd::arithmetic::div_mod::lemma_mod_bound;

verus! {

/// The character of an interval, independent of its diatonic size.
#[derive(Debug, Clone, Copy, PartialEq, Eq, Structural)]
pub enum Quality {
    Perfect,
    Major,
    Minor,
    Augmented,
    Diminished,
}

/// The diatonic size class of an interval, independent of its quality.
#[derive(Debug, Clone, Copy, PartialEq, Eq, Structural)]
pub enum Number {
    Unison,
    Second,
    Third,
    Fourth,
    Fifth,
    Sixth,
    Seventh,
    Octave,
}

/// A step label, carried only by the three smallest distances for which one is
/// meaningful: one semitone (half), two (whole), and six (the tritone).
#[derive(Debug, Clone, Copy, PartialEq, Eq, Structural)]
pub enum Step {
    Half,
    Whole,
    Tritone,
}

/// An interval: a semitone distance in 0..=12 together with its
/// classification. The public constructors keep the fields consistent with
/// the classification table; `new` is a raw constructor whose caller takes on
/// that responsibility.
#[derive(Debug, Clone, Copy, PartialEq, Eq)]
pub struct Interval {
    pub semitone_count: u8,
    pub quality: Quality,
    pub number: Number,
    pub step: Option<Step>,
}

/// The diatonic number column of the classification table.
pub open spec fn number_of(semitones: int) -> Number {
    if semitones == 0 {
        Number::Unison
    } else if semitones <= 2 {
        Number::Second
    } else if semitones <= 4 {
        Number::Third
    } else if semitones == 5 {
        Number::Fourth
    } else if semitones <= 7 {
        Number::Fifth
    } else if semitones <= 9 {
        Number::Sixth
    } else if semitones <= 11 {
        Number::Seventh
    } else {
        Number::Octave
    }
}

/// The quality column of the classification table. The tritone (six
/// semitones) is classified as a diminished fifth, not an augmented fourth.
pub open spec fn quality_of(semitones: int) -> Quality {
    if semitones == 0 || semitones == 5 || semitones == 7 || semitones == 12 {
        Quality::Perfect
    } else if semitones == 6 {
        Quality::Diminished
    } else if semitones == 1 || semitones == 3 || semitones == 8 || semitones == 10 {
        Quality::Minor
    } else {
        Quality::Major
    }
}

/// The step column of the classification table: present only for one and two
/// semitones and for the tritone.
pub open spec fn step_of(semitones: int) -> Option<Step> {
    if semitones == 1 {
        Some(Step::Half)
    } else if semitones == 2 {
        Some(Step::Whole)
    } else if semitones == 6 {
        Some(Step::Tritone)
    } else {
        None
    }
}

/// The row of the classification table for a semitone distance: the interval
/// that classification returns.
pub open spec fn classified(semitones: int) -> Interval {
    Interval {
        semitone_count: semitones as u8,
        quality: quality_of(semitones),
        number: number_of(semitones),
        step: step_of(semitones),
    }
}

/// How many octave boundaries a transposition crosses: one less than the sum
/// of the starting ordinal and the semitone count, divided by twelve,
/// truncating toward zero. The subtraction of one is a deliberate bias of the
/// octave bookkeeping: from ordinal zero, a full octave of twelve semitones
/// still yields a delta of zero.
pub open spec fn octave_delta(pitch_class: int, semitones: int) -> int {
    if pitch_class + semitones == 0 {
        0
    } else {
        (pitch_class + semitones - 1) / 12
    }
}

/// The note reached from `start` by an interval: the pitch class wraps at the
/// octave, and the octave number grows by `octave_delta`.
pub open spec fn transposed(interval: Interval, start: Note) -> Note {
    Note {
        pitch_class: ((start.pitch_class + interval.semitone_count) % 12) as u8,
        octave: (start.octave + octave_delta(
            start.pitch_class as int,
            interval.semitone_count as int,
        )) as u8,
    }
}

/// The scan of `transposed` over a list of intervals: the root, then one note
/// per interval, each reached from its immediate predecessor.
pub open spec fn note_chain(root: Note, intervals: Seq<Interval>) -> Seq<Note>
    decreases intervals.len(),
{
    if intervals.len() == 0 {
        seq![root]
    } else {
        seq![root] + note_chain(transposed(intervals[0], root), intervals.drop_first())
    }
}

/// On the domain of well-formed inputs the octave delta is a threshold: one
/// exactly when ordinal plus semitones reaches thirteen, else zero. In
/// particular a full octave from ordinal zero gives a delta of zero.
pub proof fn lemma_octave_delta_threshold(pitch_class: int, semitones: int)
    requires
        0 <= pitch_class < 12,
        0 <= semitones <= 12,
    ensures
        octave_delta(pitch_class, semitones) == if pitch_class + semitones >= 13 {
            1int
        } else {
            0int
        },
{
    let sum: int = pitch_class + semitones;
    if sum != 0 {
        lemma_fundamental_div_mod(sum - 1, 12);
        lemma_mod_bound(sum - 1, 12);
    }
}

impl Interval {
    /// An interval is well formed when its fields agree with the row of the
    /// classification table for its semitone count.
    pub open spec fn wf(self) -> bool {
        self.semitone_count <= 12 && self == classified(self.semitone_count as int)
    }

    /// Raw field-level constructor. It enforces nothing: keeping the fields
    /// consistent with the classification table is the caller's business.
    pub fn new(semitone_count: u8, quality: Quality, number: Number, step: Option<Step>) -> (r:
        Self)
        ensures
            r.semitone_count == semitone_count,
            r.quality == quality,
            r.number == number,
            r.step == step,
    {
        Interval { semitone_count, quality, number, step }
    }

    /// Classifies a single semitone distance: the fixed table over 0..=12,
    /// and `InvalidInterval` outside it.
    pub fn from_semitone(sc: u8) -> (r: Result<Self, IntervalError>)
        ensures
            sc <= 12 ==> r == Ok::<Interval, IntervalError>(classified(sc as int)),
            sc > 12 ==> r == Err::<Interval, IntervalError>(IntervalError::InvalidInterval),
            r matches Ok(interval) ==> interval.wf(),
    {
        let (number, quality, step): (Number, Quality, Option<Step>) = match sc {
            0 => (Number::Unison, Quality::Perfect, None),
            1 => (Number::Second, Quality::Minor, Some(Step::Half)),
            2 => (Number::Second, Quality::Major, Some(Step::Whole)),
            3 => (Number::Third, Quality::Minor, None),
            4 => (Number::Third, Quality::Major, None),
            5 => (Number::Fourth, Quality::Perfect, None),
            6 => (Number::Fifth, Quality::Diminished, Some(Step::Tritone)),
            7 => (Number::Fifth, Quality::Perfect, None),
            8 => (Number::Sixth, Quality::Minor, None),
            9 => (Number::Sixth, Quality::Major, None),
            10 => (Number::Seventh, Quality::Minor, None),
            11 => (Number::Seventh, Quality::Major, None),
            12 => (Number::Octave, Quality::Perfect, None),
            _ => {
                return Err(IntervalError::InvalidInterval);
            },
        };
        Ok(Interval { semitone_count: sc, number, quality, step })
    }

    /// Classifies a list of semitone distances, in order. An empty list is
    /// invalid input, and the first out-of-range element fails the whole
    /// call: no partial result is returned.
    pub fn from_semitones(semi_tones: &[u8]) -> (r: Result<Vec<Self>, IntervalError>)
        ensures
            r matches Ok(intervals) ==> {
                &&& semi_tones@.len() > 0
                &&& forall|i: int|
                    0 <= i < semi_tones@.len() ==> #[trigger] semi_tones@[i] <= 12
                &&& intervals@.len() == semi_tones@.len()
                &&& forall|i: int|
                    0 <= i < semi_tones@.len() ==> #[trigger] intervals@[i] == classified(
                        semi_tones@[i] as int,
                    )
                &&& forall|i: int| 0 <= i < intervals@.len() ==> (#[trigger] intervals@[i]).wf()
            },
            r matches Err(e) ==> {
                &&& e == IntervalError::InvalidInterval
                &&& (semi_tones@.len() == 0 || exists|i: int|
                    0 <= i < semi_tones@.len() && #[trigger] semi_tones@[i] > 12)
            },
    {
        let mut intervals: Vec<Interval> = Vec::new();
        if semi_tones.len() == 0 {
            return Err(IntervalError::InvalidInterval);
        }
        let mut idx: usize = 0;
        while idx < semi_tones.len()
            invariant
                idx <= semi_tones@.len(),
                intervals@.len() == idx,
                forall|j: int| 0 <= j < idx ==> #[trigger] semi_tones@[j] <= 12,
                forall|j: int|
                    0 <= j < idx ==> #[trigger] intervals@[j] == classified(semi_tones@[j] as int),
            decreases semi_tones@.len() - idx,
        {
            let interval = match Self::from_semitone(semi_tones[idx]) {
                Ok(interval) => interval,
                Err(e) => {
                    return Err(e);
                },
            };
            intervals.push(interval);
            idx = idx + 1;
        }
        Ok(intervals)
    }

    /// Transposes a single note by this interval. The pitch class is
    /// delegated to the pitch-class mapping; the octave is computed locally
    /// from the semitone overflow, with the biased delta of `octave_delta`.
    /// Consistency of the interval beyond its semitone count is not checked
    /// here: that is the classifier's business.
    pub fn second_note_from(&self, first_note: Note) -> (r: Note)
        requires
            self.semitone_count <= 12,
            first_note.wf(),
            first_note.octave + octave_delta(
                first_note.pitch_class as int,
                self.semitone_count as int,
            ) <= u8::MAX,
        ensures
            r == transposed(*self, first_note),
            r.wf(),
    {
        let pitch_class: u8 = pitch_class_from_interval(first_note.pitch_class, self);
        let octave: u8 = first_note.octave;
        let sum: u8 = first_note.pitch_class + self.semitone_count;
        let excess_octave: u8 = if sum == 0 {
            0
        } else {
            (sum - 1) / 12
        };
        Note { octave: octave + excess_octave, pitch_class }
    }

    /// Builds the chain of notes a root reaches through a list of intervals:
    /// the root itself, then one note per interval, each transposed from the
    /// note before it. An empty list is accepted here and yields the root
    /// alone.
    pub fn to_notes(root: Note, intervals: Vec<Interval>) -> (notes: Vec<Note>)
        requires
            root.wf(),
            forall|k: int|
                0 <= k < intervals@.len() ==> (#[trigger] intervals@[k]).semitone_count <= 12,
            root.octave + intervals@.len() <= u8::MAX,
        ensures
            notes@ == note_chain(root, intervals@),
            notes@.len() == intervals@.len() + 1,
    {
        let mut notes: Vec<Note> = Vec::new();
        notes.push(root);
        proof {
            assert(intervals@.take(0) =~= Seq::<Interval>::empty());
            assert(notes@ =~= note_chain(root, intervals@.take(0)));
        }
        let mut i: usize = 0;
        while i < intervals.len()
            invariant
                i <= intervals@.len(),
                root.wf(),
                forall|k: int|
                    0 <= k < intervals@.len() ==> (#[trigger] intervals@[k]).semitone_count <= 12,
                root.octave + intervals@.len() <= u8::MAX,
                notes@ == note_chain(root, intervals@.take(i as int)),
                notes@.len() == i + 1,
                notes@[i as int].wf(),
                notes@[i as int].octave <= root.octave + i,
            decreases intervals@.len() - i,
        {
            let last_note = notes[notes.len() - 1];
            proof {
                lemma_octave_delta_threshold(
                    last_note.pitch_class as int,
                    intervals@[i as int].semitone_count as int,
                );
            }
            let next = intervals[i].second_note_from(last_note);
            proof {
                lemma_note_chain_snoc(root, intervals@.take(i as int), intervals@[i as int]);
                assert(intervals@.take(i as int).push(intervals@[i as int]) =~= intervals@.take(
                    i as int + 1,
                ));
                assert(note_chain(root, intervals@.take(i as int)).last() == notes@[i as int]);
            }
            notes.push(next);
            i = i + 1;
        }
        proof {
            assert(intervals@.take(intervals@.len() as int) =~= intervals@);
        }
        notes
    }
}

/// The chain through an empty list of intervals is the root alone.
pub proof fn lemma_note_chain_empty(root: Note)
    ensures
        note_chain(root, Seq::<Interval>::empty()) == seq![root],
{
}

/// The chain is one longer than the list of intervals it follows.
pub proof fn lemma_note_chain_len(root: Note, intervals: Seq<Interval>)
    ensures
        note_chain(root, intervals).len() == intervals.len() + 1,
    decreases intervals.len(),
{
    if intervals.len() != 0 {
        lemma_note_chain_len(transposed(intervals[0], root), intervals.drop_first());
    }
}

/// The chain starts with its root.
pub proof fn lemma_note_chain_first(root: Note, intervals: Seq<Interval>)
    ensures
        note_chain(root, intervals)[0] == root,
{
}

/// Each note of the chain after the first is the transposition of its
/// immediate predecessor by the corresponding interval: the chain is a
/// left-to-right reduction, not a set of independent transpositions from the
/// root.
pub proof fn lemma_note_chain_step(root: Note, intervals: Seq<Interval>, i: int)
    requires
        1 <= i <= intervals.len(),
    ensures
        note_chain(root, intervals)[i] == transposed(
            intervals[i - 1],
            note_chain(root, intervals)[i - 1],
        ),
    decreases i,
{
    let tail_root = transposed(intervals[0], root);
    let tail = note_chain(tail_root, intervals.drop_first());
    lemma_note_chain_len(tail_root, intervals.drop_first());
    if i == 1 {
        lemma_note_chain_first(tail_root, intervals.drop_first());
    } else {
        lemma_note_chain_step(tail_root, intervals.drop_first(), i - 1);
        assert(intervals.drop_first()[i - 2] == intervals[i - 1]);
    }
}

/// Extending the list of intervals by one extends the chain by the
/// transposition of its last note.
proof fn lemma_note_chain_snoc(root: Note, intervals: Seq<Interval>, interval: Interval)
    ensures
        note_chain(root, intervals.push(interval)) =~= note_chain(root, intervals).push(
            transposed(interval, note_chain(root, intervals).last()),
        ),
    decreases intervals.len(),
{
    lemma_note_chain_len(root, intervals);
    let ext = intervals.push(interval);
    if intervals.len() == 0 {
        assert(ext[0] == interval);
        assert(ext.drop_first() =~= Seq::<Interval>::empty());
        assert(note_chain(root, intervals) == seq![root]);
        assert(note_chain(root, intervals).last() == root);
        assert(note_chain(transposed(interval, root), Seq::<Interval>::empty()) == seq![
            transposed(interval, root),
        ]);
        assert(note_chain(root, ext) == seq![root] + seq![transposed(interval, root)]);
        assert(seq![root] + seq![transposed(interval, root)] =~= seq![root].push(
            transposed(interval, root),
        ));
    } else {
        let tail_root = transposed(intervals[0], root);
        let tail = note_chain(tail_root, intervals.drop_first());
        assert(ext[0] == intervals[0]);
        assert(ext.drop_first() =~= intervals.drop_first().push(interval));
        lemma_note_chain_snoc(tail_root, intervals.drop_first(), interval);
        lemma_note_chain_len(tail_root, intervals.drop_first());
        let last = tail.last();
        assert(note_chain(root, ext) == seq![root] + note_chain(tail_root, ext.drop_first()));
        assert(note_chain(tail_root, ext.drop_first()) == tail.push(transposed(interval, last)));
        assert(note_chain(root, intervals) == seq![root] + tail);
        assert(note_chain(root, intervals).last() == last);
        assert(seq![root] + tail.push(transposed(interval, last)) =~= (seq![root] + tail).push(
            transposed(interval, last),
        ));
    }
}

impl Default for Interval {
    /// The zero-value placeholder: a major-quality unison shape that no table
    /// row contains. It exists only as a default value and carries no musical
    /// meaning.
    fn default() -> (r: Self)
        ensures
            r.semitone_count == 0,
            r.quality == Quality::Major,
            r.number == Number::Unison,
            r.step is None,
    {
        Interval { semitone_count: 0, quality: Quality::Major, number: Number::Unison, step: None }
    }
}

} // verus!
