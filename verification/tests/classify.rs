use intervals::errors::IntervalError;
use intervals::interval::Interval;
use intervals::interval::Number;
use intervals::interval::Quality;
use intervals::interval::Step;

fn row(sc: u8) -> Interval {
    Interval::from_semitone(sc).expect("value inside the table must classify")
}

#[test]
fn classify_matches_table_row_by_row() {
    let expected: [(u8, Number, Quality, Option<Step>); 13] = [
        (0, Number::Unison, Quality::Perfect, None),
        (1, Number::Second, Quality::Minor, Some(Step::Half)),
        (2, Number::Second, Quality::Major, Some(Step::Whole)),
        (3, Number::Third, Quality::Minor, None),
        (4, Number::Third, Quality::Major, None),
        (5, Number::Fourth, Quality::Perfect, None),
        (6, Number::Fifth, Quality::Diminished, Some(Step::Tritone)),
        (7, Number::Fifth, Quality::Perfect, None),
        (8, Number::Sixth, Quality::Minor, None),
        (9, Number::Sixth, Quality::Major, None),
        (10, Number::Seventh, Quality::Minor, None),
        (11, Number::Seventh, Quality::Major, None),
        (12, Number::Octave, Quality::Perfect, None),
    ];
    for (sc, number, quality, step) in expected {
        let interval = row(sc);
        assert_eq!(interval.semitone_count, sc);
        assert_eq!(interval.number, number);
        assert_eq!(interval.quality, quality);
        assert_eq!(interval.step, step);
    }
}

#[test]
fn classify_rejects_values_above_the_octave() {
    assert_eq!(
        Interval::from_semitone(13),
        Err(IntervalError::InvalidInterval)
    );
    assert_eq!(
        Interval::from_semitone(255),
        Err(IntervalError::InvalidInterval)
    );
}

#[test]
fn classify_many_rejects_an_empty_list() {
    assert_eq!(
        Interval::from_semitones(&[]),
        Err(IntervalError::InvalidInterval)
    );
}

#[test]
fn classify_many_returns_the_major_triad_skeleton() {
    let intervals = Interval::from_semitones(&[0, 4, 7]).expect("a major triad classifies");
    assert_eq!(intervals.len(), 3);
    assert_eq!(intervals[0].number, Number::Unison);
    assert_eq!(intervals[1].number, Number::Third);
    assert_eq!(intervals[2].number, Number::Fifth);
    assert_eq!(intervals[0].quality, Quality::Perfect);
    assert_eq!(intervals[1].quality, Quality::Major);
    assert_eq!(intervals[2].quality, Quality::Perfect);
}

#[test]
fn classify_many_fails_on_the_first_invalid_element() {
    assert_eq!(
        Interval::from_semitones(&[0, 13, 4]),
        Err(IntervalError::InvalidInterval)
    );
}

#[test]
fn raw_constructor_keeps_its_fields() {
    let interval = Interval::new(3, Quality::Minor, Number::Third, None);
    assert_eq!(interval.semitone_count, 3);
    assert_eq!(interval.quality, Quality::Minor);
    assert_eq!(interval.number, Number::Third);
    assert_eq!(interval.step, None);
}

#[test]
fn default_is_the_major_unison_placeholder() {
    let interval = Interval::default();
    assert_eq!(interval.semitone_count, 0);
    assert_eq!(interval.quality, Quality::Major);
    assert_eq!(interval.number, Number::Unison);
    assert_eq!(interval.step, None);
}
