use vstd::prelude::*;

verus! {

/// The one way this library fails: a semitone count outside the classifier's
/// table, or an empty list handed to the list classifier.
#[derive(Debug, Clone, Copy, PartialEq, Eq, Structural)]
pub enum IntervalError {
    InvalidInterval,
}

} // verus!
