//! The exercise record: one entry of the workout table, with its
//! mathematical view and the validity predicate that gates the start of a
//! workout.

use vstd::prelude::*;

verus! {

/// One exercise of the workout: a name, a rep target, a set count, a
/// low-high progression range for guidance, and the rest between sets.
///
/// All values may be zero or empty while the list is being edited; a workout
/// can only start once every record is [`valid`](ExerciseV::valid).
#[derive(Debug, Clone, PartialEq, Eq)]
pub struct Exercise {
    /// Display name of the exercise.
    pub name: String,
    /// Low bound of the guidance rep range.
    pub progression_low: usize,
    /// High bound of the guidance rep range.
    pub progression_high: usize,
    /// Rep (or amount) target of one set.
    pub reps: usize,
    /// Number of sets.
    pub sets: usize,
    /// Rest between sets, in milliseconds.
    pub rest_ms: u64,
}

/// The mathematical view of an [`Exercise`].
pub ghost struct ExerciseV {
    /// View of the name.
    pub name: Seq<char>,
    /// Low bound of the progression range.
    pub progression_low: nat,
    /// High bound of the progression range.
    pub progression_high: nat,
    /// Rep target.
    pub reps: nat,
    /// Set count.
    pub sets: nat,
    /// Rest between sets, in milliseconds.
    pub rest_ms: nat,
}

impl View for Exercise {
    type V = ExerciseV;

    open spec fn view(&self) -> ExerciseV {
        ExerciseV {
            name: self.name@,
            progression_low: self.progression_low as nat,
            progression_high: self.progression_high as nat,
            reps: self.reps as nat,
            sets: self.sets as nat,
            rest_ms: self.rest_ms as nat,
        }
    }
}

impl ExerciseV {
    /// A record the workout can run on: every numeric field is non-zero and
    /// the rest is at least one whole second.
    pub open spec fn valid(self) -> bool {
        self.sets > 0 && self.reps > 0 && self.progression_low > 0 && self.progression_high > 0
            && self.rest_ms >= 1000
    }
}

/// The view of a whole exercise list.
pub open spec fn views_of(exercises: Seq<Exercise>) -> Seq<ExerciseV> {
    exercises.map_values(|e: Exercise| e@)
}

impl Exercise {
    /// Whether this record is [`valid`](ExerciseV::valid).
    pub fn is_valid(&self) -> (b: bool)
        ensures
            b == self@.valid(),
    {
        self.sets > 0 && self.reps > 0 && self.progression_low > 0 && self.progression_high > 0
            && self.rest_ms >= 1000
    }
}

impl Exercise {
    /// A copy of this record, field for field.
    pub fn duplicate(&self) -> (r: Exercise)
        ensures
            r@ == self@,
    {
        Exercise {
            name: self.name.clone(),
            progression_low: self.progression_low,
            progression_high: self.progression_high,
            reps: self.reps,
            sets: self.sets,
            rest_ms: self.rest_ms,
        }
    }
}

impl Default for Exercise {
    /// The record a freshly added table row starts from.
    fn default() -> (e: Self)
        ensures
            e@.name == "Exercise"@,
            e@.progression_low == 5,
            e@.progression_high == 12,
            e@.reps == 5,
            e@.sets == 3,
            e@.rest_ms == 60000,
            e@.valid(),
    {
        Exercise {
            name: String::from_str("Exercise"),
            progression_low: 5,
            progression_high: 12,
            reps: 5,
            sets: 3,
            rest_ms: 60000,
        }
    }
}

} // verus!
