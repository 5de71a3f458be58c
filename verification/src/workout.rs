//! The workout state machine: the phases Building, Exercising and Resting,
//! the `next`/`prev` transitions, the editing operations of the exercise
//! table, and the message dispatcher of the presentation boundary.

use vstd::prelude::*;
use crate::countdown::Countdown;
use crate::countdown::countdown;
use crate::countdown::sp_countdown;
use crate::digits::parse_rest_ms_text;
use crate::digits::parse_usize_text;
use crate::digits::parse_usize_chars;
use crate::digits::str_to_chars;
use crate::digits::find_char_from;
use crate::digits::find_char;
use crate::digits::sp_usize_of_text;
use crate::digits::sp_rest_ms_of_text;
use crate::exercise::Exercise;
use crate::exercise::ExerciseV;
use crate::exercise::views_of;

verus! {

/// The phase the application is in.
#[derive(Debug, Clone, Copy, PartialEq, Eq, Structural)]
pub enum AppStatus {
    /// The exercise table is being edited.
    Building,
    /// A set of the current exercise is being performed.
    Exercising,
    /// The rest countdown between sets is running.
    Resting,
}

/// The editable field of one table row.
#[derive(Debug, Clone, Copy, PartialEq, Eq, Structural)]
pub enum Field {
    /// The exercise name.
    Name,
    /// The progression range, written `low-high`.
    Progression,
    /// The rep target.
    Reps,
    /// The set count.
    Sets,
    /// The rest between sets, in seconds.
    Rest,
}

/// An operation on an out-of-range index, or in the wrong phase: the
/// operation is refused instead of crashing.
#[derive(Debug, Clone, Copy, PartialEq, Eq, Structural)]
pub enum WorkoutError {
    /// The precondition of the operation did not hold.
    Precondition,
}

/// A user-input event of the presentation boundary.
#[derive(Debug, Clone)]
pub enum WorkoutMessage {
    /// Advance the workout.
    Next,
    /// Rewind the workout.
    Previous,
    /// Replace a field of one table row with parsed text.
    UpdateText {
        /// Row index.
        index: usize,
        /// Which field the text belongs to.
        field: Field,
        /// The raw text of the cell.
        text: String,
    },
    /// Append a default row to the table.
    AddExercise,
    /// Delete one table row.
    RemoveExercise(usize),
    /// A tick of the redraw timer, in milliseconds of the app clock.
    UpdateTimer(u64),
}

/// The mathematical view of the whole application state.
#[verifier::ext_equal]
pub ghost struct WorkoutV {
    /// Current phase.
    pub status: AppStatus,
    /// Views of the exercise list.
    pub exercises: Seq<ExerciseV>,
    /// Index of the current exercise.
    pub current_exercise: nat,
    /// Index of the current set within the current exercise.
    pub current_set: nat,
    /// When the running rest began, in milliseconds of the app clock.
    pub rest_start: nat,
    /// The last clock reading seen, in milliseconds of the app clock.
    pub last_update: nat,
}

/// Whether a workout may start: the list is non-empty and every record is
/// valid.
pub open spec fn can_start_v(exs: Seq<ExerciseV>) -> bool {
    exs.len() > 0 && forall|i: int| 0 <= i < exs.len() ==> (#[trigger] exs[i]).valid()
}

/// The state invariant: in Building the position is at the origin; outside
/// Building the list can run a workout and the position lies within it.
pub open spec fn wf_v(s: WorkoutV) -> bool {
    match s.status {
        AppStatus::Building => s.current_exercise == 0 && s.current_set == 0,
        _ => can_start_v(s.exercises) && s.current_exercise < s.exercises.len()
            && s.current_set < s.exercises[s.current_exercise as int].sets,
    }
}

/// The `Next` transition.
///
/// Building starts the workout at the first set of the first exercise, and
/// only when [`can_start_v`] holds; otherwise nothing changes.  Exercising
/// always moves to Resting and stamps both clocks with `now`.  Resting
/// advances the set counter, rolling over into the next exercise and, past
/// the last exercise, back to Building at the origin.
pub open spec fn spec_next(s: WorkoutV, now: nat) -> WorkoutV {
    match s.status {
        AppStatus::Building => {
            if can_start_v(s.exercises) {
                WorkoutV { status: AppStatus::Exercising, ..s }
            } else {
                s
            }
        },
        AppStatus::Exercising => (WorkoutV {
            status: AppStatus::Resting,
            rest_start: now,
            last_update: now,
            ..s
        }),
        AppStatus::Resting => {
            let set1 = s.current_set + 1;
            if set1 >= s.exercises[s.current_exercise as int].sets {
                let ex1 = s.current_exercise + 1;
                if ex1 >= s.exercises.len() {
                    WorkoutV {
                        status: AppStatus::Building,
                        current_exercise: 0,
                        current_set: 0,
                        ..s
                    }
                } else {
                    WorkoutV {
                        status: AppStatus::Exercising,
                        current_exercise: ex1,
                        current_set: 0,
                        ..s
                    }
                }
            } else {
                WorkoutV { status: AppStatus::Exercising, current_set: set1, ..s }
            }
        },
    }
}

/// The `Previous` transition.
///
/// Building ignores it.  Exercising steps one set back, rolling into the
/// last set of the previous exercise, and from the very first set back to
/// Building.  Resting returns to Exercising without rewinding the counters:
/// the deliberate asymmetry between advancing and rewinding.
pub open spec fn spec_prev(s: WorkoutV) -> WorkoutV {
    match s.status {
        AppStatus::Building => s,
        AppStatus::Exercising => {
            if s.current_exercise == 0 && s.current_set == 0 {
                WorkoutV { status: AppStatus::Building, ..s }
            } else if s.current_set == 0 {
                let ex1 = (s.current_exercise - 1) as nat;
                WorkoutV {
                    current_exercise: ex1,
                    current_set: (s.exercises[ex1 as int].sets - 1) as nat,
                    ..s
                }
            } else {
                WorkoutV { current_set: (s.current_set - 1) as nat, ..s }
            }
        },
        AppStatus::Resting => (WorkoutV { status: AppStatus::Exercising, ..s }),
    }
}

/// `Next` preserves the state invariant.
pub proof fn lemma_next_wf(s: WorkoutV, now: nat)
    requires
        wf_v(s),
    ensures
        wf_v(spec_next(s, now)),
{
}

/// `Previous` preserves the state invariant.
pub proof fn lemma_prev_wf(s: WorkoutV)
    requires
        wf_v(s),
    ensures
        wf_v(spec_prev(s)),
{
}

/// Every boundary message preserves the state invariant: whatever the user
/// does, the position stays within the list and the list stays runnable
/// outside Building.
pub proof fn lemma_update_wf(s: WorkoutV, message: WorkoutMessage, now: nat)
    requires
        wf_v(s),
    ensures
        wf_v(spec_update(s, message, now)),
{
    match message {
        WorkoutMessage::Next => lemma_next_wf(s, now),
        WorkoutMessage::Previous => lemma_prev_wf(s),
        _ => {},
    }
}

/// Advancing and then rewinding returns to the same position.
///
/// From any state except a Resting state on the last set of the last
/// exercise (from which `Next` wraps to Building and forgets the position),
/// one `prev` after one `next` restores the exercise list, the exercise
/// index and the set index exactly.  The phase is also restored, except
/// when it was Resting: rewinding never re-enters Resting, so a Resting
/// state comes back as the Exercising state at the same position — the
/// documented asymmetry.
pub proof fn lemma_next_then_prev(s: WorkoutV, now: nat)
    requires
        wf_v(s),
        !(s.status is Resting && s.current_set + 1 >= s.exercises[s.current_exercise as int].sets
            && s.current_exercise + 1 >= s.exercises.len()),
    ensures
        spec_prev(spec_next(s, now)).exercises == s.exercises,
        spec_prev(spec_next(s, now)).current_exercise == s.current_exercise,
        spec_prev(spec_next(s, now)).current_set == s.current_set,
        spec_prev(spec_next(s, now)).status == (if s.status is Resting {
            AppStatus::Exercising
        } else {
            s.status
        }),
{
}

/// A Building state whose list is empty, or holds any invalid record,
/// cannot start a workout: `Next` leaves the state unchanged, and keeps
/// doing so until the whole list is valid.
pub proof fn lemma_blocked_building_stays(s: WorkoutV, now: nat)
    requires
        s.status is Building,
        !can_start_v(s.exercises),
    ensures
        spec_next(s, now) == s,
{
}

/// A Building state over a non-empty list of valid records starts the
/// workout: `Next` moves to Exercising at the first set of the first
/// exercise.
pub proof fn lemma_ready_building_starts(s: WorkoutV, now: nat)
    requires
        wf_v(s),
        s.status is Building,
        can_start_v(s.exercises),
    ensures
        spec_next(s, now).status is Exercising,
        spec_next(s, now).current_exercise == 0,
        spec_next(s, now).current_set == 0,
        spec_next(s, now).exercises == s.exercises,
{
}

/// The field update applied to one record: the raw text is parsed with the
/// forgiving policy of the table (unparseable numbers become zero), and
/// only the addressed field changes.
pub open spec fn spec_set_field(e: ExerciseV, field: Field, text: Seq<char>) -> ExerciseV {
    match field {
        Field::Name => ExerciseV { name: text, ..e },
        Field::Progression => {
            let dash = find_char(text, '-', 0);
            if dash < text.len() {
                let low = sp_usize_of_text(text.subrange(0, dash));
                let dash2 = find_char(text, '-', dash + 1);
                let high = sp_usize_of_text(text.subrange(dash + 1, dash2));
                ExerciseV { progression_low: low, progression_high: high, ..e }
            } else {
                e
            }
        },
        Field::Reps => ExerciseV { reps: sp_usize_of_text(text), ..e },
        Field::Sets => ExerciseV { sets: sp_usize_of_text(text), ..e },
        Field::Rest => ExerciseV { rest_ms: sp_rest_ms_of_text(text), ..e },
    }
}

/// The effect of `update_field` on the whole state: in Building with a
/// valid index the addressed record changes as [`spec_set_field`] says;
/// any other call leaves the state untouched.
pub open spec fn spec_update_field(s: WorkoutV, index: nat, field: Field, text: Seq<char>) -> WorkoutV {
    if s.status is Building && index < s.exercises.len() {
        WorkoutV {
            exercises: s.exercises.update(
                index as int,
                spec_set_field(s.exercises[index as int], field, text),
            ),
            ..s
        }
    } else {
        s
    }
}

/// The effect of `add_exercise`: in Building the default record is
/// appended; outside Building the table is not editable and nothing
/// changes.
pub open spec fn spec_add_exercise(s: WorkoutV) -> WorkoutV {
    if s.status is Building {
        WorkoutV { exercises: s.exercises.push(default_exercise_v()), ..s }
    } else {
        s
    }
}

/// The view of [`Exercise::default`].
pub open spec fn default_exercise_v() -> ExerciseV {
    ExerciseV {
        name: "Exercise"@,
        progression_low: 5,
        progression_high: 12,
        reps: 5,
        sets: 3,
        rest_ms: 60000,
    }
}

/// The effect of `remove_exercise`: in Building with a valid index the
/// addressed record disappears; any other call leaves the state untouched.
pub open spec fn spec_remove_exercise(s: WorkoutV, index: nat) -> WorkoutV {
    if s.status is Building && index < s.exercises.len() {
        WorkoutV { exercises: s.exercises.remove(index as int), ..s }
    } else {
        s
    }
}

/// The effect of one message on the state.
pub open spec fn spec_update(s: WorkoutV, message: WorkoutMessage, now: nat) -> WorkoutV {
    match message {
        WorkoutMessage::Next => spec_next(s, now),
        WorkoutMessage::Previous => spec_prev(s),
        WorkoutMessage::UpdateText { index, field, text } => spec_update_field(
            s,
            index as nat,
            field,
            text@,
        ),
        WorkoutMessage::AddExercise => spec_add_exercise(s),
        WorkoutMessage::RemoveExercise(index) => spec_remove_exercise(s, index as nat),
        WorkoutMessage::UpdateTimer(tick) => (WorkoutV { last_update: tick as nat, ..s }),
    }
}

/// The application state: the exercise list, the phase, the position in the
/// workout, and the two clock anchors of the rest countdown.
#[derive(Debug)]
pub struct WorkoutApp {
    status: AppStatus,
    exercises: Vec<Exercise>,
    current_exercise: usize,
    current_set: usize,
    rest_start: u64,
    last_update: u64,
}

impl View for WorkoutApp {
    type V = WorkoutV;

    closed spec fn view(&self) -> WorkoutV {
        WorkoutV {
            status: self.status,
            exercises: views_of(self.exercises@),
            current_exercise: self.current_exercise as nat,
            current_set: self.current_set as nat,
            rest_start: self.rest_start as nat,
            last_update: self.last_update as nat,
        }
    }
}

impl WorkoutApp {
    #[verifier::type_invariant]
    spec fn inv(self) -> bool {
        wf_v(self@)
    }

    /// A fresh state: Building, with a single default exercise.
    pub fn new() -> (app: Self)
        ensures
            app@.status is Building,
            app@.exercises =~= seq![default_exercise_v()],
            app@.current_exercise == 0,
            app@.current_set == 0,
            app@.rest_start == 0,
            app@.last_update == 0,
    {
        let mut exercises: Vec<Exercise> = Vec::new();
        exercises.push(Exercise::default());
        let app = WorkoutApp {
            status: AppStatus::Building,
            exercises,
            current_exercise: 0,
            current_set: 0,
            rest_start: 0,
            last_update: 0,
        };
        proof {
            assert(app@.exercises =~= seq![default_exercise_v()]);
        }
        app
    }

    /// A Building state over a given exercise list, as restored from
    /// storage.
    pub fn with_exercises(exercises: Vec<Exercise>) -> (app: Self)
        ensures
            app@.status is Building,
            app@.exercises == views_of(exercises@),
            app@.current_exercise == 0,
            app@.current_set == 0,
            app@.rest_start == 0,
            app@.last_update == 0,
    {
        WorkoutApp {
            status: AppStatus::Building,
            exercises,
            current_exercise: 0,
            current_set: 0,
            rest_start: 0,
            last_update: 0,
        }
    }

    /// Whether the workout can start from the current list.
    pub fn can_start(&self) -> (b: bool)
        ensures
            b == can_start_v(self@.exercises),
    {
        let n = self.exercises.len();
        if n == 0 {
            return false;
        }
        let mut i: usize = 0;
        while i < n
            invariant
                n == self.exercises@.len(),
                i <= n,
                forall|k: int| 0 <= k < i ==> (#[trigger] views_of(self.exercises@)[k]).valid(),
            decreases n - i,
        {
            if !self.exercises[i].is_valid() {
                assert(!views_of(self.exercises@)[i as int].valid());
                return false;
            }
            i = i + 1;
        }
        true
    }

    /// Advances the workout, as [`spec_next`] describes; `now_ms` is the
    /// clock reading stamped on entry into Resting.
    pub fn next(&mut self, now_ms: u64)
        ensures
            final(self)@ == spec_next(old(self)@, now_ms as nat),
    {
        proof {
            use_type_invariant(&*self);
        }
        let ghost s0 = self@;
        match self.status {
            AppStatus::Building => {
                if self.can_start() {
                    self.status = AppStatus::Exercising;
                }
                assert(self@ =~= spec_next(s0, now_ms as nat));
            },
            AppStatus::Exercising => {
                self.status = AppStatus::Resting;
                self.rest_start = now_ms;
                self.last_update = now_ms;
                assert(self@ =~= spec_next(s0, now_ms as nat));
            },
            AppStatus::Resting => {
                proof {
                    assert(self.current_exercise < self.exercises@.len());
                    assert(self.current_set < self.exercises@[self.current_exercise as int]@.sets);
                }
                let n = self.exercises.len();
                let sets_here = self.exercises[self.current_exercise].sets;
                let new_set = self.current_set + 1;
                if new_set >= sets_here {
                    let new_exercise = self.current_exercise + 1;
                    if new_exercise >= n {
                        self.current_set = 0;
                        self.current_exercise = 0;
                        self.status = AppStatus::Building;
                    } else {
                        self.current_set = 0;
                        self.current_exercise = new_exercise;
                        self.status = AppStatus::Exercising;
                    }
                } else {
                    self.current_set = new_set;
                    self.status = AppStatus::Exercising;
                }
                assert(self@ =~= spec_next(s0, now_ms as nat));
            },
        }
    }

    /// Rewinds the workout, as [`spec_prev`] describes.
    pub fn prev(&mut self)
        ensures
            final(self)@ == spec_prev(old(self)@),
    {
        proof {
            use_type_invariant(&*self);
        }
        let ghost s0 = self@;
        match self.status {
            AppStatus::Building => {},
            AppStatus::Exercising => {
                if self.current_exercise == 0 && self.current_set == 0 {
                    self.status = AppStatus::Building;
                } else if self.current_set == 0 {
                    let prev_exercise = self.current_exercise - 1;
                    self.current_exercise = prev_exercise;
                    self.current_set = self.exercises[prev_exercise].sets - 1;
                } else {
                    self.current_set = self.current_set - 1;
                }
            },
            AppStatus::Resting => {
                self.status = AppStatus::Exercising;
            },
        }
        assert(self@ =~= spec_prev(s0));
    }

    /// Appends a default row to the table, as [`spec_add_exercise`]
    /// describes: only the Building table is editable.
    pub fn add_exercise(&mut self)
        ensures
            final(self)@ == spec_add_exercise(old(self)@),
    {
        proof {
            use_type_invariant(&*self);
        }
        let ghost s0 = self@;
        match self.status {
            AppStatus::Building => {
                let mut exercises: Vec<Exercise> = Vec::new();
                std::mem::swap(&mut exercises, &mut self.exercises);
                exercises.push(Exercise::default());
                std::mem::swap(&mut exercises, &mut self.exercises);
                proof {
                    assert(views_of(self.exercises@) =~= s0.exercises.push(default_exercise_v()));
                    assert(self@ =~= spec_add_exercise(s0));
                }
            },
            _ => {},
        }
    }

    /// Deletes one table row, as [`spec_remove_exercise`] describes.  The
    /// row must exist and the table must be in the Building phase;
    /// otherwise nothing changes and the error says so.
    pub fn remove_exercise(&mut self, index: usize) -> (r: Result<(), WorkoutError>)
        ensures
            final(self)@ == spec_remove_exercise(old(self)@, index as nat),
            r is Ok <==> (old(self)@.status is Building && index < old(self)@.exercises.len()),
    {
        proof {
            use_type_invariant(&*self);
        }
        let ghost s0 = self@;
        match self.status {
            AppStatus::Building => {
                if index < self.exercises.len() {
                    let mut exercises: Vec<Exercise> = Vec::new();
                    std::mem::swap(&mut exercises, &mut self.exercises);
                    exercises.remove(index);
                    std::mem::swap(&mut exercises, &mut self.exercises);
                    proof {
                        assert(views_of(self.exercises@) =~= s0.exercises.remove(index as int));
                        assert(self@ =~= spec_remove_exercise(s0, index as nat));
                    }
                    Ok(())
                } else {
                    Err(WorkoutError::Precondition)
                }
            },
            _ => Err(WorkoutError::Precondition),
        }
    }

    /// Replaces one field of one table row with the parsed text, as
    /// [`spec_update_field`] describes.  Out of Building, or with an index
    /// past the table, nothing changes — the silent policy of the editor.
    pub fn update_field(&mut self, index: usize, field: Field, text: &str)
        ensures
            final(self)@ == spec_update_field(old(self)@, index as nat, field, text@),
    {
        proof {
            use_type_invariant(&*self);
        }
        let ghost s0 = self@;
        let is_building = match self.status {
            AppStatus::Building => true,
            _ => false,
        };
        if !is_building || index >= self.exercises.len() {
            return ;
        }
        let mut exercises: Vec<Exercise> = Vec::new();
        std::mem::swap(&mut exercises, &mut self.exercises);
        let updated = set_field(&exercises[index], field, text);
        exercises.set(index, updated);
        std::mem::swap(&mut exercises, &mut self.exercises);
        proof {
            assert(views_of(self.exercises@) =~= s0.exercises.update(
                index as int,
                spec_set_field(s0.exercises[index as int], field, text@),
            ));
            assert(self@ =~= spec_update_field(s0, index as nat, field, text@));
        }
    }

    /// Applies one boundary message, as [`spec_update`] describes; `now_ms`
    /// is the clock reading of the moment the message is handled.
    pub fn update(&mut self, message: WorkoutMessage, now_ms: u64)
        ensures
            final(self)@ == spec_update(old(self)@, message, now_ms as nat),
    {
        match message {
            WorkoutMessage::Next => self.next(now_ms),
            WorkoutMessage::Previous => self.prev(),
            WorkoutMessage::UpdateText { index, field, text } => {
                self.update_field(index, field, text.as_str())
            },
            WorkoutMessage::AddExercise => self.add_exercise(),
            WorkoutMessage::RemoveExercise(index) => {
                let _ = self.remove_exercise(index);
            },
            WorkoutMessage::UpdateTimer(tick) => {
                proof {
                    use_type_invariant(&*self);
                }
                let ghost s0 = self@;
                self.last_update = tick;
                assert(self@ =~= spec_update(s0, message, now_ms as nat));
            },
        }
    }

    /// Current phase.
    pub fn status(&self) -> (r: AppStatus)
        ensures
            r == self@.status,
    {
        self.status
    }

    /// The exercise list.
    pub fn exercises(&self) -> (r: &Vec<Exercise>)
        ensures
            views_of(r@) == self@.exercises,
    {
        &self.exercises
    }

    /// Index of the current exercise.
    pub fn current_exercise(&self) -> (r: usize)
        ensures
            r as nat == self@.current_exercise,
    {
        self.current_exercise
    }

    /// Index of the current set.
    pub fn current_set(&self) -> (r: usize)
        ensures
            r as nat == self@.current_set,
    {
        self.current_set
    }

    /// When the running rest began.
    pub fn rest_start_ms(&self) -> (r: u64)
        ensures
            r as nat == self@.rest_start,
    {
        self.rest_start
    }

    /// The last clock reading seen.
    pub fn last_update_ms(&self) -> (r: u64)
        ensures
            r as nat == self@.last_update,
    {
        self.last_update
    }

    /// Whether the redraw timer should run: only while Resting.
    pub fn wants_tick(&self) -> (b: bool)
        ensures
            b == (self@.status is Resting),
    {
        match self.status {
            AppStatus::Resting => true,
            _ => false,
        }
    }

    /// What the rest timer shows, from the stored clock anchors: the
    /// countdown of the current exercise's rest in Resting, and nothing in
    /// any other phase.
    pub fn rest_countdown(&self) -> (c: Option<Countdown>)
        ensures
            self@.status is Resting ==> c == Some(
                sp_countdown(
                    self@.exercises[self@.current_exercise as int].rest_ms,
                    self@.rest_start,
                    self@.last_update,
                ),
            ),
            !(self@.status is Resting) ==> c is None,
    {
        proof {
            use_type_invariant(&*self);
        }
        match self.status {
            AppStatus::Resting => {
                let rest_ms = self.exercises[self.current_exercise].rest_ms;
                Some(countdown(rest_ms, self.rest_start, self.last_update))
            },
            _ => None,
        }
    }

    /// The window title.
    pub fn title(&self) -> (r: String)
        ensures
            r@ == "Workout Helper App"@,
    {
        String::from_str("Workout Helper App")
    }
}

/// One record with one field replaced by parsed text, as
/// [`spec_set_field`] describes.
fn set_field(e: &Exercise, field: Field, text: &str) -> (r: Exercise)
    ensures
        r@ == spec_set_field(e@, field, text@),
{
    match field {
        Field::Name => {
            let r = Exercise {
                name: String::from_str(text),
                progression_low: e.progression_low,
                progression_high: e.progression_high,
                reps: e.reps,
                sets: e.sets,
                rest_ms: e.rest_ms,
            };
            r
        },
        Field::Progression => {
            let v = str_to_chars(text);
            let dash = find_char_from(&v, '-', 0);
            if dash < v.len() {
                let low = parse_usize_chars(&v, 0, dash);
                let dash2 = find_char_from(&v, '-', dash + 1);
                let high = parse_usize_chars(&v, dash + 1, dash2);
                proof {
                    assert(v@.subrange(0, dash as int) =~= text@.subrange(
                        0,
                        find_char(text@, '-', 0),
                    ));
                    assert(v@.subrange(dash + 1, dash2 as int) =~= text@.subrange(
                        find_char(text@, '-', 0) + 1,
                        find_char(text@, '-', find_char(text@, '-', 0) + 1),
                    ));
                }
                Exercise {
                    name: e.name.clone(),
                    progression_low: low,
                    progression_high: high,
                    reps: e.reps,
                    sets: e.sets,
                    rest_ms: e.rest_ms,
                }
            } else {
                e.duplicate()
            }
        },
        Field::Reps => {
            Exercise {
                name: e.name.clone(),
                progression_low: e.progression_low,
                progression_high: e.progression_high,
                reps: parse_usize_text(text),
                sets: e.sets,
                rest_ms: e.rest_ms,
            }
        },
        Field::Sets => {
            Exercise {
                name: e.name.clone(),
                progression_low: e.progression_low,
                progression_high: e.progression_high,
                reps: e.reps,
                sets: parse_usize_text(text),
                rest_ms: e.rest_ms,
            }
        },
        Field::Rest => {
            Exercise {
                name: e.name.clone(),
                progression_low: e.progression_low,
                progression_high: e.progression_high,
                reps: e.reps,
                sets: e.sets,
                rest_ms: parse_rest_ms_text(text),
            }
        },
    }
}

} // verus!
