use workout_helper::exercise::Exercise;
use workout_helper::workout::AppStatus;
use workout_helper::workout::Field;
use workout_helper::workout::WorkoutApp;
use workout_helper::workout::WorkoutError;
use workout_helper::workout::WorkoutMessage;

fn exercise(sets: usize) -> Exercise {
    Exercise {
        name: "Squats".to_string(),
        progression_low: 5,
        progression_high: 12,
        reps: 8,
        sets,
        rest_ms: 60_000,
    }
}

fn two_by_two() -> WorkoutApp {
    WorkoutApp::with_exercises(vec![exercise(2), exercise(2)])
}

#[test]
fn starts_in_building() {
    let app = WorkoutApp::new();
    assert_eq!(app.status(), AppStatus::Building);
    assert_eq!(app.current_exercise(), 0);
    assert_eq!(app.current_set(), 0);
    assert_eq!(app.exercises().len(), 1);
    assert_eq!(app.exercises()[0], Exercise::default());
}

#[test]
fn full_walk_through_two_exercises() {
    // Building -> Exercising(0,0) -> Resting -> Exercising(0,1) -> Resting
    // -> Exercising(1,0) -> Resting -> Exercising(1,1) -> Resting -> Building
    let mut app = two_by_two();
    app.next(1);
    assert_eq!(app.status(), AppStatus::Exercising);
    assert_eq!((app.current_exercise(), app.current_set()), (0, 0));
    app.next(2);
    assert_eq!(app.status(), AppStatus::Resting);
    app.next(3);
    assert_eq!(app.status(), AppStatus::Exercising);
    assert_eq!((app.current_exercise(), app.current_set()), (0, 1));
    app.next(4);
    assert_eq!(app.status(), AppStatus::Resting);
    app.next(5);
    assert_eq!(app.status(), AppStatus::Exercising);
    assert_eq!((app.current_exercise(), app.current_set()), (1, 0));
    app.next(6);
    app.next(7);
    assert_eq!(app.status(), AppStatus::Exercising);
    assert_eq!((app.current_exercise(), app.current_set()), (1, 1));
    app.next(8);
    assert_eq!(app.status(), AppStatus::Resting);
    app.next(9);
    assert_eq!(app.status(), AppStatus::Building);
    assert_eq!((app.current_exercise(), app.current_set()), (0, 0));
}

#[test]
fn next_stamps_rest_clocks() {
    let mut app = two_by_two();
    app.next(0);
    app.next(1234);
    assert_eq!(app.status(), AppStatus::Resting);
    assert_eq!(app.rest_start_ms(), 1234);
    assert_eq!(app.last_update_ms(), 1234);
}

#[test]
fn advance_then_retreat_restores_position() {
    // Building: one retreat after the advance returns to Building.
    let mut app = two_by_two();
    app.next(0);
    app.prev();
    assert_eq!(app.status(), AppStatus::Building);
    assert_eq!((app.current_exercise(), app.current_set()), (0, 0));
    // Exercising: next enters Resting, prev returns to the same set.
    app.next(0);
    app.next(1);
    assert_eq!(app.status(), AppStatus::Resting);
    app.prev();
    assert_eq!(app.status(), AppStatus::Exercising);
    assert_eq!((app.current_exercise(), app.current_set()), (0, 0));
    // Resting: the retreat lands in Exercising at the same position - the
    // documented asymmetry.
    app.next(2);
    app.next(3);
    assert_eq!((app.current_exercise(), app.current_set()), (0, 1));
    app.prev();
    assert_eq!(app.status(), AppStatus::Exercising);
    assert_eq!((app.current_exercise(), app.current_set()), (0, 0));
}

#[test]
fn prev_wraps_to_previous_exercise_last_set() {
    let mut app = two_by_two();
    app.next(0);
    // advance to Exercising(1,0)
    app.next(1);
    app.next(2);
    app.next(3);
    app.next(4);
    assert_eq!((app.current_exercise(), app.current_set()), (1, 0));
    app.prev();
    assert_eq!(app.status(), AppStatus::Exercising);
    assert_eq!((app.current_exercise(), app.current_set()), (0, 1));
}

#[test]
fn prev_in_building_is_a_no_op() {
    let mut app = two_by_two();
    app.prev();
    assert_eq!(app.status(), AppStatus::Building);
    assert_eq!((app.current_exercise(), app.current_set()), (0, 0));
}

#[test]
fn invalid_exercise_blocks_start() {
    let mut app = WorkoutApp::with_exercises(vec![exercise(0)]);
    app.next(0);
    assert_eq!(app.status(), AppStatus::Building);
    let mut zero_rest = exercise(3);
    zero_rest.rest_ms = 0;
    let mut app = WorkoutApp::with_exercises(vec![zero_rest]);
    app.next(0);
    assert_eq!(app.status(), AppStatus::Building);
}

#[test]
fn remove_last_exercise_disables_start() {
    let mut app = WorkoutApp::with_exercises(vec![exercise(2)]);
    assert!(app.remove_exercise(0).is_ok());
    assert_eq!(app.exercises().len(), 0);
    app.next(0);
    assert_eq!(app.status(), AppStatus::Building);
    // adding a valid exercise enables the start again
    app.add_exercise();
    app.next(0);
    assert_eq!(app.status(), AppStatus::Exercising);
}

#[test]
fn remove_out_of_range_reports_precondition() {
    let mut app = WorkoutApp::with_exercises(vec![exercise(2)]);
    assert_eq!(app.remove_exercise(5), Err(WorkoutError::Precondition));
    assert_eq!(app.exercises().len(), 1);
}

#[test]
fn remove_outside_building_reports_precondition() {
    let mut app = two_by_two();
    app.next(0);
    assert_eq!(app.status(), AppStatus::Exercising);
    assert_eq!(app.remove_exercise(0), Err(WorkoutError::Precondition));
    assert_eq!(app.exercises().len(), 2);
}

#[test]
fn add_exercise_appends_default() {
    let mut app = two_by_two();
    app.add_exercise();
    assert_eq!(app.exercises().len(), 3);
    assert_eq!(app.exercises()[2], Exercise::default());
}

#[test]
fn update_dispatches_messages() {
    let mut app = two_by_two();
    app.update(WorkoutMessage::Next, 11);
    assert_eq!(app.status(), AppStatus::Exercising);
    app.update(WorkoutMessage::Previous, 12);
    assert_eq!(app.status(), AppStatus::Building);
    app.update(WorkoutMessage::AddExercise, 13);
    assert_eq!(app.exercises().len(), 3);
    app.update(WorkoutMessage::RemoveExercise(2), 14);
    assert_eq!(app.exercises().len(), 2);
    app.update(
        WorkoutMessage::UpdateText { index: 0, field: Field::Reps, text: "9".to_string() },
        15,
    );
    assert_eq!(app.exercises()[0].reps, 9);
    app.update(WorkoutMessage::UpdateTimer(777), 16);
    assert_eq!(app.last_update_ms(), 777);
}

#[test]
fn wants_tick_only_while_resting() {
    let mut app = two_by_two();
    assert!(!app.wants_tick());
    app.next(0);
    assert!(!app.wants_tick());
    app.next(1);
    assert!(app.wants_tick());
    app.prev();
    assert!(!app.wants_tick());
}

#[test]
fn title_is_stable() {
    let app = WorkoutApp::new();
    assert_eq!(app.title(), "Workout Helper App");
}
