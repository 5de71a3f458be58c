use workout_helper::countdown::countdown;
use workout_helper::countdown::Countdown;
use workout_helper::exercise::Exercise;
use workout_helper::workout::AppStatus;
use workout_helper::workout::WorkoutApp;

#[test]
fn one_second_left_rounds_to_one() {
    // 60 s of rest, 59.4 s elapsed: 0.6 s left, shown as "1", not "Done".
    let c = countdown(60_000, 1_000, 1_000 + 59_400);
    assert_eq!(c, Countdown::Remaining(1));
    assert_eq!(c.label(), "1");
}

#[test]
fn past_the_rest_shows_done() {
    // 60 s of rest, 60.1 s elapsed.
    let c = countdown(60_000, 1_000, 1_000 + 60_100);
    assert_eq!(c, Countdown::Done);
    assert_eq!(c.label(), "Done");
}

#[test]
fn exactly_elapsed_shows_done() {
    assert_eq!(countdown(60_000, 0, 60_000), Countdown::Done);
}

#[test]
fn zero_rest_is_immediately_done() {
    assert_eq!(countdown(0, 5, 5), Countdown::Done);
}

#[test]
fn under_half_a_second_shows_zero() {
    // 0.4 s left: rounds to 0 but is not yet "Done".
    let c = countdown(60_000, 0, 59_600);
    assert_eq!(c, Countdown::Remaining(0));
    assert_eq!(c.label(), "0");
}

#[test]
fn halves_round_up() {
    // 2.5 s left rounds to 3.
    assert_eq!(countdown(2_500, 100, 100), Countdown::Remaining(3));
}

#[test]
fn clock_before_rest_start_counts_nothing() {
    assert_eq!(countdown(2_000, 500, 400), Countdown::Remaining(2));
}

#[test]
fn rest_countdown_follows_the_timer() {
    let ex = Exercise { rest_ms: 60_000, ..Exercise::default() };
    let mut app = WorkoutApp::with_exercises(vec![ex]);
    assert_eq!(app.rest_countdown(), None);
    app.next(0);
    assert_eq!(app.rest_countdown(), None);
    app.next(1_000);
    assert_eq!(app.status(), AppStatus::Resting);
    assert_eq!(app.rest_countdown(), Some(Countdown::Remaining(60)));
    app.update(workout_helper::workout::WorkoutMessage::UpdateTimer(1_000 + 59_400), 0);
    assert_eq!(app.rest_countdown(), Some(Countdown::Remaining(1)));
    app.update(workout_helper::workout::WorkoutMessage::UpdateTimer(1_000 + 60_100), 0);
    assert_eq!(app.rest_countdown(), Some(Countdown::Done));
}
