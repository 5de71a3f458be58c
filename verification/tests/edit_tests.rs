use workout_helper::digits::no_zero;
use workout_helper::digits::parse_rest_ms_text;
use workout_helper::digits::parse_usize_text;
use workout_helper::digits::progression_text;
use workout_helper::exercise::Exercise;
use workout_helper::workout::Field;
use workout_helper::workout::WorkoutApp;

fn one_row() -> WorkoutApp {
    WorkoutApp::with_exercises(vec![Exercise::default()])
}

#[test]
fn unparseable_numeric_text_becomes_zero() {
    let mut app = one_row();
    app.update_field(0, Field::Reps, "abc");
    assert_eq!(app.exercises()[0].reps, 0);
    app.update_field(0, Field::Sets, "abc");
    assert_eq!(app.exercises()[0].sets, 0);
    app.update_field(0, Field::Rest, "abc");
    assert_eq!(app.exercises()[0].rest_ms, 0);
}

#[test]
fn numeric_fields_parse_plain_decimals() {
    let mut app = one_row();
    app.update_field(0, Field::Reps, "15");
    assert_eq!(app.exercises()[0].reps, 15);
    app.update_field(0, Field::Sets, "4");
    assert_eq!(app.exercises()[0].sets, 4);
    app.update_field(0, Field::Rest, "90");
    assert_eq!(app.exercises()[0].rest_ms, 90_000);
    app.update_field(0, Field::Rest, "7.5");
    assert_eq!(app.exercises()[0].rest_ms, 7_500);
    app.update_field(0, Field::Rest, ".25");
    assert_eq!(app.exercises()[0].rest_ms, 250);
}

#[test]
fn name_text_is_taken_verbatim() {
    let mut app = one_row();
    app.update_field(0, Field::Name, "Bulgarian Split Squat");
    assert_eq!(app.exercises()[0].name, "Bulgarian Split Squat");
}

#[test]
fn progression_needs_a_dash() {
    let mut app = one_row();
    app.update_field(0, Field::Progression, "8-15");
    assert_eq!(app.exercises()[0].progression_low, 8);
    assert_eq!(app.exercises()[0].progression_high, 15);
    // without a dash the field stays as it was
    app.update_field(0, Field::Progression, "20");
    assert_eq!(app.exercises()[0].progression_low, 8);
    assert_eq!(app.exercises()[0].progression_high, 15);
    // unparseable halves become zero
    app.update_field(0, Field::Progression, "x-y");
    assert_eq!(app.exercises()[0].progression_low, 0);
    assert_eq!(app.exercises()[0].progression_high, 0);
    // only the part up to a second dash counts for the high bound
    app.update_field(0, Field::Progression, "5-12-99");
    assert_eq!(app.exercises()[0].progression_low, 5);
    assert_eq!(app.exercises()[0].progression_high, 12);
}

#[test]
fn out_of_range_index_changes_nothing() {
    let mut app = one_row();
    app.update_field(7, Field::Reps, "9");
    assert_eq!(app.exercises()[0], Exercise::default());
}

#[test]
fn oversized_numbers_become_zero() {
    assert_eq!(parse_usize_text("99999999999999999999999999"), 0);
    assert_eq!(parse_rest_ms_text("99999999999999999999999999"), 0);
}

#[test]
fn parse_usize_text_accepts_a_leading_plus() {
    assert_eq!(parse_usize_text("+42"), 42);
    assert_eq!(parse_usize_text("+"), 0);
    assert_eq!(parse_usize_text(""), 0);
    assert_eq!(parse_usize_text("4 2"), 0);
    assert_eq!(parse_usize_text("-3"), 0);
}

#[test]
fn parse_rest_rejects_stray_text() {
    assert_eq!(parse_rest_ms_text(""), 0);
    assert_eq!(parse_rest_ms_text("."), 0);
    assert_eq!(parse_rest_ms_text("1.2.3"), 0);
    assert_eq!(parse_rest_ms_text("-1"), 0);
    assert_eq!(parse_rest_ms_text("1e3"), 0);
    assert_eq!(parse_rest_ms_text("2."), 2_000);
    assert_eq!(parse_rest_ms_text("0.1234"), 123);
}

#[test]
fn no_zero_blanks_zero() {
    assert_eq!(no_zero(0), "");
    assert_eq!(no_zero(7), "7");
    assert_eq!(no_zero(120), "120");
}

#[test]
fn progression_cell_text() {
    assert_eq!(progression_text(5, 12), "5-12");
    assert_eq!(progression_text(0, 0), "-");
    assert_eq!(progression_text(0, 9), "-9");
}
