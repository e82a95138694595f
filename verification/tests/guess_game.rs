use rust_exercises::guess_game::{start_game, wants_another_try, Verdict};

#[test]
fn right_answer_in_any_case_wins() {
    let mut game = start_game();
    assert_eq!(game.answer("ВРЕМЯ"), Verdict::Correct);
    assert_eq!(game.wrong_answers(), 0);
    let mut game = start_game();
    assert_eq!(game.answer("время"), Verdict::Correct);
}

#[test]
fn three_wrong_answers_end_the_game() {
    let mut game = start_game();
    assert_eq!(game.answer("река"), Verdict::TryAgain { remaining: 2 });
    assert_eq!(game.answer("ветер"), Verdict::TryAgain { remaining: 1 });
    assert_eq!(game.answer("жизнь"), Verdict::OutOfAttempts { attempts: 3 });
    assert_eq!(game.wrong_answers(), 3);
}

#[test]
fn wrong_then_right() {
    let mut game = start_game();
    assert_eq!(game.answer("дождь"), Verdict::TryAgain { remaining: 2 });
    assert_eq!(game.answer("Время"), Verdict::Correct);
    assert_eq!(game.wrong_answers(), 1);
}

#[test]
fn retry_reply() {
    assert!(wants_another_try("да"));
    assert!(wants_another_try("ДА"));
    assert!(!wants_another_try("нет"));
    assert!(!wants_another_try("д"));
}
