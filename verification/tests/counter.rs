use rust_exercises::counter::{CounterButton, CounterState, Mood};

#[test]
fn counter_buttons_and_mood() {
    let mut c = CounterState::new();
    assert_eq!(c.value(), 0);
    assert_eq!(c.mood(), Mood::Normal);
    for _ in 0..6 {
        c.press(CounterButton::Increase);
    }
    assert_eq!(c.value(), 6);
    assert_eq!(c.mood(), Mood::Hot);
    assert_eq!(c.status_line(), "Состояние: 🔥 Огонь!");
    c.press(CounterButton::Reset);
    assert_eq!(c.value(), 0);
    for _ in 0..6 {
        c.press(CounterButton::Decrease);
    }
    assert_eq!(c.mood(), Mood::Cold);
    assert_eq!(c.value_label(), "-6");
    assert_eq!(c.status_line(), "Состояние: ❄️ Холодно!");
    c.press(CounterButton::Increase);
    assert_eq!(c.mood(), Mood::Normal);
    assert_eq!(c.status_line(), "Состояние: ✅ Нормально");
}

#[test]
fn counter_echo() {
    let mut c = CounterState::new();
    assert_eq!(c.echo_line(), None);
    c.set_text_input("привет".to_string());
    assert_eq!(c.text_input(), "привет");
    assert_eq!(c.echo_line(), Some("Вы ввели: привет".to_string()));
}
