use rust_exercises::calculator::{
    resolve_operation, split_expression, CalcError, CalculatorSession, Operator, SessionAction,
    Stage,
};

/// Evaluates "number operator number" the way the calculator program does:
/// the library splits the expression and decides, the numbers are read and
/// combined here as `f64`.
fn calculate(expression: &str) -> Result<f64, String> {
    let (a, op, b) = split_expression(expression).map_err(|e| e.message())?;
    let x = a.parse::<f64>();
    let y = b.parse::<f64>();
    let second_is_zero = matches!(y, Ok(v) if v == 0.0);
    let operator = resolve_operation(&a, x.is_ok(), &op, &b, y.is_ok(), second_is_zero)
        .map_err(|e| e.message())?;
    let (x, y) = (x.unwrap(), y.unwrap());
    Ok(match operator {
        Operator::Add => x + y,
        Operator::Subtract => x - y,
        Operator::Multiply => x * y,
        Operator::Divide => x / y,
        Operator::Power => x.powf(y),
    })
}

#[test]
fn test_add() {
    assert_eq!(calculate("2 + 3").unwrap(), 5.0);
}

#[test]
fn test_subtract() {
    assert_eq!(calculate("10 - 4").unwrap(), 6.0);
}

#[test]
fn test_multiply() {
    assert_eq!(calculate("3 * 4").unwrap(), 12.0);
}

#[test]
fn test_divide() {
    assert_eq!(calculate("10 / 2").unwrap(), 5.0);
}

#[test]
fn test_power() {
    assert_eq!(calculate("2 ^ 3").unwrap(), 8.0);
}

#[test]
fn test_float_addition() {
    assert_eq!(calculate("2.5 + 3.7").unwrap(), 6.2);
}

#[test]
fn test_float_multiplication() {
    assert_eq!(calculate("2.5 * 4.0").unwrap(), 10.0);
}

#[test]
fn test_negative_numbers() {
    assert_eq!(calculate("-5 + 3").unwrap(), -2.0);
}

#[test]
fn test_division_by_zero() {
    let result = calculate("10 / 0");
    assert!(result.is_err());
    assert_eq!(result.unwrap_err(), "Деление на ноль");
}

#[test]
fn test_zero_division() {
    let result = calculate("0 / 5");
    assert_eq!(result.unwrap(), 0.0);
}

#[test]
fn test_large_numbers() {
    let result = calculate("1000000 * 1000000");
    assert_eq!(result.unwrap(), 1_000_000_000_000.0);
}

#[test]
fn test_small_numbers() {
    let result = calculate("0.0001 * 0.0002");
    assert_eq!(result.unwrap(), 0.00000002);
}

#[test]
fn test_invalid_format_missing_operator() {
    let result = calculate("5 3");
    assert!(result.is_err());
}

#[test]
fn test_invalid_format_too_many_parts() {
    let result = calculate("2 + 3 + 4");
    assert!(result.is_err());
}

#[test]
fn test_invalid_first_number() {
    let result = calculate("abc + 3");
    assert!(result.is_err());
    assert!(result.unwrap_err().contains("abc"));
}

#[test]
fn test_invalid_second_number() {
    let result = calculate("5 + abc");
    assert!(result.is_err());
    assert!(result.unwrap_err().contains("abc"));
}

#[test]
fn test_invalid_operator() {
    let result = calculate("5 % 3");
    assert!(result.is_err());
    assert!(result.unwrap_err().contains("%"));
}

#[test]
fn test_empty_expression() {
    let result = calculate("");
    assert!(result.is_err());
}

#[test]
fn test_only_spaces() {
    let result = calculate("   ");
    assert!(result.is_err());
}

#[test]
fn test_multiple_spaces() {
    assert_eq!(calculate("2   +   3").unwrap(), 5.0);
    assert_eq!(calculate("  10  /  2  ").unwrap(), 5.0);
}

#[test]
fn test_power_zero() {
    assert_eq!(calculate("5 ^ 0").unwrap(), 1.0);
}

#[test]
fn test_power_one() {
    assert_eq!(calculate("5 ^ 1").unwrap(), 5.0);
}

#[test]
fn test_zero_power() {
    assert_eq!(calculate("0 ^ 5").unwrap(), 0.0);
}

#[test]
fn test_division_result_float() {
    let result = calculate("7 / 2").unwrap();
    assert_eq!(result, 3.5);
}

#[test]
fn test_history_creation() {
    let mut history: Vec<String> = Vec::new();
    assert!(history.is_empty());

    history.push("2 + 3 = 5".to_string());
    assert_eq!(history.len(), 1);
    assert_eq!(history[0], "2 + 3 = 5");
}

#[test]
fn test_history_clear() {
    let mut history: Vec<String> = Vec::new();
    history.push("test".to_string());
    history.clear();
    assert!(history.is_empty());
}

#[test]
fn test_history_multiple_entries() {
    let mut history: Vec<String> = Vec::new();
    history.push("1 + 1 = 2".to_string());
    history.push("2 + 2 = 4".to_string());
    history.push("3 + 3 = 6".to_string());

    assert_eq!(history.len(), 3);
    assert_eq!(history[0], "1 + 1 = 2");
    assert_eq!(history[1], "2 + 2 = 4");
    assert_eq!(history[2], "3 + 3 = 6");
}

#[test]
fn test_all_operators() {
    let results = [
        calculate("2 + 3").unwrap(),
        calculate("5 - 3").unwrap(),
        calculate("2 * 3").unwrap(),
        calculate("6 / 3").unwrap(),
        calculate("2 ^ 3").unwrap(),
    ];

    assert_eq!(results, [5.0, 2.0, 6.0, 2.0, 8.0]);
}

#[test]
fn test_operator_precedence() {
    let result = calculate("2 + 3 * 4");
    assert!(result.is_err());
}

#[test]
fn test_parse_positive_integer() {
    let result = calculate("42 + 1");
    assert_eq!(result.unwrap(), 43.0);
}

#[test]
fn test_parse_negative_integer() {
    let result = calculate("-10 + 5");
    assert_eq!(result.unwrap(), -5.0);
}

#[test]
fn test_parse_float_with_dot() {
    let result = calculate("3.14 * 2");
    assert_eq!(result.unwrap(), 6.28);
}

#[test]
fn test_parse_float_without_leading_zero() {
    let result = calculate(".5 + .5");
    assert_eq!(result.unwrap(), 1.0);
}

#[test]
fn test_parse_trailing_dot() {
    let result = calculate("5. + 2");
    assert_eq!(result.unwrap(), 7.0);
}

#[test]
fn test_error_messages_contain_operator() {
    let result = calculate("5 % 3");
    let err = result.unwrap_err();
    assert!(err.contains("%"));
    assert!(err.contains("+"));
    assert!(err.contains("-"));
    assert!(err.contains("*"));
    assert!(err.contains("/"));
    assert!(err.contains("^"));
}

#[test]
fn test_error_messages_contain_invalid_number() {
    let result = calculate("abc + 3");
    let err = result.unwrap_err();
    assert!(err.contains("abc"));
}

#[test]
fn test_division_by_zero_message() {
    let result = calculate("10 / 0");
    let err = result.unwrap_err();
    assert_eq!(err, "Деление на ноль");
}

#[test]
fn test_invalid_format_message() {
    let result = calculate("2 + 3 + 4");
    let err = result.unwrap_err();
    assert!(err.contains("формат"));
}

#[test]
fn test_precision_addition() {
    let result = calculate("0.1 + 0.2").unwrap();
    assert!((result - 0.3).abs() < 0.0001);
}

#[test]
fn test_precision_multiplication() {
    let result = calculate("0.1 * 0.1").unwrap();
    assert!((result - 0.01).abs() < 0.0001);
}

#[test]
fn test_precision_division() {
    let result = calculate("1 / 3").unwrap();
    assert!((result - 0.3333333333).abs() < 0.0000000001);
}

#[test]
fn test_very_large_number() {
    let result = calculate("1e20 + 1e20");
    assert!(result.is_ok());
}

#[test]
fn test_very_small_number() {
    let result = calculate("1e-20 + 1e-20");
    assert!(result.is_ok());
}

#[test]
fn test_infinity() {
    let result = calculate("1e308 * 1e308");
    assert!(result.is_ok());
}

#[test]
fn test_division_by_zero_returns_error() {
    let result = calculate("0.0 / 0.0");
    assert!(result.is_err());
    assert_eq!(result.unwrap_err(), "Деление на ноль");
}

#[test]
fn split_expression_gives_the_three_words() {
    let (a, o, b) = split_expression("\t12  *\n 7 ").ok().unwrap();
    assert_eq!(a, "12");
    assert_eq!(o, "*");
    assert_eq!(b, "7");
    assert!(matches!(split_expression("1 +"), Err(CalcError::InvalidFormat)));
}

#[test]
fn error_messages_are_exact() {
    assert_eq!(
        CalcError::InvalidFormat.message(),
        "Неверный формат. Используйте: число-оператор-число"
    );
    assert_eq!(CalcError::NotANumber("x1".to_string()).message(), "'x1' не является числом");
    assert_eq!(CalcError::DivisionByZero.message(), "Деление на ноль");
    assert_eq!(
        CalcError::UnknownOperator("%".to_string()).message(),
        "Неизвестный оператор '%'. Используйте: +, -, *, /, ^"
    );
}

#[test]
fn resolve_reports_faults_in_order() {
    assert!(matches!(resolve_operation("a", false, "%", "b", false, false),
        Err(CalcError::NotANumber(ref t)) if t == "a"));
    assert!(matches!(resolve_operation("1", true, "%", "b", false, false),
        Err(CalcError::NotANumber(ref t)) if t == "b"));
    assert!(matches!(resolve_operation("1", true, "%", "0", true, true),
        Err(CalcError::UnknownOperator(ref t)) if t == "%"));
    assert!(matches!(resolve_operation("1", true, "/", "0", true, true),
        Err(CalcError::DivisionByZero)));
    assert!(matches!(resolve_operation("1", true, "*", "0", true, true), Ok(Operator::Multiply)));
    assert!(matches!(resolve_operation("1", true, "//", "2", true, false),
        Err(CalcError::UnknownOperator(_))));
}

#[test]
fn operator_symbols() {
    assert_eq!(Operator::from_symbol("+"), Some(Operator::Add));
    assert_eq!(Operator::from_symbol("-"), Some(Operator::Subtract));
    assert_eq!(Operator::from_symbol("*"), Some(Operator::Multiply));
    assert_eq!(Operator::from_symbol("/"), Some(Operator::Divide));
    assert_eq!(Operator::from_symbol("^"), Some(Operator::Power));
    assert_eq!(Operator::from_symbol("%"), None);
    assert_eq!(Operator::from_symbol("++"), None);
    assert_eq!(Operator::from_symbol(""), None);
}

#[test]
fn session_round_and_commands() {
    let mut s = CalculatorSession::new();
    assert_eq!(s.stage(), Stage::FirstNumber);
    assert_eq!(s.handle_line("history", false), SessionAction::HistoryEmpty);
    assert_eq!(s.handle_line("abc", false), SessionAction::NotANumber);
    assert_eq!(s.handle_line("2", true), SessionAction::FirstNumberAccepted);
    assert_eq!(s.stage(), Stage::Operator);
    assert_eq!(s.handle_line("%", false), SessionAction::UnknownOperator);
    assert_eq!(s.handle_line("+", false), SessionAction::OperatorAccepted);
    assert_eq!(s.operator(), "+");
    assert_eq!(s.stage(), Stage::SecondNumber);
    assert_eq!(s.handle_line("x", false), SessionAction::NotANumber);
    assert_eq!(s.handle_line("3", true), SessionAction::Evaluate);
    assert_eq!(s.stage(), Stage::FirstNumber);
    s.record("2 + 3 = 5".to_string());
    assert_eq!(s.history(), &vec!["2 + 3 = 5".to_string()]);
    assert_eq!(s.handle_line("history", false), SessionAction::ShowHistory);
    assert_eq!(s.handle_line("1", true), SessionAction::FirstNumberAccepted);
    assert_eq!(s.handle_line("return", false), SessionAction::Restarted);
    assert_eq!(s.stage(), Stage::FirstNumber);
    assert_eq!(s.handle_line("clear", false), SessionAction::HistoryCleared);
    assert!(s.history().is_empty());
    assert_eq!(s.handle_line("exit", false), SessionAction::Exit);
}

#[test]
fn only_successful_outcomes_enter_the_history() {
    let mut session = CalculatorSession::new();
    session.record_outcome(Ok("2 + 3 = 5".to_string()));
    session.record_outcome(Err("Ошибка: деление на ноль".to_string()));
    session.record_outcome(Ok("4 * 2 = 8".to_string()));
    assert_eq!(session.history(), &vec!["2 + 3 = 5".to_string(), "4 * 2 = 8".to_string()]);
}
