use vstd::prelude::*;
use crate::text::{same_text, split_words, words};

verus! {

/// The five operations of the calculator.
#[derive(PartialEq, Eq, Structural, Clone, Copy, Debug)]
pub enum Operator {
    Add,
    Subtract,
    Multiply,
    Divide,
    Power,
}

/// The operator that the text `s` names, if any: `+`, `-`, `*`, `/` or `^`.
pub open spec fn operator_of(s: Seq<char>) -> Option<Operator> {
    if s == seq!['+'] {
        Some(Operator::Add)
    } else if s == seq!['-'] {
        Some(Operator::Subtract)
    } else if s == seq!['*'] {
        Some(Operator::Multiply)
    } else if s == seq!['/'] {
        Some(Operator::Divide)
    } else if s == seq!['^'] {
        Some(Operator::Power)
    } else {
        None
    }
}

impl Operator {
    pub fn from_symbol(s: &str) -> (r: Option<Operator>)
        ensures
            r == operator_of(s@),
    {
        let c = crate::text::chars_of(s);
        if c.len() != 1 {
            return None;
        }
        proof {
            assert(c@ =~= seq![c@[0]]);
        }
        let x = c[0];
        if x == '+' {
            Some(Operator::Add)
        } else if x == '-' {
            Some(Operator::Subtract)
        } else if x == '*' {
            Some(Operator::Multiply)
        } else if x == '/' {
            Some(Operator::Divide)
        } else if x == '^' {
            Some(Operator::Power)
        } else {
            None
        }
    }
}

/// Why an expression cannot be computed.
#[derive(Debug)]
pub enum CalcError {
    /// The expression is not three words: number, operator, number.
    InvalidFormat,
    /// The word is not a number.
    NotANumber(String),
    /// Division by zero.
    DivisionByZero,
    /// The word is not one of the five operators.
    UnknownOperator(String),
}

/// The message shown for an error.
pub open spec fn error_message(e: CalcError) -> Seq<char> {
    match e {
        CalcError::InvalidFormat => "Неверный формат. Используйте: число-оператор-число"@,
        CalcError::NotANumber(t) => "'"@ + t@ + "' не является числом"@,
        CalcError::DivisionByZero => "Деление на ноль"@,
        CalcError::UnknownOperator(t) => "Неизвестный оператор '"@ + t@
            + "'. Используйте: +, -, *, /, ^"@,
    }
}

impl CalcError {
    pub fn message(&self) -> (r: String)
        ensures
            r@ == error_message(*self),
    {
        match self {
            CalcError::InvalidFormat => String::from_str(
                "Неверный формат. Используйте: число-оператор-число",
            ),
            CalcError::NotANumber(t) => {
                let mut m = String::from_str("'");
                m.append(t.as_str());
                m.append("' не является числом");
                m
            },
            CalcError::DivisionByZero => String::from_str("Деление на ноль"),
            CalcError::UnknownOperator(t) => {
                let mut m = String::from_str("Неизвестный оператор '");
                m.append(t.as_str());
                m.append("'. Используйте: +, -, *, /, ^");
                m
            },
        }
    }
}

/// Splits an expression into its three words: number, operator, number.
/// Any other count of words is `InvalidFormat`.
pub fn split_expression(expression: &str) -> (r: Result<(String, String, String), CalcError>)
    ensures
        (r is Ok) <==> words(expression@).len() == 3,
        r matches Err(e) ==> e is InvalidFormat,
        r matches Ok((a, o, b)) ==> a@ == words(expression@)[0] && o@ == words(expression@)[1]
            && b@ == words(expression@)[2],
{
    let mut parts = split_words(expression);
    if parts.len() != 3 {
        return Err(CalcError::InvalidFormat);
    }
    let ghost p = parts@;
    let c = parts.pop().unwrap();
    let b = parts.pop().unwrap();
    let a = parts.pop().unwrap();
    assert(p[0] == a && p[1] == b && p[2] == c);
    Ok((a, b, c))
}

/// Decides what an expression of three words comes to, once its two
/// number words have been read: the first fault in the order number,
/// number, operator, division by zero; otherwise the operator to apply.
///
/// `first_is_number` and `second_is_number` say whether the words read as
/// numbers; `second_is_zero` whether the second one is zero.
pub fn resolve_operation(
    first: &str,
    first_is_number: bool,
    op: &str,
    second: &str,
    second_is_number: bool,
    second_is_zero: bool,
) -> (r: Result<Operator, CalcError>)
    ensures
        !first_is_number ==> (r matches Err(CalcError::NotANumber(t)) && t@ == first@),
        first_is_number && !second_is_number ==> (r matches Err(CalcError::NotANumber(t)) && t@
            == second@),
        first_is_number && second_is_number ==> match operator_of(op@) {
            None => r matches Err(CalcError::UnknownOperator(t)) && t@ == op@,
            Some(o) => if o == Operator::Divide && second_is_zero {
                r matches Err(CalcError::DivisionByZero)
            } else {
                r matches Ok(p) && p == o
            },
        },
{
    if !first_is_number {
        return Err(CalcError::NotANumber(String::from_str(first)));
    }
    if !second_is_number {
        return Err(CalcError::NotANumber(String::from_str(second)));
    }
    match Operator::from_symbol(op) {
        Some(o) => {
            if o == Operator::Divide && second_is_zero {
                Err(CalcError::DivisionByZero)
            } else {
                Ok(o)
            }
        },
        None => Err(CalcError::UnknownOperator(String::from_str(op))),
    }
}

} // verus!

verus! {

/// What the interactive calculator expects next.
#[derive(PartialEq, Eq, Structural, Clone, Copy, Debug)]
pub enum Stage {
    FirstNumber,
    Operator,
    SecondNumber,
}

/// What the interactive calculator does with one line of input.
#[derive(PartialEq, Eq, Structural, Clone, Copy, Debug)]
pub enum SessionAction {
    /// `exit`: leave the calculator.
    Exit,
    /// `history` with entries: list them.
    ShowHistory,
    /// `history` with none.
    HistoryEmpty,
    /// `clear`: the history was emptied.
    HistoryCleared,
    /// `return`: back to the first number.
    Restarted,
    /// A first number was read; an operator comes next.
    FirstNumberAccepted,
    /// An operator was read; the second number comes next.
    OperatorAccepted,
    /// The second number was read: compute the expression.
    Evaluate,
    /// A number was expected and the line is not one.
    NotANumber,
    /// An operator was expected and the line is not one.
    UnknownOperator,
}

/// The next stage and the action for the (trimmed) line `input`, given
/// whether it reads as a number and whether the history is empty.
pub open spec fn session_step(stage: Stage, history_empty: bool, input: Seq<char>, is_number: bool) -> (
    Stage,
    SessionAction,
) {
    if input == "exit"@ {
        (stage, SessionAction::Exit)
    } else if input == "history"@ {
        (
            stage,
            if history_empty {
                SessionAction::HistoryEmpty
            } else {
                SessionAction::ShowHistory
            },
        )
    } else if input == "clear"@ {
        (stage, SessionAction::HistoryCleared)
    } else if input == "return"@ {
        (Stage::FirstNumber, SessionAction::Restarted)
    } else {
        match stage {
            Stage::FirstNumber => if is_number {
                (Stage::Operator, SessionAction::FirstNumberAccepted)
            } else {
                (Stage::FirstNumber, SessionAction::NotANumber)
            },
            Stage::Operator => if operator_of(input) is Some {
                (Stage::SecondNumber, SessionAction::OperatorAccepted)
            } else {
                (Stage::Operator, SessionAction::UnknownOperator)
            },
            Stage::SecondNumber => if is_number {
                (Stage::FirstNumber, SessionAction::Evaluate)
            } else {
                (Stage::SecondNumber, SessionAction::NotANumber)
            },
        }
    }
}

/// The interactive calculator's state: the stage, the last operator typed
/// and the history of results.
pub struct CalculatorSession {
    stage: Stage,
    operator: String,
    history: Vec<String>,
}

/// The texts of a list of strings.
pub open spec fn texts(v: Seq<String>) -> Seq<Seq<char>> {
    v.map_values(|s: String| s@)
}

impl CalculatorSession {
    pub closed spec fn stage_spec(&self) -> Stage {
        self.stage
    }

    pub closed spec fn operator_spec(&self) -> Seq<char> {
        self.operator@
    }

    pub closed spec fn history_spec(&self) -> Seq<Seq<char>> {
        texts(self.history@)
    }

    /// A session that waits for a first number, with no history.
    pub fn new() -> (s: Self)
        ensures
            s.stage_spec() == Stage::FirstNumber,
            s.operator_spec() == Seq::<char>::empty(),
            s.history_spec() == Seq::<Seq<char>>::empty(),
    {
        let s = CalculatorSession {
            stage: Stage::FirstNumber,
            operator: String::new(),
            history: Vec::new(),
        };
        assert(texts(s.history@) =~= Seq::<Seq<char>>::empty());
        s
    }

    pub fn stage(&self) -> (r: Stage)
        ensures
            r == self.stage_spec(),
    {
        self.stage
    }

    /// The operator last accepted.
    pub fn operator(&self) -> (r: &str)
        ensures
            r@ == self.operator_spec(),
    {
        self.operator.as_str()
    }

    /// The results so far, oldest first.
    pub fn history(&self) -> (r: &Vec<String>)
        ensures
            texts(r@) == self.history_spec(),
    {
        &self.history
    }

    /// Takes one trimmed line of input. `is_number` says whether it reads
    /// as a number.
    pub fn handle_line(&mut self, input: &str, is_number: bool) -> (r: SessionAction)
        ensures
            (final(self).stage_spec(), r) == session_step(
                old(self).stage_spec(),
                old(self).history_spec().len() == 0,
                input@,
                is_number,
            ),
            final(self).history_spec() == (if r == SessionAction::HistoryCleared {
                Seq::<Seq<char>>::empty()
            } else {
                old(self).history_spec()
            }),
            final(self).operator_spec() == (if r == SessionAction::OperatorAccepted {
                input@
            } else {
                old(self).operator_spec()
            }),
            (final(self).stage_spec(), final(self).history_spec()) == after_line(
                old(self).stage_spec(),
                old(self).history_spec(),
                (input@, is_number, None),
            ),
    {
        if same_text(input, "exit") {
            SessionAction::Exit
        } else if same_text(input, "history") {
            if self.history.len() == 0 {
                SessionAction::HistoryEmpty
            } else {
                SessionAction::ShowHistory
            }
        } else if same_text(input, "clear") {
            self.history.clear();
            assert(texts(self.history@) =~= Seq::<Seq<char>>::empty());
            SessionAction::HistoryCleared
        } else if same_text(input, "return") {
            self.stage = Stage::FirstNumber;
            SessionAction::Restarted
        } else {
            match self.stage {
                Stage::FirstNumber => {
                    if is_number {
                        self.stage = Stage::Operator;
                        SessionAction::FirstNumberAccepted
                    } else {
                        SessionAction::NotANumber
                    }
                },
                Stage::Operator => {
                    if Operator::from_symbol(input).is_some() {
                        self.operator = String::from_str(input);
                        self.stage = Stage::SecondNumber;
                        SessionAction::OperatorAccepted
                    } else {
                        SessionAction::UnknownOperator
                    }
                },
                Stage::SecondNumber => {
                    if is_number {
                        self.stage = Stage::FirstNumber;
                        SessionAction::Evaluate
                    } else {
                        SessionAction::NotANumber
                    }
                },
            }
        }
    }

    /// Adds a result line to the history.
    pub fn record(&mut self, entry: String)
        ensures
            final(self).history_spec() == old(self).history_spec().push(entry@),
            final(self).stage_spec() == old(self).stage_spec(),
            final(self).operator_spec() == old(self).operator_spec(),
    {
        let ghost e = entry@;
        self.history.push(entry);
        assert(texts(self.history@) =~= texts(old(self).history@).push(e));
    }
}

impl CalculatorSession {
    /// Takes the outcome of an evaluation: a successful one adds its history
    /// line, a failed one leaves the history as it is.
    pub fn record_outcome(&mut self, outcome: Result<String, String>)
        ensures
            outcome matches Ok(entry) ==> final(self).history_spec() == old(self).history_spec().push(
                entry@,
            ),
            outcome is Err ==> final(self).history_spec() == old(self).history_spec(),
            final(self).stage_spec() == old(self).stage_spec(),
            final(self).operator_spec() == old(self).operator_spec(),
    {
        match outcome {
            Ok(entry) => self.record(entry),
            Err(_) => {},
        }
    }
}

/// One line given to the calculator: its trimmed text, whether it reads
/// as a number, and, where it completes an expression, the history line
/// of the result (`None` where the computation fails).
pub type SessionLine = (Seq<char>, bool, Option<Seq<char>>);

/// The stage and history after one line and, where it completes an
/// expression, the recording of its outcome.
pub open spec fn after_line(stage: Stage, history: Seq<Seq<char>>, line: SessionLine) -> (
    Stage,
    Seq<Seq<char>>,
) {
    let (next, action) = session_step(stage, history.len() == 0, line.0, line.1);
    let h = if action == SessionAction::HistoryCleared {
        Seq::empty()
    } else if action == SessionAction::Evaluate && line.2 is Some {
        history.push(line.2->0)
    } else {
        history
    };
    (next, h)
}

/// The stage and history after a run of lines.
pub open spec fn run_session(stage: Stage, history: Seq<Seq<char>>, lines: Seq<SessionLine>) -> (
    Stage,
    Seq<Seq<char>>,
)
    decreases lines.len(),
{
    if lines.len() == 0 {
        (stage, history)
    } else {
        let (s2, h2) = after_line(stage, history, lines[0]);
        run_session(s2, h2, lines.drop_first())
    }
}

/// The history lines of the successful computations of a run, in order,
/// whatever `clear` does.
pub open spec fn successes(stage: Stage, lines: Seq<SessionLine>) -> Seq<Seq<char>>
    decreases lines.len(),
{
    if lines.len() == 0 {
        Seq::empty()
    } else {
        let (next, action) = session_step(stage, true, lines[0].0, lines[0].1);
        let here = if action == SessionAction::Evaluate && lines[0].2 is Some {
            seq![lines[0].2->0]
        } else {
            Seq::empty()
        };
        here + successes(next, lines.drop_first())
    }
}

proof fn lemma_clear_line(stage: Stage, history_empty: bool, is_number: bool)
    ensures
        session_step(stage, history_empty, "clear"@, is_number) == (
            stage,
            SessionAction::HistoryCleared,
        ),
{
    reveal_strlit("exit");
    reveal_strlit("history");
    reveal_strlit("clear");
    assert("exit"@.len() == 4);
    assert("history"@.len() == 7);
    assert("clear"@.len() == 5);
}

proof fn lemma_run_split(stage: Stage, history: Seq<Seq<char>>, a: Seq<SessionLine>, b: Seq<
    SessionLine,
>)
    ensures
        run_session(stage, history, a + b) == run_session(
            run_session(stage, history, a).0,
            run_session(stage, history, a).1,
            b,
        ),
    decreases a.len(),
{
    if a.len() == 0 {
        assert(a + b =~= b);
    } else {
        assert((a + b)[0] == a[0]);
        assert((a + b).drop_first() =~= a.drop_first() + b);
        let (s2, h2) = after_line(stage, history, a[0]);
        lemma_run_split(s2, h2, a.drop_first(), b);
    }
}

/// Over a run of lines none of which is `clear`, the history grows by the
/// lines of the successful computations, in order, and nothing else.
pub proof fn law_history_without_clear(stage: Stage, history: Seq<Seq<char>>, lines: Seq<SessionLine>)
    requires
        forall|i: int| 0 <= i < lines.len() ==> (#[trigger] lines[i]).0 != "clear"@,
    ensures
        run_session(stage, history, lines).1 == history + successes(stage, lines),
    decreases lines.len(),
{
    if lines.len() == 0 {
        assert(history + Seq::<Seq<char>>::empty() =~= history);
    } else {
        let line = lines[0];
        let (s2, h2) = after_line(stage, history, line);
        let rest = lines.drop_first();
        assert forall|i: int| 0 <= i < rest.len() implies (#[trigger] rest[i]).0 != "clear"@ by {
            assert(rest[i] == lines[i + 1]);
        }
        law_history_without_clear(s2, h2, rest);
        let (n1, a1) = session_step(stage, history.len() == 0, line.0, line.1);
        let (n2, a2) = session_step(stage, true, line.0, line.1);
        assert(n1 == n2);
        assert((a1 == SessionAction::Evaluate) == (a2 == SessionAction::Evaluate));
        assert(a1 != SessionAction::HistoryCleared);
        let here = if a2 == SessionAction::Evaluate && line.2 is Some {
            seq![line.2->0]
        } else {
            Seq::empty()
        };
        assert(h2 =~= history + here);
        assert(history + here + successes(s2, rest) =~= history + (here + successes(s2, rest)));
    }
}

/// After a `clear`, the history holds exactly the lines of the successful
/// computations since the last `clear`, in order: this is what `history`
/// lists, numbered from one.
pub proof fn law_history_since_last_clear(
    stage: Stage,
    history: Seq<Seq<char>>,
    lines: Seq<SessionLine>,
    k: int,
)
    requires
        0 <= k < lines.len(),
        lines[k].0 == "clear"@,
        forall|i: int| k < i < lines.len() ==> (#[trigger] lines[i]).0 != "clear"@,
    ensures
        run_session(stage, history, lines).1 == successes(
            run_session(stage, history, lines.take(k + 1)).0,
            lines.skip(k + 1),
        ),
{
    let a = lines.take(k + 1);
    let b = lines.skip(k + 1);
    assert(lines =~= a + b);
    lemma_run_split(stage, history, a, b);
    let front = lines.take(k);
    assert(a =~= front + seq![lines[k]]);
    lemma_run_split(stage, history, front, seq![lines[k]]);
    let (s1, h1) = run_session(stage, history, front);
    lemma_clear_line(s1, h1.len() == 0, lines[k].1);
    let single = seq![lines[k]];
    assert(single[0] == lines[k]);
    assert(single.drop_first() =~= Seq::<SessionLine>::empty());
    let (s4, h4) = after_line(s1, h1, lines[k]);
    assert(h4 =~= Seq::<Seq<char>>::empty());
    assert(run_session(s1, h1, single) == run_session(s4, h4, single.drop_first()));
    assert(run_session(s4, h4, Seq::<SessionLine>::empty()) == (s4, h4));
    assert(run_session(stage, history, a).1 =~= Seq::<Seq<char>>::empty());
    assert forall|i: int| 0 <= i < b.len() implies (#[trigger] b[i]).0 != "clear"@ by {
        assert(b[i] == lines[k + 1 + i]);
    }
    let (s3, h3) = run_session(stage, history, a);
    law_history_without_clear(s3, h3, b);
    assert(h3 + successes(s3, b) =~= successes(s3, b));
}

/// The calculator stops on `exit` and on nothing else, and a line that is
/// no command and not what the stage expects leaves the stage as it was.
pub proof fn law_exit_and_bad_input(stage: Stage, history_empty: bool, input: Seq<char>, is_number: bool)
    ensures
        (session_step(stage, history_empty, input, is_number).1 == SessionAction::Exit) <==> input
            == "exit"@,
        input != "exit"@ && input != "history"@ && input != "clear"@ && input != "return"@ && (
        match stage {
            Stage::Operator => operator_of(input) is None,
            _ => !is_number,
        }) ==> session_step(stage, history_empty, input, is_number).0 == stage,
{
}

/// `return` always brings the calculator back to its first number, and
/// `exit`, `history` and `clear` never move it.
pub proof fn law_commands_and_stage(stage: Stage, history_empty: bool, is_number: bool)
    ensures
        session_step(stage, history_empty, "return"@, is_number).0 == Stage::FirstNumber,
        session_step(stage, history_empty, "exit"@, is_number).0 == stage,
        session_step(stage, history_empty, "history"@, is_number).0 == stage,
        session_step(stage, history_empty, "clear"@, is_number).0 == stage,
{
    reveal_strlit("return");
    reveal_strlit("exit");
    reveal_strlit("history");
    reveal_strlit("clear");
    assert("return"@.len() == 6);
    assert("exit"@.len() == 4);
    assert("history"@.len() == 7);
    assert("clear"@.len() == 5);
}

/// The calculator asks for a first number, an operator and a second
/// number in turn: a full round of accepted input ends in an evaluation
/// and brings it back to the first number.
pub proof fn law_round_trip(history_empty: bool, first: Seq<char>, op: Seq<char>, second: Seq<char>)
    requires
        first != "exit"@ && first != "history"@ && first != "clear"@ && first != "return"@,
        op != "exit"@ && op != "history"@ && op != "clear"@ && op != "return"@,
        second != "exit"@ && second != "history"@ && second != "clear"@ && second != "return"@,
        operator_of(op) is Some,
    ensures
        session_step(Stage::FirstNumber, history_empty, first, true) == (
            Stage::Operator,
            SessionAction::FirstNumberAccepted,
        ),
        session_step(Stage::Operator, history_empty, op, false) == (
            Stage::SecondNumber,
            SessionAction::OperatorAccepted,
        ),
        session_step(Stage::SecondNumber, history_empty, second, true) == (
            Stage::FirstNumber,
            SessionAction::Evaluate,
        ),
{
}

} // verus!
