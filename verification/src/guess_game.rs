use vstd::prelude::*;
use crate::text::{lowercase, same_text, to_lowercase};

verus! {

/// How many wrong answers end the game.
pub const MAX_ATTEMPTS: u8 = 3;

/// The outcome of one answer to the riddle.
#[derive(PartialEq, Eq, Structural, Clone, Copy, Debug)]
pub enum Verdict {
    /// The answer is right; the game is won.
    Correct,
    /// The answer is wrong and `remaining` more answers may be given.
    TryAgain { remaining: u8 },
    /// The answer is wrong and it was the last allowed; `attempts` wrong
    /// answers were given.
    OutOfAttempts { attempts: u8 },
}

/// The riddle's answer: "время" (time), in any letter case.
pub open spec fn is_right_answer(reply: Seq<char>) -> bool {
    lowercase(reply) == "время"@
}

/// The count of wrong answers and the verdict after one more answer,
/// right or not, with `wrong` wrong answers so far.
pub open spec fn riddle_step(wrong: nat, right: bool) -> (nat, Verdict) {
    if right {
        (wrong, Verdict::Correct)
    } else if wrong + 1 >= MAX_ATTEMPTS {
        ((wrong + 1) as nat, Verdict::OutOfAttempts { attempts: (wrong + 1) as u8 })
    } else {
        ((wrong + 1) as nat, Verdict::TryAgain { remaining: (MAX_ATTEMPTS - (wrong + 1)) as u8 })
    }
}

/// A game of the riddle "what always goes but never arrives?".
pub struct RiddleGame {
    wrong_answers: u8,
}

impl View for RiddleGame {
    type V = nat;

    /// The count of wrong answers so far.
    closed spec fn view(&self) -> nat {
        self.wrong_answers as nat
    }
}

/// Starts a game with no answer given yet.
pub fn start_game() -> (g: RiddleGame)
    ensures
        g@ == 0,
{
    RiddleGame { wrong_answers: 0 }
}

impl RiddleGame {
    pub fn wrong_answers(&self) -> (n: u8)
        ensures
            n == self@,
    {
        self.wrong_answers
    }

    /// Takes an answer (already trimmed) while the game is on.
    pub fn answer(&mut self, reply: &str) -> (v: Verdict)
        requires
            old(self)@ < MAX_ATTEMPTS,
        ensures
            (final(self)@, v) == riddle_step(old(self)@, is_right_answer(reply@)),
    {
        let lower = to_lowercase(reply);
        if same_text(lower.as_str(), "время") {
            Verdict::Correct
        } else {
            self.wrong_answers = self.wrong_answers + 1;
            if self.wrong_answers >= MAX_ATTEMPTS {
                Verdict::OutOfAttempts { attempts: self.wrong_answers }
            } else {
                Verdict::TryAgain { remaining: MAX_ATTEMPTS - self.wrong_answers }
            }
        }
    }
}

/// Whether a reply to "try again? (да/нет)" asks for another try: "да"
/// in any letter case.
pub fn wants_another_try(reply: &str) -> (b: bool)
    ensures
        b == (lowercase(reply@) == "да"@),
{
    let lower = to_lowercase(reply);
    same_text(lower.as_str(), "да")
}

/// The game never takes more than three wrong answers: from the start,
/// wrong answers leave two, then one more try, and the third ends it.
pub proof fn law_three_wrong_answers_end_the_game()
    ensures
        riddle_step(0, false) == (1nat, Verdict::TryAgain { remaining: 2 }),
        riddle_step(1, false) == (2nat, Verdict::TryAgain { remaining: 1 }),
        riddle_step(2, false) == (3nat, Verdict::OutOfAttempts { attempts: 3 }),
{
}

/// A right answer wins at once and costs no attempt.
pub proof fn law_right_answer_wins(wrong: nat)
    ensures
        riddle_step(wrong, true) == (wrong, Verdict::Correct),
{
}

} // verus!
