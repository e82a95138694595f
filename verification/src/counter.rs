use vstd::prelude::*;
use crate::text::{i32_to_decimal, signed_decimal};

verus! {

/// The counter's buttons.
#[derive(PartialEq, Eq, Structural, Clone, Copy, Debug)]
pub enum CounterButton {
    Increase,
    Decrease,
    Reset,
}

/// How the counter's value is shown.
#[derive(PartialEq, Eq, Structural, Clone, Copy, Debug)]
pub enum Mood {
    /// Above 5.
    Hot,
    /// Below -5.
    Cold,
    /// From -5 to 5.
    Normal,
}

pub open spec fn mood_of(v: int) -> Mood {
    if v > 5 {
        Mood::Hot
    } else if v < -5 {
        Mood::Cold
    } else {
        Mood::Normal
    }
}

pub open spec fn mood_label(m: Mood) -> Seq<char> {
    match m {
        Mood::Hot => "🔥 Огонь!"@,
        Mood::Cold => "❄️ Холодно!"@,
        Mood::Normal => "✅ Нормально"@,
    }
}

impl Mood {
    pub fn label(&self) -> (s: &'static str)
        ensures
            s@ == mood_label(*self),
    {
        match self {
            Mood::Hot => "🔥 Огонь!",
            Mood::Cold => "❄️ Холодно!",
            Mood::Normal => "✅ Нормально",
        }
    }
}

/// The value after pressing `b` on a counter showing `v`.
pub open spec fn after_press(v: int, b: CounterButton) -> int {
    match b {
        CounterButton::Increase => v + 1,
        CounterButton::Decrease => v - 1,
        CounterButton::Reset => 0,
    }
}

/// The counter window's state: the value and the text typed in its field.
pub struct CounterState {
    counter: i32,
    text_input: String,
}

impl CounterState {
    pub closed spec fn value_spec(&self) -> int {
        self.counter as int
    }

    pub closed spec fn text_spec(&self) -> Seq<char> {
        self.text_input@
    }

    /// A counter at 0 with an empty text field.
    pub fn new() -> (s: Self)
        ensures
            s.value_spec() == 0,
            s.text_spec() == Seq::<char>::empty(),
    {
        CounterState { counter: 0, text_input: String::new() }
    }

    pub fn value(&self) -> (v: i32)
        ensures
            v == self.value_spec(),
    {
        self.counter
    }

    pub fn text_input(&self) -> (t: &str)
        ensures
            t@ == self.text_spec(),
    {
        self.text_input.as_str()
    }

    pub fn set_text_input(&mut self, text: String)
        ensures
            final(self).text_spec() == text@,
            final(self).value_spec() == old(self).value_spec(),
    {
        self.text_input = text;
    }

    /// Presses a button; the value must stay within `i32`.
    pub fn press(&mut self, button: CounterButton)
        requires
            i32::MIN <= after_press(old(self).value_spec(), button) <= i32::MAX,
        ensures
            final(self).value_spec() == after_press(old(self).value_spec(), button),
            final(self).text_spec() == old(self).text_spec(),
    {
        match button {
            CounterButton::Increase => {
                self.counter = self.counter + 1;
            },
            CounterButton::Decrease => {
                self.counter = self.counter - 1;
            },
            CounterButton::Reset => {
                self.counter = 0;
            },
        }
    }

    pub fn mood(&self) -> (m: Mood)
        ensures
            m == mood_of(self.value_spec()),
    {
        if self.counter > 5 {
            Mood::Hot
        } else if self.counter < -5 {
            Mood::Cold
        } else {
            Mood::Normal
        }
    }

    /// The value as shown.
    pub fn value_label(&self) -> (s: String)
        ensures
            s@ == signed_decimal(self.value_spec()),
    {
        i32_to_decimal(self.counter)
    }

    /// The status line: "Состояние: " and the mood's label.
    pub fn status_line(&self) -> (s: String)
        ensures
            s@ == "Состояние: "@ + mood_label(mood_of(self.value_spec())),
    {
        let m = self.mood();
        let mut s = String::from_str("Состояние: ");
        s.append(m.label());
        s
    }

    /// The echo of the typed text, when there is any: "Вы ввели: " and the
    /// text.
    pub fn echo_line(&self) -> (s: Option<String>)
        ensures
            self.text_spec().len() == 0 ==> s is None,
            self.text_spec().len() > 0 ==> (s matches Some(t) && t@ == "Вы ввели: "@
                + self.text_spec()),
    {
        if self.text_input.as_str().is_empty() {
            None
        } else {
            let mut s = String::from_str("Вы ввели: ");
            s.append(self.text_input.as_str());
            Some(s)
        }
    }
}

/// Increase then Decrease, or Decrease then Increase, give the value back;
/// Reset always gives 0.
pub proof fn law_counter_buttons(v: int)
    ensures
        after_press(after_press(v, CounterButton::Increase), CounterButton::Decrease) == v,
        after_press(after_press(v, CounterButton::Decrease), CounterButton::Increase) == v,
        after_press(v, CounterButton::Reset) == 0,
{
}

/// The mood only gets warmer as the value grows (cold, then normal, then
/// hot), is the same on both sides of zero (a value is cold exactly when
/// its negation is hot), and changes at 5: everything from -5 to 5 is
/// normal, 6 is already hot.
pub proof fn law_mood_scale(v: int, w: int)
    ensures
        v <= w ==> (mood_of(v) == Mood::Hot ==> mood_of(w) == Mood::Hot),
        v <= w ==> (mood_of(w) == Mood::Cold ==> mood_of(v) == Mood::Cold),
        mood_of(v) == Mood::Cold <==> mood_of(-v) == Mood::Hot,
        -5 <= v <= 5 ==> mood_of(v) == Mood::Normal,
        mood_of(6) == Mood::Hot,
{
}

} // verus!
