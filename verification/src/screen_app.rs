use vstd::prelude::*;
use crate::text::{
    chars_of, decimal, lowercase, same_text, to_lowercase, trim, trimmed, u64_to_decimal,
};

verus! {

/// The folder name used for screenshots unless another one is chosen.
pub const TARGET_DIR: &'static str = "screens";

/// An answer to a `[Y] / [N] / [ESC]` menu.
#[derive(PartialEq, Eq, Structural, Clone, Copy, Debug)]
pub enum MenuChoice {
    Yes,
    No,
    Escape,
    Unknown,
}

/// The menu answer that a typed line stands for: `y`, `n` or `esc` in any
/// letter case, around white space.
pub open spec fn menu_choice_of(input: Seq<char>) -> MenuChoice {
    let t = lowercase(trimmed(input));
    if t == "y"@ {
        MenuChoice::Yes
    } else if t == "n"@ {
        MenuChoice::No
    } else if t == "esc"@ {
        MenuChoice::Escape
    } else {
        MenuChoice::Unknown
    }
}

pub fn parse_menu_choice(input: &str) -> (r: MenuChoice)
    ensures
        r == menu_choice_of(input@),
{
    let t = trim(input);
    let lower = to_lowercase(t.as_str());
    if same_text(lower.as_str(), "y") {
        MenuChoice::Yes
    } else if same_text(lower.as_str(), "n") {
        MenuChoice::No
    } else if same_text(lower.as_str(), "esc") {
        MenuChoice::Escape
    } else {
        MenuChoice::Unknown
    }
}

/// Characters that a folder name may not hold.
pub open spec fn is_forbidden_in_name(c: char) -> bool {
    c == '<' || c == '>' || c == ':' || c == '"' || c == '/' || c == '\\' || c == '|' || c
        == '?' || c == '*'
}

/// The characters that a folder name may not hold are exactly the nine of
/// `< > : " / \ | ? *`.
pub proof fn law_forbidden_characters(c: char)
    ensures
        is_forbidden_in_name(c) <==> "<>:\"/\\|?*"@.contains(c),
{
    reveal_strlit("<>:\"/\\|?*");
    let s = "<>:\"/\\|?*"@;
    assert(s.len() == 9);
    if is_forbidden_in_name(c) {
        if c == '<' {
            assert(s[0] == c);
        } else if c == '>' {
            assert(s[1] == c);
        } else if c == ':' {
            assert(s[2] == c);
        } else if c == '"' {
            assert(s[3] == c);
        } else if c == '/' {
            assert(s[4] == c);
        } else if c == '\\' {
            assert(s[5] == c);
        } else if c == '|' {
            assert(s[6] == c);
        } else if c == '?' {
            assert(s[7] == c);
        } else {
            assert(s[8] == c);
        }
    }
}

/// A typed name that, without its surrounding white space, holds one of
/// `< > : " / \ | ? *` is not empty and holds a forbidden character, so
/// `validate_dir_name` refuses it with `ForbiddenCharacter`.
pub proof fn law_name_with_forbidden_character_refused(input: Seq<char>, k: int)
    requires
        0 <= k < trimmed(input).len(),
        "<>:\"/\\|?*"@.contains(trimmed(input)[k]),
    ensures
        trimmed(input).len() > 0,
        exists|j: int|
            0 <= j < trimmed(input).len() && is_forbidden_in_name(#[trigger] trimmed(input)[j]),
{
    law_forbidden_characters(trimmed(input)[k]);
}

/// Why a typed folder name is refused.
#[derive(PartialEq, Eq, Structural, Clone, Copy, Debug)]
pub enum DirNameError {
    /// Nothing but white space was typed.
    Empty,
    /// The name holds one of `< > : " / \ | ? *`.
    ForbiddenCharacter,
}

/// Checks a typed folder name and gives it back without surrounding white
/// space.
pub fn validate_dir_name(input: &str) -> (r: Result<String, DirNameError>)
    ensures
        trimmed(input@).len() == 0 ==> r == Err::<String, DirNameError>(DirNameError::Empty),
        trimmed(input@).len() > 0 && (exists|k: int|
            0 <= k < trimmed(input@).len() && is_forbidden_in_name(#[trigger] trimmed(input@)[k]))
            ==> r == Err::<String, DirNameError>(DirNameError::ForbiddenCharacter),
        trimmed(input@).len() > 0 && (forall|k: int|
            0 <= k < trimmed(input@).len() ==> !is_forbidden_in_name(#[trigger] trimmed(input@)[k]))
            ==> (r matches Ok(name) && name@ == trimmed(input@)),
{
    let name = trim(input);
    let c = chars_of(name.as_str());
    if c.len() == 0 {
        return Err(DirNameError::Empty);
    }
    let mut i: usize = 0;
    while i < c.len()
        invariant
            c@ == name@,
            name@ == trimmed(input@),
            i <= c@.len(),
            forall|k: int| 0 <= k < i ==> !is_forbidden_in_name(#[trigger] c@[k]),
        decreases c.len() - i,
    {
        let x = c[i];
        if x == '<' || x == '>' || x == ':' || x == '"' || x == '/' || x == '\\' || x == '|' || x
            == '?' || x == '*' {
            return Err(DirNameError::ForbiddenCharacter);
        }
        i += 1;
    }
    Ok(name)
}

/// Where a folder dialog is: at its `[Y] / [N] / [ESC]` menu, or reading
/// what the user types after `N`.
#[derive(PartialEq, Eq, Structural, Clone, Copy, Debug)]
pub enum DialogStage {
    Menu,
    Typing,
}

/// What the folder-name dialog does with a line.
#[derive(Debug)]
pub enum NameStep {
    /// `Y`: keep the current name.
    UseCurrent,
    /// `N`: ask for a new name.
    AskForName,
    /// `ESC`: leave the program.
    Quit,
    /// Anything else at the menu: show the choices again.
    RepeatMenu,
    /// A valid name was typed.
    Chosen(String),
    /// The typed name was refused; ask again.
    Refused(DirNameError),
}

/// One step of the folder-name dialog: the next stage and what to do.
pub fn dir_name_dialog_step(stage: DialogStage, line: &str) -> (r: (DialogStage, NameStep))
    ensures
        stage == DialogStage::Menu ==> match menu_choice_of(line@) {
            MenuChoice::Yes => r.0 == DialogStage::Menu && r.1 is UseCurrent,
            MenuChoice::No => r.0 == DialogStage::Typing && r.1 is AskForName,
            MenuChoice::Escape => r.0 == DialogStage::Menu && r.1 is Quit,
            MenuChoice::Unknown => r.0 == DialogStage::Menu && r.1 is RepeatMenu,
        },
        stage == DialogStage::Typing ==> r.0 == DialogStage::Typing && (trimmed(line@).len() == 0
            ==> (r.1 matches NameStep::Refused(e) && e == DirNameError::Empty)) && (trimmed(
            line@,
        ).len() > 0 && (exists|k: int|
            0 <= k < trimmed(line@).len() && is_forbidden_in_name(#[trigger] trimmed(line@)[k]))
            ==> (r.1 matches NameStep::Refused(e) && e == DirNameError::ForbiddenCharacter)) && (
        trimmed(line@).len() > 0 && (forall|k: int|
            0 <= k < trimmed(line@).len() ==> !is_forbidden_in_name(#[trigger] trimmed(line@)[k]))
            ==> (r.1 matches NameStep::Chosen(name) && name@ == trimmed(line@))),
{
    match stage {
        DialogStage::Menu => match parse_menu_choice(line) {
            MenuChoice::Yes => (DialogStage::Menu, NameStep::UseCurrent),
            MenuChoice::No => (DialogStage::Typing, NameStep::AskForName),
            MenuChoice::Escape => (DialogStage::Menu, NameStep::Quit),
            MenuChoice::Unknown => (DialogStage::Menu, NameStep::RepeatMenu),
        },
        DialogStage::Typing => match validate_dir_name(line) {
            Ok(name) => (DialogStage::Typing, NameStep::Chosen(name)),
            Err(e) => (DialogStage::Typing, NameStep::Refused(e)),
        },
    }
}

/// What the save-folder dialog does with a line.
#[derive(PartialEq, Eq, Structural, Clone, Copy, Debug)]
pub enum PathStep {
    /// `Y`: use the current directory.
    UseCurrentDir,
    /// `N`: ask for a path.
    AskForPath,
    /// `ESC`: leave the program.
    Quit,
    /// Anything else at the menu: show the choices again.
    RepeatMenu,
    /// The typed path (without surrounding white space) is a directory.
    Accept,
    /// It is not; ask again.
    Refuse,
}

/// One step of the save-folder dialog. `line_is_dir` says whether the
/// line, without surrounding white space, names an existing directory.
pub fn root_path_dialog_step(stage: DialogStage, line: &str, line_is_dir: bool) -> (r: (
    DialogStage,
    PathStep,
))
    ensures
        r == (match stage {
            DialogStage::Menu => match menu_choice_of(line@) {
                MenuChoice::Yes => (DialogStage::Menu, PathStep::UseCurrentDir),
                MenuChoice::No => (DialogStage::Typing, PathStep::AskForPath),
                MenuChoice::Escape => (DialogStage::Menu, PathStep::Quit),
                MenuChoice::Unknown => (DialogStage::Menu, PathStep::RepeatMenu),
            },
            DialogStage::Typing => (
                DialogStage::Typing,
                if line_is_dir {
                    PathStep::Accept
                } else {
                    PathStep::Refuse
                },
            ),
        }),
{
    match stage {
        DialogStage::Menu => match parse_menu_choice(line) {
            MenuChoice::Yes => (DialogStage::Menu, PathStep::UseCurrentDir),
            MenuChoice::No => (DialogStage::Typing, PathStep::AskForPath),
            MenuChoice::Escape => (DialogStage::Menu, PathStep::Quit),
            MenuChoice::Unknown => (DialogStage::Menu, PathStep::RepeatMenu),
        },
        DialogStage::Typing => (
            DialogStage::Typing,
            if line_is_dir {
                PathStep::Accept
            } else {
                PathStep::Refuse
            },
        ),
    }
}

/// The file name of the screenshot of the monitor with zero-based `index`:
/// `monitor_` and the one-based number, then `.png`.
pub open spec fn monitor_file_name_spec(index: nat) -> Seq<char> {
    "monitor_"@ + decimal(index + 1) + ".png"@
}

pub fn monitor_file_name(index: usize) -> (r: String)
    requires
        index < usize::MAX,
    ensures
        r@ == monitor_file_name_spec(index as nat),
{
    let number = u64_to_decimal((index + 1) as u64);
    let mut name = String::from_str("monitor_");
    name.append(number.as_str());
    name.append(".png");
    name
}

/// A keyboard event, as the capture tool tells them apart.
#[derive(PartialEq, Eq, Structural, Clone, Copy, Debug)]
pub enum CaptureEvent {
    /// The P key went down.
    PressP,
    /// The Escape key went down.
    PressEscape,
    /// Any other event.
    Other,
}

/// What the capture tool does with an event.
#[derive(PartialEq, Eq, Structural, Clone, Copy, Debug)]
pub enum EventResponse {
    /// Take a screenshot of every monitor; the event goes no further.
    Screenshot,
    /// Stop the tool; the event goes no further.
    Stop,
    /// Let the event through to other programs.
    PassThrough,
}

impl EventResponse {
    /// Whether the event is kept from other programs.
    pub fn blocks_event(&self) -> (b: bool)
        ensures
            b == (*self != EventResponse::PassThrough),
    {
        match self {
            EventResponse::PassThrough => false,
            _ => true,
        }
    }
}

/// The capture tool's running flag and its answer to keyboard events.
pub struct CaptureControl {
    running: bool,
}

impl View for CaptureControl {
    type V = bool;

    /// Whether the tool is still running.
    closed spec fn view(&self) -> bool {
        self.running
    }
}

impl CaptureControl {
    pub fn new() -> (c: Self)
        ensures
            c@,
    {
        CaptureControl { running: true }
    }

    pub fn is_running(&self) -> (b: bool)
        ensures
            b == self@,
    {
        self.running
    }

    /// P takes a screenshot, Escape stops the tool, anything else passes.
    pub fn handle_event(&mut self, event: CaptureEvent) -> (r: EventResponse)
        ensures
            event == CaptureEvent::PressP ==> r == EventResponse::Screenshot && final(self)@
                == old(self)@,
            event == CaptureEvent::PressEscape ==> r == EventResponse::Stop && !final(self)@,
            event == CaptureEvent::Other ==> r == EventResponse::PassThrough && final(self)@
                == old(self)@,
    {
        match event {
            CaptureEvent::PressP => EventResponse::Screenshot,
            CaptureEvent::PressEscape => {
                self.running = false;
                EventResponse::Stop
            },
            CaptureEvent::Other => EventResponse::PassThrough,
        }
    }
}

} // verus!
