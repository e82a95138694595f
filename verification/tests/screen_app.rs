use rust_exercises::screen_app::{
    dir_name_dialog_step, monitor_file_name, parse_menu_choice, root_path_dialog_step,
    validate_dir_name, CaptureControl, CaptureEvent, DialogStage, DirNameError, EventResponse,
    MenuChoice, NameStep, PathStep, TARGET_DIR,
};

#[test]
fn callback_escape_sets_running_false() {
    let mut control = CaptureControl::new();
    assert!(control.is_running());

    let result = control.handle_event(CaptureEvent::PressEscape);

    assert!(result.blocks_event());
    assert!(!control.is_running());
}

#[test]
fn callback_other_key_is_not_blocked() {
    let mut control = CaptureControl::new();

    let result = control.handle_event(CaptureEvent::Other);

    assert!(!result.blocks_event());
    assert!(control.is_running());
}

#[test]
fn default_directory_name() {
    assert_eq!(TARGET_DIR, "screens");
}

#[test]
fn p_key_asks_for_a_screenshot_and_keeps_running() {
    let mut control = CaptureControl::new();
    assert_eq!(control.handle_event(CaptureEvent::PressP), EventResponse::Screenshot);
    assert!(control.is_running());
}

#[test]
fn menu_choices_ignore_case_and_white_space() {
    assert_eq!(parse_menu_choice(" Y\n"), MenuChoice::Yes);
    assert_eq!(parse_menu_choice("n"), MenuChoice::No);
    assert_eq!(parse_menu_choice("ESC"), MenuChoice::Escape);
    assert_eq!(parse_menu_choice("yes"), MenuChoice::Unknown);
    assert_eq!(parse_menu_choice(""), MenuChoice::Unknown);
}

#[test]
fn dir_names_are_checked() {
    assert_eq!(validate_dir_name("  shots  "), Ok("shots".to_string()));
    assert_eq!(validate_dir_name("   "), Err(DirNameError::Empty));
    assert_eq!(validate_dir_name("a/b"), Err(DirNameError::ForbiddenCharacter));
    assert_eq!(validate_dir_name("what?"), Err(DirNameError::ForbiddenCharacter));
    assert_eq!(validate_dir_name("снимки 2024"), Ok("снимки 2024".to_string()));
}

#[test]
fn monitor_files_are_numbered_from_one() {
    assert_eq!(monitor_file_name(0), "monitor_1.png");
    assert_eq!(monitor_file_name(9), "monitor_10.png");
}

#[test]
fn folder_name_dialog_steps() {
    let (stage, step) = dir_name_dialog_step(DialogStage::Menu, " y ");
    assert_eq!(stage, DialogStage::Menu);
    assert!(matches!(step, NameStep::UseCurrent));

    let (stage, step) = dir_name_dialog_step(DialogStage::Menu, "what");
    assert_eq!(stage, DialogStage::Menu);
    assert!(matches!(step, NameStep::RepeatMenu));

    let (stage, step) = dir_name_dialog_step(DialogStage::Menu, "esc");
    assert_eq!(stage, DialogStage::Menu);
    assert!(matches!(step, NameStep::Quit));

    let (stage, step) = dir_name_dialog_step(DialogStage::Menu, "N");
    assert_eq!(stage, DialogStage::Typing);
    assert!(matches!(step, NameStep::AskForName));

    let (stage, step) = dir_name_dialog_step(stage, "   ");
    assert_eq!(stage, DialogStage::Typing);
    assert!(matches!(step, NameStep::Refused(DirNameError::Empty)));

    let (stage, step) = dir_name_dialog_step(stage, "a/b");
    assert_eq!(stage, DialogStage::Typing);
    assert!(matches!(step, NameStep::Refused(DirNameError::ForbiddenCharacter)));

    let (_, step) = dir_name_dialog_step(stage, "  shots  ");
    match step {
        NameStep::Chosen(name) => assert_eq!(name, "shots"),
        other => panic!("unexpected {:?}", other),
    }
}

#[test]
fn save_folder_dialog_steps() {
    assert_eq!(
        root_path_dialog_step(DialogStage::Menu, "Y", false),
        (DialogStage::Menu, PathStep::UseCurrentDir)
    );
    assert_eq!(
        root_path_dialog_step(DialogStage::Menu, "n", false),
        (DialogStage::Typing, PathStep::AskForPath)
    );
    assert_eq!(
        root_path_dialog_step(DialogStage::Menu, "ESC", false),
        (DialogStage::Menu, PathStep::Quit)
    );
    assert_eq!(
        root_path_dialog_step(DialogStage::Menu, "maybe", false),
        (DialogStage::Menu, PathStep::RepeatMenu)
    );
    assert_eq!(
        root_path_dialog_step(DialogStage::Typing, "/nowhere", false),
        (DialogStage::Typing, PathStep::Refuse)
    );
    assert_eq!(
        root_path_dialog_step(DialogStage::Typing, "/tmp", true),
        (DialogStage::Typing, PathStep::Accept)
    );
}
