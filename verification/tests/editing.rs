use velo::editing::{
    edit_text, cosmic_edit_bevy_events, keyboard_input_system, doc_keyboard_input_system, EditorAction, EditorInput, KeyFrame,
    KeyboardCommand,
};

fn frame(back_pressed: bool, back_released: bool, return_pressed: bool, chars: &str) -> KeyFrame {
    KeyFrame { back_pressed, back_released, return_pressed, chars: chars.chars().collect() }
}

fn quiet() -> EditorInput {
    EditorInput {
        command: false,
        option: false,
        left_pressed: false,
        right_pressed: false,
        up_pressed: false,
        down_pressed: false,
        back_pressed: false,
        back_released: false,
        delete_pressed: false,
        return_pressed: false,
        escape_pressed: false,
        a_pressed: false,
        c_pressed: false,
        x_pressed: false,
        v_pressed: false,
        clipboard: true,
        web: false,
        mouse_pressed: false,
        mouse_held: false,
        cursor: None,
        scroll_lines: vec![],
        chars: vec![],
    }
}

#[test]
fn command_keys_pick_the_command() {
    assert_eq!(keyboard_input_system(true, false, true, false, false), KeyboardCommand::PasteClipboard);
    assert_eq!(keyboard_input_system(true, true, false, true, false), KeyboardCommand::SaveDocument);
    assert_eq!(keyboard_input_system(true, false, false, true, false), KeyboardCommand::SaveTab);
    assert_eq!(keyboard_input_system(true, false, false, false, true), KeyboardCommand::Undo);
    assert_eq!(keyboard_input_system(false, false, true, true, true), KeyboardCommand::EditText);
}

#[test]
fn typing_appends_and_backspace_deletes() {
    assert_eq!(edit_text("ab", false, &frame(false, false, false, "cd")), ("abcd".to_string(), false));
    assert_eq!(edit_text("abc", false, &frame(true, false, false, "")), ("ab".to_string(), true));
    assert_eq!(edit_text("abc", true, &frame(false, false, false, "xy")), ("a".to_string(), true));
    assert_eq!(edit_text("abc", true, &frame(false, true, false, "xy")), ("abc".to_string(), false));
    assert_eq!(edit_text("", false, &frame(true, false, false, "")), ("".to_string(), true));
}

#[test]
fn renaming_clears_the_placeholder() {
    let step = doc_keyboard_input_system("Untitled", false, &frame(false, false, false, "P"));
    assert_eq!(step.shown, "P");
    assert_eq!(step.new_name.as_deref(), Some("P"));
    assert!(!step.done);
}

#[test]
fn renaming_keeps_only_the_last_typed_character() {
    let step = doc_keyboard_input_system("Plan", false, &frame(false, false, false, "xyz"));
    assert_eq!(step.shown, "Planz");
}

#[test]
fn return_ends_renaming_without_renaming() {
    let step = doc_keyboard_input_system("Plan", false, &frame(false, false, true, "x"));
    assert!(step.done);
    assert_eq!(step.new_name, None);
    assert_eq!(step.shown, "Plan");
}

#[test]
fn renaming_with_backspace_held_deletes() {
    let step = doc_keyboard_input_system("Plan", true, &frame(false, false, false, "xy"));
    assert_eq!(step.shown, "Pl");
    assert!(step.deleting);
}

#[test]
fn editor_moves_and_types() {
    let mut input = quiet();
    input.left_pressed = true;
    input.down_pressed = true;
    input.chars = vec!['h', 'i'];
    let (actions, deleting) = cosmic_edit_bevy_events(&input, false, false);
    assert_eq!(
        actions,
        vec![EditorAction::Left, EditorAction::Down, EditorAction::Insert('h'), EditorAction::Insert('i')]
    );
    assert!(!deleting);
}

#[test]
fn readonly_editor_ignores_typing() {
    let mut input = quiet();
    input.chars = vec!['h'];
    input.return_pressed = true;
    input.scroll_lines = vec![2];
    let (actions, _) = cosmic_edit_bevy_events(&input, true, false);
    assert_eq!(actions, vec![EditorAction::Scroll(2)]);
}

#[test]
fn return_inserts_a_line_break_and_ends_the_frame() {
    let mut input = quiet();
    input.return_pressed = true;
    input.chars = vec!['x'];
    let (actions, _) = cosmic_edit_bevy_events(&input, false, false);
    assert_eq!(actions, vec![EditorAction::Insert('\n')]);
}

#[test]
fn held_backspace_turns_typing_into_deletion() {
    let mut input = quiet();
    input.back_pressed = true;
    input.chars = vec!['a', 'b'];
    let (actions, deleting) = cosmic_edit_bevy_events(&input, false, false);
    assert_eq!(actions, vec![EditorAction::Backspace, EditorAction::Backspace]);
    assert!(deleting);
    let mut release = quiet();
    release.back_released = true;
    let (_, deleting) = cosmic_edit_bevy_events(&release, false, true);
    assert!(!deleting);
}

#[test]
fn clipboard_and_selection_commands() {
    let mut input = quiet();
    input.command = true;
    input.a_pressed = true;
    assert_eq!(cosmic_edit_bevy_events(&input, false, false).0, vec![EditorAction::SelectAll]);
    let mut copy = quiet();
    copy.command = true;
    copy.c_pressed = true;
    assert_eq!(cosmic_edit_bevy_events(&copy, true, false).0, vec![EditorAction::Copy]);
    let mut cut = quiet();
    cut.command = true;
    cut.x_pressed = true;
    assert_eq!(cosmic_edit_bevy_events(&cut, true, false).0, Vec::<EditorAction>::new());
    assert_eq!(cosmic_edit_bevy_events(&cut, false, false).0, vec![EditorAction::Cut]);
    cut.clipboard = false;
    assert_eq!(cosmic_edit_bevy_events(&cut, false, false).0, Vec::<EditorAction>::new());
}

#[test]
fn words_move_with_command_option_arrows() {
    let mut input = quiet();
    input.command = true;
    input.option = true;
    input.right_pressed = true;
    assert_eq!(cosmic_edit_bevy_events(&input, false, false).0, vec![EditorAction::Right, EditorAction::NextWord]);
}

#[test]
fn clicks_and_drags_use_the_pointer() {
    let mut input = quiet();
    input.mouse_pressed = true;
    input.cursor = Some((3, 4));
    input.chars = vec!['z'];
    assert_eq!(cosmic_edit_bevy_events(&input, false, false).0, vec![EditorAction::Click(3, 4)]);
    let mut drag = quiet();
    drag.mouse_held = true;
    drag.cursor = Some((5, 6));
    assert_eq!(cosmic_edit_bevy_events(&drag, false, false).0, vec![EditorAction::Drag(5, 6)]);
    drag.cursor = None;
    assert_eq!(cosmic_edit_bevy_events(&drag, false, false).0, Vec::<EditorAction>::new());
}

#[test]
fn browser_backspace_deletes_at_once() {
    let mut input = quiet();
    input.web = true;
    input.clipboard = false;
    input.back_pressed = true;
    let (actions, deleting) = cosmic_edit_bevy_events(&input, false, false);
    assert_eq!(actions, vec![EditorAction::Backspace]);
    assert!(deleting);
}
