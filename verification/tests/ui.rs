use velo::ui::{menu_icon, modal_default_text, ModalAction};

#[test]
fn file_dialogs_start_with_the_local_file_name() {
    assert_eq!(modal_default_text(ModalAction::SaveToFile), "./velo.json");
    assert_eq!(modal_default_text(ModalAction::LoadFromFile), "./velo.json");
}

#[test]
fn url_dialog_starts_with_a_placeholder() {
    assert_eq!(modal_default_text(ModalAction::LoadFromUrl), "https://<path-to-velo.json>");
}

#[test]
fn deletion_dialogs_start_empty() {
    assert_eq!(modal_default_text(ModalAction::DeleteDocument), "");
    assert_eq!(modal_default_text(ModalAction::DeleteTab), "");
}

#[test]
fn each_menu_label_has_its_icon() {
    assert_eq!(menu_icon("New Tab"), Some('\u{e3ba}'));
    assert_eq!(menu_icon("New Document"), Some('\u{e89c}'));
    assert_eq!(menu_icon("Save Document"), Some('\u{e161}'));
    assert_eq!(menu_icon("Export To File"), Some('\u{e2c6}'));
    assert_eq!(menu_icon("Import From File"), Some('\u{e255}'));
    assert_eq!(menu_icon("Import From URL"), Some('\u{e902}'));
    assert_eq!(menu_icon("Save Document to window.velo object"), Some('\u{e866}'));
    assert_eq!(menu_icon("Share Document (copy URL to clipboard)"), Some('\u{e80d}'));
}

#[test]
fn unknown_menu_label_has_no_icon() {
    assert_eq!(menu_icon("New"), None);
    assert_eq!(menu_icon("New Tabs"), None);
    assert_eq!(menu_icon(""), None);
}
