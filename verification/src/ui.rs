//! Fixed texts of the user interface: the path a file dialog starts with and
//! the icon of each menu button.

use vstd::prelude::*;
use crate::text::same_text;

verus! {

/// What a modal dialog was opened for.
#[derive(Clone, Copy, Debug, PartialEq, Eq, Structural)]
pub enum ModalAction {
    SaveToFile,
    LoadFromFile,
    LoadFromUrl,
    DeleteDocument,
    DeleteTab,
}

/// The text a dialog's input starts with: a local file name for saving and
/// loading, a placeholder URL for loading from the web, and nothing for a
/// deletion, which asks for no input.
pub open spec fn modal_default_spec(action: ModalAction) -> Seq<char> {
    match action {
        ModalAction::SaveToFile | ModalAction::LoadFromFile => "./velo.json"@,
        ModalAction::LoadFromUrl => "https://<path-to-velo.json>"@,
        ModalAction::DeleteDocument | ModalAction::DeleteTab => Seq::empty(),
    }
}

/// The text the input of the dialog for `action` starts with.
pub fn modal_default_text(action: ModalAction) -> (text: String)
    ensures
        text@ == modal_default_spec(action),
{
    match action {
        ModalAction::SaveToFile | ModalAction::LoadFromFile => String::from_str("./velo.json"),
        ModalAction::LoadFromUrl => String::from_str("https://<path-to-velo.json>"),
        ModalAction::DeleteDocument | ModalAction::DeleteTab => String::new(),
    }
}

/// The icon (a glyph of the icon font) of the menu button labelled `label`;
/// `None` for a label that has no button.
pub open spec fn menu_icon_spec(label: Seq<char>) -> Option<char> {
    if label == "New Tab"@ {
        Some('\u{e3ba}')
    } else if label == "New Document"@ {
        Some('\u{e89c}')
    } else if label == "Save Document"@ {
        Some('\u{e161}')
    } else if label == "Export To File"@ {
        Some('\u{e2c6}')
    } else if label == "Import From File"@ {
        Some('\u{e255}')
    } else if label == "Import From URL"@ {
        Some('\u{e902}')
    } else if label == "Save Document to window.velo object"@ {
        Some('\u{e866}')
    } else if label == "Share Document (copy URL to clipboard)"@ {
        Some('\u{e80d}')
    } else {
        None
    }
}

/// The icon of the menu button labelled `label`, or `None` for an unknown
/// label.
pub fn menu_icon(label: &str) -> (icon: Option<char>)
    ensures
        icon == menu_icon_spec(label@),
{
    if same_text(label, "New Tab") {
        Some('\u{e3ba}')
    } else if same_text(label, "New Document") {
        Some('\u{e89c}')
    } else if same_text(label, "Save Document") {
        Some('\u{e161}')
    } else if same_text(label, "Export To File") {
        Some('\u{e2c6}')
    } else if same_text(label, "Import From File") {
        Some('\u{e255}')
    } else if same_text(label, "Import From URL") {
        Some('\u{e902}')
    } else if same_text(label, "Save Document to window.velo object") {
        Some('\u{e866}')
    } else if same_text(label, "Share Document (copy URL to clipboard)") {
        Some('\u{e80d}')
    } else {
        None
    }
}

} // verus!
