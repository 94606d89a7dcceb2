//! Keyboard decisions: what a key press does to the diagram, to a node's
//! text, to a document name being edited, and to a text editor widget.

use vstd::prelude::*;
use crate::text::chars_of;
use crate::text::push_char;

verus! {

/// What the keyboard asks of the diagram in one frame.
#[derive(Clone, Copy, Debug, PartialEq, Eq, Structural)]
pub enum KeyboardCommand {
    /// Insert the clipboard's image or text.
    PasteClipboard,
    /// Save the open document to the store.
    SaveDocument,
    /// Save the open tab's state as a checkpoint.
    SaveTab,
    /// Reload the open tab, dropping its newest checkpoint.
    Undo,
    /// Edit the text of the node being edited.
    EditText,
}

/// The command for one frame: with the command key held, `V` pastes,
/// `Shift+S` saves the document, `S` saves the tab and `L` undoes; anything
/// else edits text.
pub open spec fn spec_keyboard_command(
    command: bool,
    shift: bool,
    v_pressed: bool,
    s_pressed: bool,
    l_pressed: bool,
) -> KeyboardCommand {
    if command && v_pressed {
        KeyboardCommand::PasteClipboard
    } else if command && shift && s_pressed {
        KeyboardCommand::SaveDocument
    } else if command && s_pressed {
        KeyboardCommand::SaveTab
    } else if command && l_pressed {
        KeyboardCommand::Undo
    } else {
        KeyboardCommand::EditText
    }
}

/// Decides what the keyboard asks of the diagram in one frame (see
/// `spec_keyboard_command`).
pub fn keyboard_input_system(
    command: bool,
    shift: bool,
    v_pressed: bool,
    s_pressed: bool,
    l_pressed: bool,
) -> (c: KeyboardCommand)
    ensures
        c == spec_keyboard_command(command, shift, v_pressed, s_pressed, l_pressed),
{
    if command && v_pressed {
        KeyboardCommand::PasteClipboard
    } else if command && shift && s_pressed {
        KeyboardCommand::SaveDocument
    } else if command && s_pressed {
        KeyboardCommand::SaveTab
    } else if command && l_pressed {
        KeyboardCommand::Undo
    } else {
        KeyboardCommand::EditText
    }
}

/// The keys of one frame that text editing reads.
pub struct KeyFrame {
    /// Backspace went down this frame.
    pub back_pressed: bool,
    /// Backspace came up this frame.
    pub back_released: bool,
    /// Return went down this frame.
    pub return_pressed: bool,
    /// The characters typed this frame, in order.
    pub chars: Vec<char>,
}

/// A text without its last character; an empty text stays empty.
pub open spec fn pop_char(text: Seq<char>) -> Seq<char> {
    if text.len() > 0 {
        text.drop_last()
    } else {
        text
    }
}

/// The text after the typed characters: each one removes the last
/// character while backspace is held, else it is appended.
pub open spec fn typed(text: Seq<char>, deleting: bool, chars: Seq<char>) -> Seq<char>
    decreases chars.len(),
{
    if chars.len() == 0 {
        text
    } else {
        let before = typed(text, deleting, chars.drop_last());
        if deleting {
            pop_char(before)
        } else {
            before.push(chars.last())
        }
    }
}

/// A node's text and the held-backspace flag after one frame: backspace
/// going down removes one character and starts deleting, coming up stops
/// deleting; otherwise the typed characters apply.
pub open spec fn edited(
    text: Seq<char>,
    deleting: bool,
    back_pressed: bool,
    back_released: bool,
    chars: Seq<char>,
) -> (Seq<char>, bool) {
    if back_pressed {
        (pop_char(text), true)
    } else if back_released {
        (text, false)
    } else {
        (typed(text, deleting, chars), deleting)
    }
}

fn string_of(chars: &Vec<char>) -> (s: String)
    ensures
        s@ == chars@,
{
    let mut s = String::new();
    let mut i: usize = 0;
    while i < chars.len()
        invariant
            i <= chars.len(),
            s@ == chars@.take(i as int),
        decreases chars.len() - i,
    {
        push_char(&mut s, chars[i]);
        proof {
            assert(s@ =~= chars@.take(i + 1));
        }
        i = i + 1;
    }
    proof {
        assert(chars@.take(chars.len() as int) =~= chars@);
    }
    s
}

fn typed_into(buf: &mut Vec<char>, deleting: bool, chars: &Vec<char>)
    ensures
        final(buf)@ == typed(old(buf)@, deleting, chars@),
{
    let mut i: usize = 0;
    while i < chars.len()
        invariant
            i <= chars.len(),
            buf@ == typed(old(buf)@, deleting, chars@.take(i as int)),
        decreases chars.len() - i,
    {
        proof {
            assert(chars@.take(i + 1).drop_last() =~= chars@.take(i as int));
        }
        if deleting {
            buf.pop();
        } else {
            buf.push(chars[i]);
        }
        i = i + 1;
    }
    proof {
        assert(chars@.take(chars.len() as int) =~= chars@);
    }
}

/// Applies one frame of typing to a node's text (see `edited`); returns
/// the new text and whether backspace is now held.
pub fn edit_text(text: &str, deleting: bool, frame: &KeyFrame) -> (result: (String, bool))
    ensures
        (result.0@, result.1) == edited(
            text@,
            deleting,
            frame.back_pressed,
            frame.back_released,
            frame.chars@,
        ),
{
    let mut buf = chars_of(text);
    if frame.back_pressed {
        buf.pop();
        (string_of(&buf), true)
    } else if frame.back_released {
        (string_of(&buf), false)
    } else {
        typed_into(&mut buf, deleting, &frame.chars);
        (string_of(&buf), deleting)
    }
}

/// The outcome of one frame of editing a document's name.
pub struct RenameStep {
    /// The text shown in the document list.
    pub shown: String,
    /// The document's new name, unless the name is not to be updated.
    pub new_name: Option<String>,
    /// Whether backspace is now held.
    pub deleting: bool,
    /// Whether editing ends.
    pub done: bool,
}

/// The shown text, new name, held-backspace flag and end of editing after
/// one frame of editing a document's name. The placeholder `Untitled` is
/// cleared first; Return ends editing and leaves the name as it was; while
/// backspace is held typed characters remove characters, otherwise the
/// name becomes the (cleared) name followed by the last typed character.
pub open spec fn renamed(
    name: Seq<char>,
    deleting: bool,
    back_pressed: bool,
    back_released: bool,
    return_pressed: bool,
    chars: Seq<char>,
) -> (Seq<char>, Option<Seq<char>>, bool, bool) {
    let base = if name == crate::workspace::UNTITLED@ {
        Seq::empty()
    } else {
        name
    };
    if return_pressed {
        (base, None, deleting, true)
    } else {
        let (text, now_deleting) = if back_pressed {
            (pop_char(base), true)
        } else if back_released {
            (base, false)
        } else if deleting {
            (typed(base, true, chars), true)
        } else if chars.len() > 0 {
            (base.push(chars.last()), false)
        } else {
            (base, false)
        };
        (text, Some(text), now_deleting, false)
    }
}

/// Applies one frame of keys to a document name being edited (see
/// `renamed`).
pub fn doc_keyboard_input_system(name: &str, deleting: bool, frame: &KeyFrame) -> (step: RenameStep)
    ensures
        (step.shown@, (match step.new_name {
            Some(n) => Some(n@),
            None => None,
        }), step.deleting, step.done) == renamed(
            name@,
            deleting,
            frame.back_pressed,
            frame.back_released,
            frame.return_pressed,
            frame.chars@,
        ),
{
    let mut base = chars_of(name);
    let placeholder = chars_of(crate::workspace::UNTITLED);
    if vec_eq(&base, &placeholder) {
        base = Vec::new();
    }
    proof {
        assert(base@ == (if name@ == crate::workspace::UNTITLED@ {
            Seq::empty()
        } else {
            name@
        }));
    }
    if frame.return_pressed {
        return RenameStep { shown: string_of(&base), new_name: None, deleting, done: true };
    }
    let now_deleting;
    if frame.back_pressed {
        base.pop();
        now_deleting = true;
    } else if frame.back_released {
        now_deleting = false;
    } else if deleting {
        typed_into(&mut base, true, &frame.chars);
        now_deleting = true;
    } else {
        let n = frame.chars.len();
        if n > 0 {
            base.push(frame.chars[n - 1]);
        }
        now_deleting = false;
    }
    let shown = string_of(&base);
    let new_name = string_of(&base);
    RenameStep { shown, new_name: Some(new_name), deleting: now_deleting, done: false }
}

fn vec_eq(a: &Vec<char>, b: &Vec<char>) -> (same: bool)
    ensures
        same == (a@ == b@),
{
    if a.len() != b.len() {
        return false;
    }
    let mut i: usize = 0;
    while i < a.len()
        invariant
            a.len() == b.len(),
            i <= a.len(),
            forall|k: int| 0 <= k < i ==> a@[k] == b@[k],
        decreases a.len() - i,
    {
        if a[i] != b[i] {
            return false;
        }
        i = i + 1;
    }
    proof {
        assert(a@ =~= b@);
    }
    true
}


/// One action on a text editor widget.
#[derive(Clone, Copy, Debug, PartialEq, Eq, Structural)]
pub enum EditorAction {
    Left,
    Right,
    Up,
    Down,
    Delete,
    Backspace,
    Escape,
    Insert(char),
    /// Select the whole text.
    SelectAll,
    PreviousWord,
    NextWord,
    /// Put the selection on the clipboard.
    Copy,
    /// Put the selection on the clipboard and delete it.
    Cut,
    /// Insert the clipboard's text.
    Paste,
    /// A click at a point of the text area.
    Click(i32, i32),
    /// A drag to a point of the text area.
    Drag(i32, i32),
    /// Scrolling by a number of lines.
    Scroll(i32),
}

/// The input of one frame for the active text editor.
pub struct EditorInput {
    /// The command key is held.
    pub command: bool,
    /// The option (alt) key is held.
    pub option: bool,
    pub left_pressed: bool,
    pub right_pressed: bool,
    pub up_pressed: bool,
    pub down_pressed: bool,
    pub back_pressed: bool,
    pub back_released: bool,
    pub delete_pressed: bool,
    pub return_pressed: bool,
    pub escape_pressed: bool,
    pub a_pressed: bool,
    pub c_pressed: bool,
    pub x_pressed: bool,
    pub v_pressed: bool,
    /// A clipboard could be opened this frame.
    pub clipboard: bool,
    /// The editor runs in a browser, where backspace sends no character
    /// and so deletes as soon as it goes down.
    pub web: bool,
    /// The left mouse button went down this frame.
    pub mouse_pressed: bool,
    /// The left mouse button is down.
    pub mouse_held: bool,
    /// Where the pointer is in the text area, when it is inside it.
    pub cursor: Option<(i32, i32)>,
    /// The scroll events of this frame, each as a number of lines.
    pub scroll_lines: Vec<i32>,
    /// The characters typed this frame, in order.
    pub chars: Vec<char>,
}

/// The arrow-key moves of a frame, in the order left, right, up, down.
pub open spec fn arrow_moves(input: EditorInput) -> Seq<EditorAction> {
    let l = if input.left_pressed { seq![EditorAction::Left] } else { Seq::empty() };
    let r = if input.right_pressed { seq![EditorAction::Right] } else { Seq::empty() };
    let u = if input.up_pressed { seq![EditorAction::Up] } else { Seq::empty() };
    let d = if input.down_pressed { seq![EditorAction::Down] } else { Seq::empty() };
    l + r + u + d
}

/// One scroll action per scroll event.
pub open spec fn scroll_actions(lines: Seq<i32>) -> Seq<EditorAction> {
    lines.map_values(|n: i32| EditorAction::Scroll(n))
}

/// The action for one typed character: a backspace while backspace is
/// held, else the character's insertion.
pub open spec fn typing_action(c: char, deleting: bool) -> EditorAction {
    if deleting {
        EditorAction::Backspace
    } else {
        EditorAction::Insert(c)
    }
}

/// One action per typed character, in order (see `typing_action`).
pub open spec fn typing_actions(chars: Seq<char>, deleting: bool) -> Seq<EditorAction>
    decreases chars.len(),
{
    if chars.len() == 0 {
        Seq::empty()
    } else {
        typing_actions(chars.drop_last(), deleting).push(typing_action(chars.last(), deleting))
    }
}

/// What the active editor does in one frame, and whether backspace is held
/// afterwards. Arrow keys move the cursor; in a browser backspace deletes
/// as it goes down; a read-only editor ignores every
/// key that changes the text. Return inserts a line break, command-A
/// selects all, command-option-arrows move by words, command-C, -X and -V
/// use the clipboard; each of these ends the frame, as does a click or a
/// drag inside the text area. Otherwise scroll events scroll and typed
/// characters are inserted (or delete, while backspace is held).
pub open spec fn editor_step(input: EditorInput, readonly: bool, deleting: bool) -> (
    Seq<EditorAction>,
    bool,
) {
    let moves = arrow_moves(input);
    let now_deleting = if !readonly && input.back_released {
        false
    } else if !readonly && input.back_pressed {
        true
    } else {
        deleting
    };
    let m = if !readonly && input.back_pressed && input.web {
        moves.push(EditorAction::Backspace)
    } else {
        moves
    };
    let a = if !readonly && input.delete_pressed {
        m.push(EditorAction::Delete)
    } else {
        m
    };
    if !readonly && input.return_pressed {
        (a.push(EditorAction::Insert('\n')), now_deleting)
    } else {
        let b = if input.escape_pressed {
            a.push(EditorAction::Escape)
        } else {
            a
        };
        if input.command && input.a_pressed {
            (b.push(EditorAction::SelectAll), now_deleting)
        } else if input.command && input.option && input.left_pressed {
            (b.push(EditorAction::PreviousWord), now_deleting)
        } else if input.command && input.option && input.right_pressed {
            (b.push(EditorAction::NextWord), now_deleting)
        } else if input.clipboard && input.command && input.c_pressed {
            (b.push(EditorAction::Copy), now_deleting)
        } else if input.clipboard && !readonly && input.command && input.x_pressed {
            (b.push(EditorAction::Cut), now_deleting)
        } else if input.clipboard && !readonly && input.command && input.v_pressed {
            (b.push(EditorAction::Paste), now_deleting)
        } else if input.mouse_pressed {
            match input.cursor {
                Some((x, y)) => (b.push(EditorAction::Click(x, y)), now_deleting),
                None => (b, now_deleting),
            }
        } else if input.mouse_held {
            match input.cursor {
                Some((x, y)) => (b.push(EditorAction::Drag(x, y)), now_deleting),
                None => (b, now_deleting),
            }
        } else {
            let c = b + scroll_actions(input.scroll_lines@);
            if readonly {
                (c, now_deleting)
            } else {
                (c + typing_actions(input.chars@, now_deleting), now_deleting)
            }
        }
    }
}

proof fn lemma_typing_actions_at(chars: Seq<char>, deleting: bool)
    ensures
        typing_actions(chars, deleting).len() == chars.len(),
        forall|i: int|
            0 <= i < chars.len() ==> #[trigger] typing_actions(chars, deleting)[i] == typing_action(
                chars[i],
                deleting,
            ),
    decreases chars.len(),
{
    if chars.len() > 0 {
        lemma_typing_actions_at(chars.drop_last(), deleting);
    }
}

proof fn lemma_contains_push(s: Seq<EditorAction>, y: EditorAction, x: EditorAction)
    ensures
        s.push(y).contains(x) <==> (s.contains(x) || x == y),
{
    if s.push(y).contains(x) {
        let k = choose|k: int| 0 <= k < s.push(y).len() && s.push(y)[k] == x;
        if k < s.len() {
            assert(s[k] == x);
        }
    }
    if s.contains(x) {
        let k = choose|k: int| 0 <= k < s.len() && s[k] == x;
        assert(s.push(y)[k] == x);
    }
    if x == y {
        assert(s.push(y)[s.len() as int] == x);
    }
}

proof fn lemma_contains_add(s: Seq<EditorAction>, t: Seq<EditorAction>, x: EditorAction)
    ensures
        (s + t).contains(x) <==> (s.contains(x) || t.contains(x)),
{
    if (s + t).contains(x) {
        let k = choose|k: int| 0 <= k < (s + t).len() && (s + t)[k] == x;
        if k < s.len() {
            assert(s[k] == x);
        } else {
            assert(t[k - s.len()] == x);
        }
    }
    if s.contains(x) {
        let k = choose|k: int| 0 <= k < s.len() && s[k] == x;
        assert((s + t)[k] == x);
    }
    if t.contains(x) {
        let k = choose|k: int| 0 <= k < t.len() && t[k] == x;
        assert((s + t)[k + s.len()] == x);
    }
}

/// A frame's actions hold a deletion `x` exactly when its own key went down
/// (Delete, or backspace in a browser) or, unless a key, a click or a drag
/// ended the frame first, when typing produced it.
#[verifier::spinoff_prover]
#[verifier::rlimit(50)]
proof fn lemma_step_contains(input: EditorInput, readonly: bool, deleting: bool, x: EditorAction)
    requires
        x == EditorAction::Delete || x == EditorAction::Backspace,
    ensures
        ({
            let (actions, now_deleting) = editor_step(input, readonly, deleting);
            let m = !readonly && input.back_pressed && input.web && x == EditorAction::Backspace;
            let d = !readonly && input.delete_pressed && x == EditorAction::Delete;
            let ends = (!readonly && input.return_pressed) || (input.command && input.a_pressed)
                || (input.command && input.option && (input.left_pressed || input.right_pressed))
                || (input.clipboard && input.command && (input.c_pressed || (!readonly && (
            input.x_pressed || input.v_pressed)))) || input.mouse_pressed || input.mouse_held;
            let typed = !readonly && typing_actions(input.chars@, now_deleting).contains(x);
            actions.contains(x) <==> (m || d || (!ends && typed))
        }),
{
    let (actions, now_deleting) = editor_step(input, readonly, deleting);
    let moves = arrow_moves(input);
    let m = if !readonly && input.back_pressed && input.web {
        moves.push(EditorAction::Backspace)
    } else {
        moves
    };
    let a = if !readonly && input.delete_pressed {
        m.push(EditorAction::Delete)
    } else {
        m
    };
    let b = if input.escape_pressed {
        a.push(EditorAction::Escape)
    } else {
        a
    };
    let scrolls = scroll_actions(input.scroll_lines@);
    let typing = typing_actions(input.chars@, now_deleting);
    assert(!moves.contains(x));
    assert(!scrolls.contains(x)) by {
        if scrolls.contains(x) {
            let k = choose|k: int| 0 <= k < scrolls.len() && scrolls[k] == x;
        }
    }
    if !readonly && input.back_pressed && input.web {
        lemma_contains_push(moves, EditorAction::Backspace, x);
    }
    if !readonly && input.delete_pressed {
        lemma_contains_push(m, EditorAction::Delete, x);
    }
    if input.escape_pressed {
        lemma_contains_push(a, EditorAction::Escape, x);
    }
    lemma_contains_push(a, EditorAction::Insert('\n'), x);
    lemma_contains_push(b, EditorAction::SelectAll, x);
    lemma_contains_push(b, EditorAction::PreviousWord, x);
    lemma_contains_push(b, EditorAction::NextWord, x);
    lemma_contains_push(b, EditorAction::Copy, x);
    lemma_contains_push(b, EditorAction::Cut, x);
    lemma_contains_push(b, EditorAction::Paste, x);
    if let Some((cx, cy)) = input.cursor {
        lemma_contains_push(b, EditorAction::Click(cx, cy), x);
        lemma_contains_push(b, EditorAction::Drag(cx, cy), x);
    }
    lemma_contains_add(b, scrolls, x);
    lemma_contains_add(b + scrolls, typing, x);
}

/// Deleting follows the keys: in an editable editor the Delete key deletes
/// forward, and only the Delete key does; a backspace is done only for
/// backspace going down in a browser, or for a character typed while
/// backspace is held; a read-only editor does neither.
pub proof fn lemma_deletions_follow_the_keys(input: EditorInput, readonly: bool, deleting: bool)
    ensures
        ({
            let (actions, now_deleting) = editor_step(input, readonly, deleting);
            &&& (!readonly && input.delete_pressed) <==> actions.contains(EditorAction::Delete)
            &&& (!readonly && input.back_pressed && input.web) ==> actions.contains(
                EditorAction::Backspace,
            )
            &&& actions.contains(EditorAction::Backspace) ==> !readonly && ((input.back_pressed
                && input.web) || (now_deleting && input.chars.len() > 0))
        }),
{
    let (actions, now_deleting) = editor_step(input, readonly, deleting);
    let typing = typing_actions(input.chars@, now_deleting);
    lemma_step_contains(input, readonly, deleting, EditorAction::Delete);
    lemma_step_contains(input, readonly, deleting, EditorAction::Backspace);
    lemma_typing_actions_at(input.chars@, now_deleting);
    if typing.contains(EditorAction::Backspace) {
        let k = choose|k: int| 0 <= k < typing.len() && typing[k] == EditorAction::Backspace;
        assert(typing[k] == typing_action(input.chars@[k], now_deleting));
    }
    if typing.contains(EditorAction::Delete) {
        let k = choose|k: int| 0 <= k < typing.len() && typing[k] == EditorAction::Delete;
        assert(typing[k] == typing_action(input.chars@[k], now_deleting));
    }
}

/// Decides what the active editor does in one frame (see `editor_step`).
pub fn cosmic_edit_bevy_events(input: &EditorInput, readonly: bool, deleting: bool) -> (result: (
    Vec<EditorAction>,
    bool,
))
    ensures
        (result.0@, result.1) == editor_step(*input, readonly, deleting),
{
    let mut actions: Vec<EditorAction> = Vec::new();
    if input.left_pressed {
        actions.push(EditorAction::Left);
    }
    if input.right_pressed {
        actions.push(EditorAction::Right);
    }
    if input.up_pressed {
        actions.push(EditorAction::Up);
    }
    if input.down_pressed {
        actions.push(EditorAction::Down);
    }
    proof {
        assert(actions@ =~= arrow_moves(*input));
    }
    let mut now_deleting = deleting;
    if !readonly && input.back_pressed {
        if input.web {
            actions.push(EditorAction::Backspace);
        }
        now_deleting = true;
    }
    if !readonly && input.back_released {
        now_deleting = false;
    }
    if !readonly && input.delete_pressed {
        actions.push(EditorAction::Delete);
    }
    if !readonly && input.return_pressed {
        actions.push(EditorAction::Insert('\n'));
        return (actions, now_deleting);
    }
    if input.escape_pressed {
        actions.push(EditorAction::Escape);
    }
    if input.command && input.a_pressed {
        actions.push(EditorAction::SelectAll);
        return (actions, now_deleting);
    }
    if input.command && input.option && input.left_pressed {
        actions.push(EditorAction::PreviousWord);
        return (actions, now_deleting);
    }
    if input.command && input.option && input.right_pressed {
        actions.push(EditorAction::NextWord);
        return (actions, now_deleting);
    }
    if input.clipboard {
        if input.command && input.c_pressed {
            actions.push(EditorAction::Copy);
            return (actions, now_deleting);
        }
        if !readonly && input.command && input.x_pressed {
            actions.push(EditorAction::Cut);
            return (actions, now_deleting);
        }
        if !readonly && input.command && input.v_pressed {
            actions.push(EditorAction::Paste);
            return (actions, now_deleting);
        }
    }
    if input.mouse_pressed {
        match input.cursor {
            Some((x, y)) => {
                actions.push(EditorAction::Click(x, y));
            },
            None => {},
        }
        return (actions, now_deleting);
    }
    if input.mouse_held {
        match input.cursor {
            Some((x, y)) => {
                actions.push(EditorAction::Drag(x, y));
            },
            None => {},
        }
        return (actions, now_deleting);
    }
    push_scrolls(&mut actions, &input.scroll_lines);
    if readonly {
        return (actions, now_deleting);
    }
    push_typing(&mut actions, &input.chars, now_deleting);
    (actions, now_deleting)
}


fn push_scrolls(actions: &mut Vec<EditorAction>, lines: &Vec<i32>)
    ensures
        final(actions)@ == old(actions)@ + scroll_actions(lines@),
{
    let mut i: usize = 0;
    proof {
        assert(actions@ =~= old(actions)@ + scroll_actions(lines@.take(0)));
    }
    while i < lines.len()
        invariant
            i <= lines.len(),
            actions@ == old(actions)@ + scroll_actions(lines@.take(i as int)),
        decreases lines.len() - i,
    {
        let ghost before = actions@;
        actions.push(EditorAction::Scroll(lines[i]));
        proof {
            assert(scroll_actions(lines@.take(i + 1)) =~= scroll_actions(lines@.take(i as int)).push(
                EditorAction::Scroll(lines@[i as int]),
            ));
            assert(actions@ =~= old(actions)@ + scroll_actions(lines@.take(i + 1)));
        }
        i = i + 1;
    }
    proof {
        assert(lines@.take(lines.len() as int) =~= lines@);
    }
}

fn push_typing(actions: &mut Vec<EditorAction>, chars: &Vec<char>, deleting: bool)
    ensures
        final(actions)@ == old(actions)@ + typing_actions(chars@, deleting),
{
    let mut j: usize = 0;
    proof {
        assert(actions@ =~= old(actions)@ + typing_actions(chars@.take(0), deleting));
    }
    while j < chars.len()
        invariant
            j <= chars.len(),
            actions@ == old(actions)@ + typing_actions(chars@.take(j as int), deleting),
        decreases chars.len() - j,
    {
        let act = if deleting {
            EditorAction::Backspace
        } else {
            EditorAction::Insert(chars[j])
        };
        actions.push(act);
        proof {
            assert(chars@.take(j + 1).drop_last() =~= chars@.take(j as int));
            let t1 = typing_actions(chars@.take(j + 1), deleting);
            assert(actions@ =~= old(actions)@ + t1);
        }
        j = j + 1;
    }
    proof {
        assert(chars@.take(chars.len() as int) =~= chars@);
    }
}

} // verus!
