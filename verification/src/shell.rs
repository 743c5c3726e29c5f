//! Decisions of the application shell: what a key press does to the editor
//! and the scroll position, when the cursor blinks and deferred work runs,
//! and whether networking starts.
use vstd::prelude::*;
use crate::editor::{lemma_caret, EditorModel, InputEditor};
use crate::keys::{KeyAction, KeyInput, LogicalKey, Modifiers, NamedKey};
use crate::protocol::{Msg, ReplayEntry, WorkspaceInfo};
use crate::utf8_text::{
    byte_len, lemma_index_at, lemma_offset_concat, lemma_offset_ends, lemma_offset_take, offset_of,
    string_push,
};

verus! {

/// What a key event asks of the shell.
#[derive(Debug, Clone, PartialEq, Eq)]
pub enum KeyCommand {
    /// Leave the application.
    Quit,
    /// Put the selection on the clipboard.
    Copy,
    /// Put the selection on the clipboard and delete it.
    Cut,
    /// Replace the selection with the clipboard's text.
    Paste,
    /// Send the input line; `followup` queues it after the running turn.
    Submit { followup: bool },
    /// Abort the running agent turn, if any.
    Escape,
    /// Scroll the conversation back by this many lines.
    ScrollUp(usize),
    /// Scroll the conversation forward by this many lines.
    ScrollDown(usize),
    DeleteToStart,
    DeleteWordBefore,
    DeleteBefore,
    DeleteAfter,
    /// Caret moves; the flag extends the selection.
    MoveToStart(bool),
    MoveWordLeft(bool),
    MoveLeft(bool),
    MoveToEnd(bool),
    MoveWordRight(bool),
    MoveRight(bool),
    /// Insert text at the caret.
    Insert(String),
    /// Nothing to do.
    Ignore,
}

/// Lines scrolled by one arrow press and by one page key.
pub const LINE_STEP: usize = 1;
pub const PAGE_STEP: usize = 10;

/// The text a key types: the event's text when non-empty, else the
/// characters of a character key.
pub open spec fn typed_text(text: Option<String>, key: LogicalKey) -> Option<Seq<char>> {
    match text {
        Some(t) if t@.len() > 0 => Some(t@),
        _ => match key {
            LogicalKey::Character(s) => Some(s@),
            _ => None,
        },
    }
}

/// The command of a pressed named key, when its own rule applies.
pub open spec fn named_command(n: NamedKey, m: Modifiers) -> Option<KeyCommand> {
    let (shift, alt, cmd, ctrl) = (m.shift_key, m.alt_key, m.super_key, m.control_key);
    match n {
        NamedKey::Enter => if !cmd && !ctrl {
            Some(KeyCommand::Submit { followup: alt })
        } else {
            None
        },
        NamedKey::Escape => Some(KeyCommand::Escape),
        NamedKey::ArrowUp => Some(
            if !cmd && !ctrl && !alt {
                KeyCommand::ScrollUp(LINE_STEP)
            } else {
                KeyCommand::Ignore
            },
        ),
        NamedKey::PageUp => Some(
            if !cmd && !ctrl && !alt {
                KeyCommand::ScrollUp(PAGE_STEP)
            } else {
                KeyCommand::Ignore
            },
        ),
        NamedKey::ArrowDown => Some(
            if !cmd && !ctrl && !alt {
                KeyCommand::ScrollDown(LINE_STEP)
            } else {
                KeyCommand::Ignore
            },
        ),
        NamedKey::PageDown => Some(
            if !cmd && !ctrl && !alt {
                KeyCommand::ScrollDown(PAGE_STEP)
            } else {
                KeyCommand::Ignore
            },
        ),
        NamedKey::Backspace => Some(
            if cmd {
                KeyCommand::DeleteToStart
            } else if alt {
                KeyCommand::DeleteWordBefore
            } else {
                KeyCommand::DeleteBefore
            },
        ),
        NamedKey::Delete => Some(KeyCommand::DeleteAfter),
        NamedKey::ArrowLeft => Some(
            if cmd {
                KeyCommand::MoveToStart(shift)
            } else if alt {
                KeyCommand::MoveWordLeft(shift)
            } else {
                KeyCommand::MoveLeft(shift)
            },
        ),
        NamedKey::ArrowRight => Some(
            if cmd {
                KeyCommand::MoveToEnd(shift)
            } else if alt {
                KeyCommand::MoveWordRight(shift)
            } else {
                KeyCommand::MoveRight(shift)
            },
        ),
        NamedKey::Other => None,
    }
}

/// The command for a translated action and its key event; `None` stands for
/// inserting the event's [`typed_text`].
pub open spec fn command_of(
    action: KeyAction,
    key: LogicalKey,
    text: Option<String>,
    pressed: bool,
    m: Modifiers,
) -> Option<KeyCommand> {
    if action matches KeyAction::CmdLetter(c) && c == 'q' {
        Some(KeyCommand::Quit)
    } else if action matches KeyAction::CmdLetter(c) && c == 'c' {
        Some(KeyCommand::Copy)
    } else if action matches KeyAction::CmdLetter(c) && c == 'x' {
        Some(KeyCommand::Cut)
    } else if action matches KeyAction::CmdLetter(c) && c == 'v' {
        Some(KeyCommand::Paste)
    } else if !pressed {
        Some(KeyCommand::Ignore)
    } else {
        let own = match key {
            LogicalKey::Named(n) => named_command(n, m),
            _ => None,
        };
        match own {
            Some(c) => Some(c),
            None => if !m.super_key && !m.control_key && typed_text(text, key) is Some {
                None
            } else {
                Some(KeyCommand::Ignore)
            },
        }
    }
}

/// What each named key does, for every modifier state: arrows move the
/// caret one character, or a word with Alt, or to the line's end with Cmd,
/// extending the selection with Shift; Backspace deletes back one
/// character, a word with Alt, or to the start with Cmd; Delete deletes
/// forward; plain Up/Down scroll a line and PageUp/PageDown a page; Enter
/// without Cmd or Ctrl submits (queued as follow-up with Alt); Escape
/// aborts. A released key does nothing.
pub proof fn law_named_key_commands(action: KeyAction, text: Option<String>, m: Modifiers)
    requires
        !(action is CmdLetter),
    ensures
        ({
            let k = |n: NamedKey| command_of(action, LogicalKey::Named(n), text, true, m);
            let (shift, alt, cmd, ctrl) = (m.shift_key, m.alt_key, m.super_key, m.control_key);
            &&& !cmd && !alt ==> k(NamedKey::ArrowRight) == Some(KeyCommand::MoveRight(shift))
            &&& !cmd && alt ==> k(NamedKey::ArrowRight) == Some(KeyCommand::MoveWordRight(shift))
            &&& cmd ==> k(NamedKey::ArrowRight) == Some(KeyCommand::MoveToEnd(shift))
            &&& !cmd && !alt ==> k(NamedKey::ArrowLeft) == Some(KeyCommand::MoveLeft(shift))
            &&& !cmd && alt ==> k(NamedKey::ArrowLeft) == Some(KeyCommand::MoveWordLeft(shift))
            &&& cmd ==> k(NamedKey::ArrowLeft) == Some(KeyCommand::MoveToStart(shift))
            &&& !cmd && !alt ==> k(NamedKey::Backspace) == Some(KeyCommand::DeleteBefore)
            &&& !cmd && alt ==> k(NamedKey::Backspace) == Some(KeyCommand::DeleteWordBefore)
            &&& cmd ==> k(NamedKey::Backspace) == Some(KeyCommand::DeleteToStart)
            &&& k(NamedKey::Delete) == Some(KeyCommand::DeleteAfter)
            &&& k(NamedKey::Escape) == Some(KeyCommand::Escape)
            &&& !cmd && !ctrl ==> k(NamedKey::Enter) == Some(KeyCommand::Submit { followup: alt })
            &&& !cmd && !ctrl && !alt ==> k(NamedKey::ArrowUp) == Some(KeyCommand::ScrollUp(1))
            &&& !cmd && !ctrl && !alt ==> k(NamedKey::ArrowDown) == Some(KeyCommand::ScrollDown(1))
            &&& !cmd && !ctrl && !alt ==> k(NamedKey::PageUp) == Some(KeyCommand::ScrollUp(10))
            &&& !cmd && !ctrl && !alt ==> k(NamedKey::PageDown) == Some(KeyCommand::ScrollDown(10))
            &&& (cmd || ctrl || alt) ==> k(NamedKey::ArrowUp) == Some(KeyCommand::Ignore)
                && k(NamedKey::PageDown) == Some(KeyCommand::Ignore)
        }),
        forall|key: LogicalKey| command_of(action, key, text, false, m) == Some(KeyCommand::Ignore),
{
}

/// A pressed character key types its text when neither Cmd nor Ctrl is
/// held and does nothing when one is (unless it is one of the clipboard or
/// quit shortcuts).
pub proof fn law_typing(action: KeyAction, s: String, m: Modifiers)
    requires
        !(action is CmdLetter),
    ensures
        !m.super_key && !m.control_key ==> command_of(action, LogicalKey::Character(s), None, true, m)
            is None && typed_text(None, LogicalKey::Character(s)) == Some(s@),
        m.super_key || m.control_key ==> command_of(action, LogicalKey::Character(s), None, true, m)
            == Some(KeyCommand::Ignore),
{
}

/// Cmd+Q quits and Cmd+C, Cmd+X, Cmd+V copy, cut and paste, whatever the
/// key event.
pub proof fn law_clipboard_commands(key: LogicalKey, text: Option<String>, pressed: bool, m: Modifiers)
    ensures
        command_of(KeyAction::CmdLetter('q'), key, text, pressed, m) == Some(KeyCommand::Quit),
        command_of(KeyAction::CmdLetter('c'), key, text, pressed, m) == Some(KeyCommand::Copy),
        command_of(KeyAction::CmdLetter('x'), key, text, pressed, m) == Some(KeyCommand::Cut),
        command_of(KeyAction::CmdLetter('v'), key, text, pressed, m) == Some(KeyCommand::Paste),
{
}

/// Copy of the characters of `s`.
fn owned(s: &String) -> (r: String)
    ensures
        r@ == s@,
{
    s.as_str().to_owned()
}

/// The command for `action`, which `event` produced under modifiers `m`.
pub fn key_command(action: &KeyAction, event: &KeyInput, m: Modifiers) -> (r: KeyCommand)
    ensures
        match command_of(*action, event.logical_key, event.text, event.pressed, m) {
            Some(c) => r == c,
            None => r matches KeyCommand::Insert(s) && typed_text(event.text, event.logical_key)
                == Some(s@),
        },
{
    match action {
        KeyAction::CmdLetter(c) => {
            if *c == 'q' {
                return KeyCommand::Quit;
            } else if *c == 'c' {
                return KeyCommand::Copy;
            } else if *c == 'x' {
                return KeyCommand::Cut;
            } else if *c == 'v' {
                return KeyCommand::Paste;
            }
        },
        _ => {},
    }
    if !event.pressed {
        return KeyCommand::Ignore;
    }
    let shift = m.shift_key;
    let alt = m.alt_key;
    let cmd = m.super_key;
    let ctrl = m.control_key;
    match &event.logical_key {
        LogicalKey::Named(n) => {
            match n {
                NamedKey::Enter => {
                    if !cmd && !ctrl {
                        return KeyCommand::Submit { followup: alt };
                    }
                },
                NamedKey::Escape => {
                    return KeyCommand::Escape;
                },
                NamedKey::ArrowUp | NamedKey::PageUp => {
                    if !cmd && !ctrl && !alt {
                        let step = match n {
                            NamedKey::PageUp => PAGE_STEP,
                            _ => LINE_STEP,
                        };
                        return KeyCommand::ScrollUp(step);
                    }
                    return KeyCommand::Ignore;
                },
                NamedKey::ArrowDown | NamedKey::PageDown => {
                    if !cmd && !ctrl && !alt {
                        let step = match n {
                            NamedKey::PageDown => PAGE_STEP,
                            _ => LINE_STEP,
                        };
                        return KeyCommand::ScrollDown(step);
                    }
                    return KeyCommand::Ignore;
                },
                NamedKey::Backspace => {
                    return if cmd {
                        KeyCommand::DeleteToStart
                    } else if alt {
                        KeyCommand::DeleteWordBefore
                    } else {
                        KeyCommand::DeleteBefore
                    };
                },
                NamedKey::Delete => {
                    return KeyCommand::DeleteAfter;
                },
                NamedKey::ArrowLeft => {
                    return if cmd {
                        KeyCommand::MoveToStart(shift)
                    } else if alt {
                        KeyCommand::MoveWordLeft(shift)
                    } else {
                        KeyCommand::MoveLeft(shift)
                    };
                },
                NamedKey::ArrowRight => {
                    return if cmd {
                        KeyCommand::MoveToEnd(shift)
                    } else if alt {
                        KeyCommand::MoveWordRight(shift)
                    } else {
                        KeyCommand::MoveRight(shift)
                    };
                },
                NamedKey::Other => {},
            }
        },
        _ => {},
    }
    if cmd || ctrl {
        return KeyCommand::Ignore;
    }
    match &event.text {
        Some(t) => {
            if t.as_str().unicode_len() > 0 {
                return KeyCommand::Insert(owned(t));
            }
        },
        None => {},
    }
    match &event.logical_key {
        LogicalKey::Character(s) => KeyCommand::Insert(owned(s)),
        _ => KeyCommand::Ignore,
    }
}

/// A key as a text terminal reports it.
#[derive(Debug, Clone, Copy, PartialEq, Eq)]
pub enum TerminalKey {
    Esc,
    Enter,
    Up,
    Down,
    PageUp,
    PageDown,
    Backspace,
    Delete,
    Left,
    Right,
    Char(char),
    Other,
}

/// The command for a key pressed in a text terminal; `None` stands for
/// inserting the pressed character. Escape is also how the terminal shell
/// is left.
pub open spec fn terminal_command(key: TerminalKey, m: Modifiers) -> Option<KeyCommand> {
    match key {
        TerminalKey::Esc => Some(
            if !m.alt_key && !m.control_key {
                KeyCommand::Escape
            } else {
                KeyCommand::Ignore
            },
        ),
        TerminalKey::Enter => Some(
            if !m.control_key {
                KeyCommand::Submit { followup: m.alt_key }
            } else {
                KeyCommand::Ignore
            },
        ),
        TerminalKey::Up => Some(KeyCommand::ScrollUp(LINE_STEP)),
        TerminalKey::Down => Some(KeyCommand::ScrollDown(LINE_STEP)),
        TerminalKey::PageUp => Some(KeyCommand::ScrollUp(PAGE_STEP)),
        TerminalKey::PageDown => Some(KeyCommand::ScrollDown(PAGE_STEP)),
        TerminalKey::Backspace => Some(KeyCommand::DeleteBefore),
        TerminalKey::Delete => Some(KeyCommand::DeleteAfter),
        TerminalKey::Left => Some(KeyCommand::MoveLeft(false)),
        TerminalKey::Right => Some(KeyCommand::MoveRight(false)),
        TerminalKey::Char(c) => if m.control_key && c == 'c' {
            Some(KeyCommand::Copy)
        } else if m.control_key && c == 'x' {
            Some(KeyCommand::Cut)
        } else if m.control_key && c == 'v' {
            Some(KeyCommand::Paste)
        } else {
            None
        },
        TerminalKey::Other => Some(KeyCommand::Ignore),
    }
}

/// In a text terminal the arrows move one character (never extending),
/// Up/Down scroll a line and the page keys a page, Backspace and Delete
/// delete one character, Enter without Ctrl submits (follow-up with Alt),
/// Escape without Alt or Ctrl aborts or leaves, Ctrl+C/X/V use the
/// clipboard, and any other character is typed.
pub proof fn law_terminal_key_commands(m: Modifiers, c: char)
    ensures
        terminal_command(TerminalKey::Left, m) == Some(KeyCommand::MoveLeft(false)),
        terminal_command(TerminalKey::Right, m) == Some(KeyCommand::MoveRight(false)),
        terminal_command(TerminalKey::Up, m) == Some(KeyCommand::ScrollUp(1)),
        terminal_command(TerminalKey::Down, m) == Some(KeyCommand::ScrollDown(1)),
        terminal_command(TerminalKey::PageUp, m) == Some(KeyCommand::ScrollUp(10)),
        terminal_command(TerminalKey::PageDown, m) == Some(KeyCommand::ScrollDown(10)),
        terminal_command(TerminalKey::Backspace, m) == Some(KeyCommand::DeleteBefore),
        terminal_command(TerminalKey::Delete, m) == Some(KeyCommand::DeleteAfter),
        !m.control_key ==> terminal_command(TerminalKey::Enter, m) == Some(
            KeyCommand::Submit { followup: m.alt_key },
        ),
        !m.alt_key && !m.control_key ==> terminal_command(TerminalKey::Esc, m) == Some(
            KeyCommand::Escape,
        ),
        m.control_key ==> terminal_command(TerminalKey::Char('c'), m) == Some(KeyCommand::Copy)
            && terminal_command(TerminalKey::Char('x'), m) == Some(KeyCommand::Cut)
            && terminal_command(TerminalKey::Char('v'), m) == Some(KeyCommand::Paste),
        !m.control_key ==> terminal_command(TerminalKey::Char(c), m) is None,
{
}

/// The command for `key` pressed in a text terminal under `m`.
pub fn terminal_key_command(key: TerminalKey, m: Modifiers) -> (r: KeyCommand)
    ensures
        match terminal_command(key, m) {
            Some(c) => r == c,
            None => key matches TerminalKey::Char(c) && r matches KeyCommand::Insert(s) && s@
                == seq![c],
        },
{
    match key {
        TerminalKey::Esc => if !m.alt_key && !m.control_key {
            KeyCommand::Escape
        } else {
            KeyCommand::Ignore
        },
        TerminalKey::Enter => if !m.control_key {
            KeyCommand::Submit { followup: m.alt_key }
        } else {
            KeyCommand::Ignore
        },
        TerminalKey::Up => KeyCommand::ScrollUp(LINE_STEP),
        TerminalKey::Down => KeyCommand::ScrollDown(LINE_STEP),
        TerminalKey::PageUp => KeyCommand::ScrollUp(PAGE_STEP),
        TerminalKey::PageDown => KeyCommand::ScrollDown(PAGE_STEP),
        TerminalKey::Backspace => KeyCommand::DeleteBefore,
        TerminalKey::Delete => KeyCommand::DeleteAfter,
        TerminalKey::Left => KeyCommand::MoveLeft(false),
        TerminalKey::Right => KeyCommand::MoveRight(false),
        TerminalKey::Char(c) => {
            if m.control_key && c == 'c' {
                KeyCommand::Copy
            } else if m.control_key && c == 'x' {
                KeyCommand::Cut
            } else if m.control_key && c == 'v' {
                KeyCommand::Paste
            } else {
                let mut s = String::new();
                string_push(&mut s, c);
                assert(s@ =~= seq![c]);
                KeyCommand::Insert(s)
            }
        },
        TerminalKey::Other => KeyCommand::Ignore,
    }
}

/// Scroll position of the conversation: lines back from the newest, and
/// whether the view follows new output.
#[derive(Debug, Clone, Copy, PartialEq, Eq)]
pub struct Scroll {
    pub offset: usize,
    pub follow: bool,
}

pub open spec fn sat_add(a: usize, b: usize) -> usize {
    if a + b > usize::MAX {
        usize::MAX
    } else {
        (a + b) as usize
    }
}

pub open spec fn sat_sub(a: usize, b: usize) -> usize {
    if a < b {
        0
    } else {
        (a - b) as usize
    }
}

impl Scroll {
    /// `step` lines further back (saturating); stops following.
    pub open spec fn scrolled_up(self, step: usize) -> Scroll {
        Scroll { offset: sat_add(self.offset, step), follow: false }
    }

    /// `step` lines forward (saturating); reaching the newest line resumes
    /// following.
    pub open spec fn scrolled_down(self, step: usize) -> Scroll {
        let o = sat_sub(self.offset, step);
        Scroll { offset: o, follow: if o == 0 { true } else { self.follow } }
    }

    pub fn scroll_up(&mut self, step: usize)
        ensures
            *final(self) == old(self).scrolled_up(step),
    {
        self.offset = self.offset.saturating_add(step);
        self.follow = false;
    }

    pub fn scroll_down(&mut self, step: usize)
        ensures
            *final(self) == old(self).scrolled_down(step),
    {
        let o = self.offset.saturating_sub(step);
        self.offset = o;
        if o == 0 {
            self.follow = true;
        }
    }
}

/// Scrolling back and then forward by the same step, short of the
/// largest offset, returns to the same line.
pub proof fn law_scroll_round_trip(s: Scroll, step: usize)
    requires
        s.offset + step <= usize::MAX,
    ensures
        s.scrolled_up(step).scrolled_down(step).offset == s.offset,
{
}

/// The editor after a command; commands with outside effects leave it as
/// it is, and a submission of non-empty text empties it.
pub open spec fn edited(m: EditorModel, c: KeyCommand) -> EditorModel {
    match c {
        KeyCommand::Submit { .. } => if m.text.len() > 0 {
            EditorModel::empty()
        } else {
            m
        },
        KeyCommand::DeleteToStart => m.deleted_to_start(),
        KeyCommand::DeleteWordBefore => m.deleted_word_before(),
        KeyCommand::DeleteBefore => m.deleted_before(),
        KeyCommand::DeleteAfter => m.deleted_after(),
        KeyCommand::MoveToStart(e) => m.moved_to_start(e),
        KeyCommand::MoveWordLeft(e) => m.moved_word_left(e),
        KeyCommand::MoveLeft(e) => m.moved_left(e),
        KeyCommand::MoveToEnd(e) => m.moved_to_end(e),
        KeyCommand::MoveWordRight(e) => m.moved_word_right(e),
        KeyCommand::MoveRight(e) => m.moved_right(e),
        KeyCommand::Insert(s) => m.pushed(s@),
        _ => m,
    }
}

pub open spec fn scrolled(s: Scroll, c: KeyCommand) -> Scroll {
    match c {
        KeyCommand::ScrollUp(n) => s.scrolled_up(n),
        KeyCommand::ScrollDown(n) => s.scrolled_down(n),
        _ => s,
    }
}

/// Cmd-moves keep the text and put the cursor on the first or past the
/// last byte; with extend they start a selection at the old cursor (or keep
/// the one there is), without it they drop the selection. Word moves keep
/// the text.
pub proof fn law_line_moves(m: EditorModel, e: bool)
    requires
        m.wf(),
    ensures
        edited(m, KeyCommand::MoveToEnd(e)).text == m.text,
        edited(m, KeyCommand::MoveToEnd(e)).cursor == byte_len(m.text),
        edited(m, KeyCommand::MoveToStart(e)).text == m.text,
        edited(m, KeyCommand::MoveToStart(e)).cursor == 0,
        !e ==> edited(m, KeyCommand::MoveToEnd(e)).anchor is None && edited(
            m,
            KeyCommand::MoveToStart(e),
        ).anchor is None,
        e && m.anchor is None ==> edited(m, KeyCommand::MoveToEnd(e)).anchor == Some(m.cursor)
            && edited(m, KeyCommand::MoveToStart(e)).anchor == Some(m.cursor),
        e && m.anchor is Some ==> edited(m, KeyCommand::MoveToEnd(e)).anchor == m.anchor && edited(
            m,
            KeyCommand::MoveToStart(e),
        ).anchor == m.anchor,
        edited(m, KeyCommand::MoveWordLeft(e)).text == m.text,
        edited(m, KeyCommand::MoveWordRight(e)).text == m.text,
{
}

/// Without a selection, Left and Right keep the text and move the caret by
/// exactly one character (when there is one to pass).
pub proof fn law_char_moves(m: EditorModel, e: bool)
    requires
        m.wf(),
        m.anchor is None,
    ensures
        m.caret() > 0 ==> edited(m, KeyCommand::MoveLeft(e)).text == m.text && edited(
            m,
            KeyCommand::MoveLeft(e),
        ).caret() == m.caret() - 1,
        m.caret() < m.text.len() ==> edited(m, KeyCommand::MoveRight(e)).text == m.text && edited(
            m,
            KeyCommand::MoveRight(e),
        ).caret() == m.caret() + 1,
{
    lemma_caret(m);
    if m.caret() > 0 {
        lemma_index_at(m.text, m.caret() - 1);
    }
    if m.caret() < m.text.len() {
        lemma_index_at(m.text, m.caret() + 1);
    }
}

/// Backspace without a selection removes the one character before the
/// caret; Delete removes the one after it, leaving the cursor; deleting to
/// the start removes every character before the caret.
pub proof fn law_deletions(m: EditorModel)
    requires
        m.wf(),
    ensures
        m.anchor is None && m.caret() > 0 ==> edited(m, KeyCommand::DeleteBefore).text == m.text.take(
            m.caret() - 1,
        ) + m.text.skip(m.caret()) && edited(m, KeyCommand::DeleteBefore).caret() == m.caret() - 1,
        m.caret() < m.text.len() ==> edited(m, KeyCommand::DeleteAfter).text == m.text.take(m.caret())
            + m.text.skip(m.caret() + 1) && edited(m, KeyCommand::DeleteAfter).cursor == m.cursor,
        edited(m, KeyCommand::DeleteToStart).text == m.text.skip(m.caret()),
        edited(m, KeyCommand::DeleteToStart).cursor == 0,
{
    let t = m.text;
    let k = m.caret();
    lemma_caret(m);
    lemma_offset_ends(t);
    lemma_index_at(t, 0);
    if k > 0 {
        lemma_index_at(t, k - 1);
        let d = m.cut(offset_of(t, k - 1), m.cursor);
        assert(d.text == t.take(k - 1) + t.skip(k));
        lemma_offset_concat(t.take(k - 1), t.skip(k), k - 1);
        lemma_offset_take(t, k - 1, k - 1);
        lemma_index_at(d.text, k - 1);
    }
    assert(t.take(0) + t.skip(k) =~= t.skip(k));
    assert(t.skip(0) =~= t);
}

/// Typing inserts exactly the typed text at the caret and moves the cursor
/// past it; submitting a non-empty line empties the editor; commands with
/// outside effects leave the editor as it is.
pub proof fn law_insert_submit(m: EditorModel, e: bool, s: String)
    ensures
        edited(m, KeyCommand::Insert(s)).text == m.text.take(m.caret()) + s@ + m.text.skip(m.caret()),
        edited(m, KeyCommand::Insert(s)).cursor == m.cursor + byte_len(s@),
        m.text.len() > 0 ==> edited(m, KeyCommand::Submit { followup: e }).text.len() == 0
            && edited(m, KeyCommand::Submit { followup: e }).cursor == 0,
        m.text.len() == 0 ==> edited(m, KeyCommand::Submit { followup: e }) == m,
        edited(m, KeyCommand::Copy) == m,
        edited(m, KeyCommand::Escape) == m,
        edited(m, KeyCommand::Quit) == m,
        edited(m, KeyCommand::Ignore) == m,
{
}

/// Scrolling back moves the view the given number of lines further back
/// (up to the largest offset) and stops following; scrolling forward moves
/// it toward the newest line, following again on reaching it.
pub proof fn law_scroll_commands(sc: Scroll, n: usize)
    ensures
        scrolled(sc, KeyCommand::ScrollUp(n)).offset == if sc.offset + n <= usize::MAX {
            sc.offset + n
        } else {
            usize::MAX as int
        },
        !scrolled(sc, KeyCommand::ScrollUp(n)).follow,
        scrolled(sc, KeyCommand::ScrollDown(n)).offset == if sc.offset >= n {
            sc.offset - n
        } else {
            0
        },
        scrolled(sc, KeyCommand::ScrollDown(n)).follow == (sc.follow || sc.offset <= n),
        scrolled(sc, KeyCommand::MoveToEnd(true)) == sc,
{
}

/// Whether the view changed and must be redrawn with the cursor shown.
pub open spec fn changes(c: KeyCommand) -> bool {
    !(c is Quit || c is Copy || c is Cut || c is Paste || c is Escape || c is Ignore)
}

/// Whether the agent of the workspace is working on a turn.
#[derive(Debug, Clone, Copy, PartialEq, Eq, Structural)]
pub enum AgentStatusKind {
    Idle,
    Running,
}

/// The workspace the input line talks to.
pub const WORKSPACE_ID: u64 = 1;

/// Queue mode of a submitted line: `followup` to queue it after the running
/// turn, `steer` to act on it now.
pub open spec fn queue_mode_text(followup: bool) -> Seq<char> {
    if followup {
        "followup"@
    } else {
        "steer"@
    }
}

/// `msg` sends `text` to the workspace's agent in the queue mode `followup`
/// selects.
pub open spec fn is_send_of(msg: Msg, text: Seq<char>, followup: bool) -> bool {
    msg matches Msg::Send { workspace_id, text: t, queue_mode } && workspace_id == WORKSPACE_ID
        && t@ == text && queue_mode@ == queue_mode_text(followup)
}

/// `msg` aborts the workspace's running turn.
pub open spec fn is_abort(msg: Msg) -> bool {
    msg matches Msg::Abort { workspace_id } && workspace_id == WORKSPACE_ID
}

/// A submission of a non-empty line.
pub open spec fn submits(m: EditorModel, c: KeyCommand) -> bool {
    c is Submit && m.text.len() > 0
}

/// `msg` sends the line that command `c` submits from `m`.
pub open spec fn submission_sent(msg: Msg, m: EditorModel, c: KeyCommand) -> bool {
    match c {
        KeyCommand::Submit { followup } => m.text.len() > 0 && is_send_of(msg, m.text, followup),
        _ => false,
    }
}

/// Escape while the agent runs a turn.
pub open spec fn aborts(status: AgentStatusKind, c: KeyCommand) -> bool {
    c is Escape && status == AgentStatusKind::Running
}

/// What applying a command gave back.
#[derive(Debug, Clone)]
pub struct KeyOutcome {
    /// The view changed: reset the cursor blink and redraw.
    pub changed: bool,
    /// The submitted line, to show in the conversation.
    pub submitted: Option<String>,
    /// The message to send to the server.
    pub send: Option<Msg>,
}

/// Applies the editing, scrolling, submitting and aborting part of `cmd`
/// while the agent is in `status`: Enter with a non-empty line sends it
/// (`steer`, or `followup` with Alt) and empties the editor; Escape aborts a
/// running turn. Quitting and the clipboard are the caller's.
pub fn apply_key_command(
    editor: &mut InputEditor,
    scroll: &mut Scroll,
    status: AgentStatusKind,
    cmd: &KeyCommand,
) -> (r: KeyOutcome)
    requires
        old(editor)@.wf(),
        cmd is DeleteBefore ==> old(editor)@.selection_ok(),
        cmd matches KeyCommand::Insert(s) ==> byte_len(old(editor)@.text) + byte_len(s@)
            <= isize::MAX,
    ensures
        final(editor)@ == edited(old(editor)@, *cmd),
        final(editor)@.wf(),
        old(editor)@.selection_ok() && !(cmd is DeleteAfter) ==> final(editor)@.selection_ok(),
        *final(scroll) == scrolled(*old(scroll), *cmd),
        r.changed == changes(*cmd),
        match r.submitted {
            Some(t) => submits(old(editor)@, *cmd) && t@ == old(editor)@.text,
            None => !submits(old(editor)@, *cmd),
        },
        match r.send {
            Some(msg) => submission_sent(msg, old(editor)@, *cmd) || (aborts(status, *cmd)
                && is_abort(msg)),
            None => !submits(old(editor)@, *cmd) && !aborts(status, *cmd),
        },
{
    let mut submitted: Option<String> = None;
    let mut send: Option<Msg> = None;
    match cmd {
        KeyCommand::Submit { followup } => {
            let text = editor.text();
            if text.unicode_len() > 0 {
                let line = text.to_owned();
                let queue_mode = if *followup {
                    "followup".to_owned()
                } else {
                    "steer".to_owned()
                };
                proof {
                    reveal_strlit("followup");
                    reveal_strlit("steer");
                }
                send = Some(Msg::Send { workspace_id: WORKSPACE_ID, text: text.to_owned(), queue_mode });
                submitted = Some(line);
                editor.clear();
            }
        },
        KeyCommand::Escape => {
            if status == AgentStatusKind::Running {
                send = Some(Msg::Abort { workspace_id: WORKSPACE_ID });
            }
        },
        KeyCommand::ScrollUp(n) => scroll.scroll_up(*n),
        KeyCommand::ScrollDown(n) => scroll.scroll_down(*n),
        KeyCommand::DeleteToStart => editor.delete_to_start(),
        KeyCommand::DeleteWordBefore => editor.delete_word_before(),
        KeyCommand::DeleteBefore => editor.delete_before(),
        KeyCommand::DeleteAfter => editor.delete_after(),
        KeyCommand::MoveToStart(e) => editor.move_to_start(*e),
        KeyCommand::MoveWordLeft(e) => editor.move_word_left(*e),
        KeyCommand::MoveLeft(e) => editor.move_left(*e),
        KeyCommand::MoveToEnd(e) => editor.move_to_end(*e),
        KeyCommand::MoveWordRight(e) => editor.move_word_right(*e),
        KeyCommand::MoveRight(e) => editor.move_right(*e),
        KeyCommand::Insert(s) => editor.push_str(s.as_str()),
        _ => {},
    }
    let changed = match cmd {
        KeyCommand::Quit | KeyCommand::Copy | KeyCommand::Cut | KeyCommand::Paste
        | KeyCommand::Escape | KeyCommand::Ignore => false,
        _ => true,
    };
    KeyOutcome { changed, submitted, send }
}

/// The agent status after the server's message `msg`: an `AgentStatus`
/// message sets it (`running` means running, anything else idle); other
/// messages leave it.
pub fn status_after(status: AgentStatusKind, msg: &Msg) -> (r: AgentStatusKind)
    ensures
        match msg {
            Msg::AgentStatus { status: s, .. } => r == if s@ == "running"@ {
                AgentStatusKind::Running
            } else {
                AgentStatusKind::Idle
            },
            _ => r == status,
        },
{
    match msg {
        Msg::AgentStatus { status: s, .. } => {
            proof {
                reveal_strlit("running");
            }
            if str_eq(s.as_str(), "running") {
                AgentStatusKind::Running
            } else {
                AgentStatusKind::Idle
            }
        },
        _ => status,
    }
}

/// What the client knows of the workspace's agent from the server: the
/// newest event sequence number seen, the run state, and the events so far.
#[derive(Debug, Clone)]
pub struct WorkspaceState {
    pub last_seq: u64,
    pub status: AgentStatusKind,
    pub events: Vec<String>,
}

pub open spec fn texts_of(v: Seq<String>) -> Seq<Seq<char>> {
    v.map_values(|s: String| s@)
}

pub open spec fn entry_events(v: Seq<ReplayEntry>) -> Seq<Seq<char>> {
    v.map_values(|e: ReplayEntry| e.event@)
}

/// `out` holds one `Resume` per announced workspace, in order, each asking
/// for the events after `last_seq`.
pub open spec fn resumes_all(out: Seq<Msg>, workspaces: Seq<WorkspaceInfo>, last_seq: u64) -> bool {
    &&& out.len() == workspaces.len()
    &&& forall|i: int|
        0 <= i < out.len() ==> (#[trigger] out[i] matches Msg::Resume { workspace_id, last_seq: q }
            && workspace_id == workspaces[i].workspace_id && q == last_seq)
}

/// `n` is `o` after `msg`, which answered with `out`.
pub open spec fn processed(o: WorkspaceState, msg: Msg, n: WorkspaceState, out: Seq<Msg>) -> bool {
    match msg {
        Msg::Welcome { workspaces, .. } => {
            &&& resumes_all(out, workspaces@, o.last_seq)
            &&& n.last_seq == o.last_seq
            &&& n.status == o.status
            &&& texts_of(n.events@) == texts_of(o.events@)
        },
        Msg::ReplayBatch { events, latest_seq, .. } => {
            &&& out.len() == 0
            &&& n.last_seq == latest_seq
            &&& n.status == o.status
            &&& texts_of(n.events@) == texts_of(o.events@) + entry_events(events@)
        },
        Msg::AgentEvent { seq, event, .. } => {
            &&& out.len() == 0
            &&& n.last_seq == seq
            &&& n.status == o.status
            &&& texts_of(n.events@) == texts_of(o.events@).push(event@)
        },
        Msg::AgentStatus { status, .. } => {
            &&& out.len() == 0
            &&& n.last_seq == o.last_seq
            &&& n.status == (if status@ == "running"@ {
                AgentStatusKind::Running
            } else {
                AgentStatusKind::Idle
            })
            &&& texts_of(n.events@) == texts_of(o.events@)
        },
        _ => {
            &&& out.len() == 0
            &&& n.last_seq == o.last_seq
            &&& n.status == o.status
            &&& texts_of(n.events@) == texts_of(o.events@)
        },
    }
}

/// Handles a message from the server: `Welcome` asks each announced
/// workspace to resume after the last event seen; a replay batch and an
/// agent event append their events and advance the last sequence number;
/// an agent status sets the run state. Returns the messages to send back.
pub fn process_msg(state: &mut WorkspaceState, msg: &Msg) -> (out: Vec<Msg>)
    ensures
        processed(*old(state), *msg, *final(state), out@),
{
    let mut out: Vec<Msg> = Vec::new();
    match msg {
        Msg::Welcome { workspaces, .. } => {
            let mut i: usize = 0;
            while i < workspaces.len()
                invariant
                    i <= workspaces@.len(),
                    out@.len() == i,
                    forall|j: int|
                        0 <= j < i ==> (#[trigger] out@[j] matches Msg::Resume { workspace_id, last_seq: q }
                            && workspace_id == workspaces@[j].workspace_id && q == state.last_seq),
                decreases workspaces@.len() - i,
            {
                out.push(Msg::Resume { workspace_id: workspaces[i].workspace_id, last_seq: state.last_seq });
                i = i + 1;
            }
        },
        Msg::ReplayBatch { events, latest_seq, .. } => {
            let ghost before = texts_of(state.events@);
            let mut i: usize = 0;
            while i < events.len()
                invariant
                    i <= events@.len(),
                    texts_of(state.events@) == before + entry_events(events@).take(i as int),
                    state.last_seq == old(state).last_seq,
                    state.status == old(state).status,
                decreases events@.len() - i,
            {
                let ghost prev = state.events@;
                let e = events[i].event.as_str().to_owned();
                state.events.push(e);
                proof {
                    assert(texts_of(state.events@) =~= texts_of(prev).push(e@));
                    assert(entry_events(events@).take(i + 1) =~= entry_events(events@).take(
                        i as int,
                    ).push(events@[i as int].event@));
                }
                i = i + 1;
            }
            assert(entry_events(events@).take(events@.len() as int) =~= entry_events(events@));
            state.last_seq = *latest_seq;
        },
        Msg::AgentEvent { seq, event, .. } => {
            let ghost prev = state.events@;
            let e = event.as_str().to_owned();
            state.events.push(e);
            assert(texts_of(state.events@) =~= texts_of(prev).push(e@));
            state.last_seq = *seq;
        },
        Msg::AgentStatus { .. } => {
            state.status = status_after(state.status, msg);
        },
        _ => {},
    }
    out
}

/// A change of the font size a key asks for.
#[derive(Debug, Clone, Copy, PartialEq, Eq, Structural)]
pub enum FontStep {
    Grow,
    Shrink,
}

/// Cmd with `=` or `+` grows the font, Cmd with `-` shrinks it, on a press.
pub open spec fn font_step_of(key: LogicalKey, pressed: bool, m: Modifiers) -> Option<FontStep> {
    if pressed && m.super_key {
        match key {
            LogicalKey::Character(s) => if s@ == "="@ || s@ == "+"@ {
                Some(FontStep::Grow)
            } else if s@ == "-"@ {
                Some(FontStep::Shrink)
            } else {
                None
            },
            _ => None,
        }
    } else {
        None
    }
}

/// The font-size change `event` asks for under `m`, if any.
pub fn font_step(event: &KeyInput, m: Modifiers) -> (r: Option<FontStep>)
    ensures
        r == font_step_of(event.logical_key, event.pressed, m),
{
    if !event.pressed || !m.super_key {
        return None;
    }
    match &event.logical_key {
        LogicalKey::Character(s) => {
            let t = s.as_str();
            if str_eq(t, "=") || str_eq(t, "+") {
                Some(FontStep::Grow)
            } else if str_eq(t, "-") {
                Some(FontStep::Shrink)
            } else {
                None
            }
        },
        _ => None,
    }
}

/// Whether `a` and `b` hold the same characters.
fn str_eq(a: &str, b: &str) -> (r: bool)
    ensures
        r == (a@ == b@),
{
    let n = a.unicode_len();
    if n != b.unicode_len() {
        return false;
    }
    let mut i: usize = 0;
    while i < n
        invariant
            n == a@.len(),
            n == b@.len(),
            i <= n,
            a@.take(i as int) == b@.take(i as int),
        decreases n - i,
    {
        if a.get_char(i) != b.get_char(i) {
            assert(a@[i as int] != b@[i as int]);
            return false;
        }
        assert(a@.take(i + 1) =~= a@.take(i as int).push(a@[i as int]));
        assert(b@.take(i + 1) =~= b@.take(i as int).push(b@[i as int]));
        i = i + 1;
    }
    assert(a@ =~= a@.take(n as int));
    assert(b@ =~= b@.take(n as int));
    true
}

/// Blink period of the cursor, and how long a resize and a font-size change
/// settle before the layout is rebuilt and the size saved, in milliseconds.
pub const CURSOR_BLINK_MS: u64 = 530;
pub const RESIZE_DEBOUNCE_MS: u64 = 50;
pub const FONT_SAVE_DEBOUNCE_MS: u64 = 500;
/// How often incoming network messages are polled while connected.
pub const NET_POLL_MS: u64 = 16;

/// Largest time, in milliseconds, the timers handle.
pub const MAX_TIME_MS: u64 = 0xffff_ffff_ffff_0000;

/// Pending timed work of the event loop; times in milliseconds.
#[derive(Debug, Clone, Copy, PartialEq, Eq)]
pub struct Timers {
    /// When the cursor next changes phase.
    pub next_blink: u64,
    /// When the window was last resized, until the layout is rebuilt.
    pub last_resize: Option<u64>,
    /// When the font size last changed, until it is saved.
    pub font_save_pending: Option<u64>,
}

/// What an idle tick of the event loop has to do.
#[derive(Debug, Clone, Copy, PartialEq, Eq)]
pub struct TickActions {
    /// Flip the cursor's blink phase.
    pub toggle_cursor: bool,
    /// Rebuild the cell layout for the new window size.
    pub rebuild_layout: bool,
    /// Write the font size to the config file.
    pub save_font: bool,
    /// Redraw the window.
    pub redraw: bool,
}

pub open spec fn elapsed(now: u64, since: u64) -> int {
    if now >= since {
        now - since
    } else {
        0
    }
}

pub open spec fn timers_ok(t: Timers) -> bool {
    &&& t.next_blink <= MAX_TIME_MS + CURSOR_BLINK_MS
    &&& (t.last_resize matches Some(r) ==> r <= MAX_TIME_MS)
    &&& (t.font_save_pending matches Some(f) ==> f <= MAX_TIME_MS)
}

/// The actions of a tick at `now`.
pub open spec fn tick_actions(t: Timers, now: u64) -> TickActions {
    let blink = now >= t.next_blink;
    let rebuild = t.last_resize matches Some(r) && elapsed(now, r) >= RESIZE_DEBOUNCE_MS;
    TickActions {
        toggle_cursor: blink,
        rebuild_layout: rebuild,
        save_font: t.font_save_pending matches Some(f) && elapsed(now, f) >= FONT_SAVE_DEBOUNCE_MS,
        redraw: blink || rebuild,
    }
}

/// The timers after a tick at `now`: the blink rescheduled when it fired,
/// settled work forgotten.
pub open spec fn ticked(t: Timers, now: u64) -> Timers {
    let a = tick_actions(t, now);
    Timers {
        next_blink: if a.toggle_cursor {
            (now + CURSOR_BLINK_MS) as u64
        } else {
            t.next_blink
        },
        last_resize: if a.rebuild_layout {
            None
        } else {
            t.last_resize
        },
        font_save_pending: if a.save_font {
            None
        } else {
            t.font_save_pending
        },
    }
}

/// The earliest pending time: the next blink, a settling resize or font
/// change, and, while networking runs, the next poll.
pub open spec fn wake_time(t: Timers, now: u64, polling: bool) -> int {
    let d0 = t.next_blink as int;
    let d1 = match t.last_resize {
        Some(r) => min(d0, r + RESIZE_DEBOUNCE_MS),
        None => d0,
    };
    let d2 = match t.font_save_pending {
        Some(f) => min(d1, f + FONT_SAVE_DEBOUNCE_MS),
        None => d1,
    };
    if polling {
        min(d2, now + NET_POLL_MS)
    } else {
        d2
    }
}

pub open spec fn min(a: int, b: int) -> int {
    if a <= b {
        a
    } else {
        b
    }
}

fn elapsed_ms(now: u64, since: u64) -> (r: u64)
    ensures
        r == elapsed(now, since),
{
    if now >= since {
        now - since
    } else {
        0
    }
}

impl Timers {
    /// Timers for a loop started at `now`: the first blink one period later.
    pub fn new(now: u64) -> (r: Timers)
        requires
            now <= MAX_TIME_MS,
        ensures
            r == (Timers { next_blink: (now + CURSOR_BLINK_MS) as u64, last_resize: None, font_save_pending: None }),
            timers_ok(r),
    {
        Timers { next_blink: now + CURSOR_BLINK_MS, last_resize: None, font_save_pending: None }
    }

    /// Runs the timed decisions of an idle tick at `now`.
    pub fn tick(&mut self, now: u64) -> (r: TickActions)
        requires
            timers_ok(*old(self)),
            now <= MAX_TIME_MS,
        ensures
            r == tick_actions(*old(self), now),
            *final(self) == ticked(*old(self), now),
            timers_ok(*final(self)),
    {
        let mut actions = TickActions {
            toggle_cursor: false,
            rebuild_layout: false,
            save_font: false,
            redraw: false,
        };
        if now >= self.next_blink {
            self.next_blink = now + CURSOR_BLINK_MS;
            actions.toggle_cursor = true;
            actions.redraw = true;
        }
        match self.last_resize {
            Some(t) => {
                if elapsed_ms(now, t) >= RESIZE_DEBOUNCE_MS {
                    self.last_resize = None;
                    actions.rebuild_layout = true;
                    actions.redraw = true;
                }
            },
            None => {},
        }
        match self.font_save_pending {
            Some(t) => {
                if elapsed_ms(now, t) >= FONT_SAVE_DEBOUNCE_MS {
                    self.font_save_pending = None;
                    actions.save_font = true;
                }
            },
            None => {},
        }
        actions
    }

    /// When the loop must wake up next.
    pub fn deadline(&self, now: u64, polling: bool) -> (r: u64)
        requires
            timers_ok(*self),
            now <= MAX_TIME_MS,
        ensures
            r == wake_time(*self, now, polling),
    {
        let mut d = self.next_blink;
        match self.last_resize {
            Some(t) => {
                if t + RESIZE_DEBOUNCE_MS < d {
                    d = t + RESIZE_DEBOUNCE_MS;
                }
            },
            None => {},
        }
        match self.font_save_pending {
            Some(t) => {
                if t + FONT_SAVE_DEBOUNCE_MS < d {
                    d = t + FONT_SAVE_DEBOUNCE_MS;
                }
            },
            None => {},
        }
        if polling && now + NET_POLL_MS < d {
            d = now + NET_POLL_MS;
        }
        d
    }

    /// Shows the cursor and restarts its blink period at `now`.
    pub fn reset_blink(&mut self, cursor_visible: &mut bool, now: u64)
        requires
            timers_ok(*old(self)),
            now <= MAX_TIME_MS,
        ensures
            *final(cursor_visible),
            timers_ok(*final(self)),
            final(self).next_blink == now + CURSOR_BLINK_MS,
            final(self).last_resize == old(self).last_resize,
            final(self).font_save_pending == old(self).font_save_pending,
    {
        *cursor_visible = true;
        self.next_blink = now + CURSOR_BLINK_MS;
    }
}

/// After a tick, the loop never sleeps until a time already past: every
/// pending deadline lies after `now`.
pub proof fn law_tick_wakes_in_future(t: Timers, now: u64, polling: bool)
    requires
        timers_ok(t),
        now <= MAX_TIME_MS,
    ensures
        wake_time(ticked(t, now), now, polling) > now,
{
}

/// Address used when none is configured.
pub const DEFAULT_SERVER_URL: &'static str = "ws://localhost:7878";

/// Server address and shared key to connect with: the configured address
/// (or [`DEFAULT_SERVER_URL`]) when a non-empty key is configured; without
/// one the application runs without networking.
pub fn network_settings(server_url: Option<String>, shared_key: Option<String>) -> (r: Option<(String, String)>)
    ensures
        match r {
            Some((url, key)) => shared_key matches Some(k) && k@.len() > 0 && key@ == k@
                && url@ == match server_url {
                Some(u) => u@,
                None => DEFAULT_SERVER_URL@,
            },
            None => !(shared_key matches Some(k) && k@.len() > 0),
        },
{
    let key = match shared_key {
        Some(k) => {
            if k.as_str().unicode_len() == 0 {
                return None;
            }
            k
        },
        None => {
            return None;
        },
    };
    let url = match server_url {
        Some(u) => u,
        None => DEFAULT_SERVER_URL.to_owned(),
    };
    Some((url, key))
}

} // verus!
