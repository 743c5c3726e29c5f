//! Keyboard events reduced to the semantic actions the shell dispatches on:
//! cmd (super) and option (alt) chords over single characters.
use vstd::prelude::*;
use vstd::string::StringExecFns;

verus! {

/// Modifier keys held while a key event arrives.
#[derive(Debug, Clone, Copy, PartialEq, Eq)]
pub struct Modifiers {
    pub super_key: bool,
    pub alt_key: bool,
    pub shift_key: bool,
    pub control_key: bool,
}

/// The named (non-character) keys the shell reacts to.
#[derive(Debug, Clone, Copy, PartialEq, Eq)]
pub enum NamedKey {
    Enter,
    Escape,
    Backspace,
    Delete,
    ArrowLeft,
    ArrowRight,
    ArrowUp,
    ArrowDown,
    PageUp,
    PageDown,
    /// Any other named key.
    Other,
}

/// The logical meaning of a key, after keyboard layout.
#[derive(Debug, Clone)]
pub enum LogicalKey {
    Named(NamedKey),
    /// A key that produces text; the string is that text.
    Character(String),
    /// A dead key or a key the platform could not identify.
    Unidentified,
}

/// One key event.
#[derive(Debug, Clone)]
pub struct KeyInput {
    /// `true` for a press, `false` for a release.
    pub pressed: bool,
    pub logical_key: LogicalKey,
    /// Text the key produced, if any.
    pub text: Option<String>,
    /// Debug rendering of the platform's logical key, used in descriptions.
    pub key_debug: String,
}

/// Semantic keyboard action.
#[derive(Debug, Clone, PartialEq, Eq)]
pub enum KeyAction {
    /// `Cmd + 0..=9` — workspace tab switch.
    CmdDigit(u8),
    /// `Cmd + <letter>` — generic command. The letter is lowercased.
    CmdLetter(char),
    /// `Cmd + \`` — cycle workspaces.
    CmdBackquote,
    /// `Cmd + Shift + \`` — reverse-cycle workspaces (Cmd+~ on US layout).
    CmdShiftBackquote,
    /// `Option + \`` — alternate cycle.
    OptionBackquote,
    /// `Cmd + W` — close current window/tab.
    CmdW,
    /// `Cmd + N` — new workspace.
    CmdN,
    /// Escape pressed (no modifiers).
    Escape,
    /// Anything else; the inner string is a debug-friendly description.
    Other(String),
}

pub open spec fn is_ascii_digit(c: char) -> bool {
    '0' <= c <= '9'
}

pub open spec fn is_ascii_alphabetic(c: char) -> bool {
    ('a' <= c <= 'z') || ('A' <= c <= 'Z')
}

/// ASCII upper-case letters map to lower case; everything else is kept.
pub open spec fn ascii_lowercase(c: char) -> char {
    if 'A' <= c <= 'Z' {
        ((c as u32) + 32) as char
    } else {
        c
    }
}

/// The action for a pressed single-character key `c`, when it is one.
pub open spec fn char_action(c: char, m: Modifiers) -> Option<KeyAction> {
    let cmd = m.super_key;
    let alt = m.alt_key;
    let shift = m.shift_key;
    if cmd && is_ascii_digit(c) {
        Some(KeyAction::CmdDigit(((c as u32) - ('0' as u32)) as u8))
    } else if c == '`' && cmd && shift {
        Some(KeyAction::CmdShiftBackquote)
    } else if c == '~' && cmd {
        Some(KeyAction::CmdShiftBackquote)
    } else if c == '`' && cmd {
        Some(KeyAction::CmdBackquote)
    } else if c == '`' && alt {
        Some(KeyAction::OptionBackquote)
    } else if (c == 'w' || c == 'W') && cmd {
        Some(KeyAction::CmdW)
    } else if (c == 'n' || c == 'N') && cmd {
        Some(KeyAction::CmdN)
    } else if cmd && is_ascii_alphabetic(c) {
        Some(KeyAction::CmdLetter(ascii_lowercase(c)))
    } else {
        None
    }
}

/// The action other than `Other` that an event translates to, if any.
pub open spec fn translated(key: LogicalKey, pressed: bool, m: Modifiers) -> Option<KeyAction> {
    if !pressed {
        None
    } else {
        match key {
            LogicalKey::Named(NamedKey::Escape) => {
                if !m.super_key && !m.alt_key {
                    Some(KeyAction::Escape)
                } else {
                    None
                }
            },
            LogicalKey::Character(s) => {
                if s@.len() == 1 {
                    char_action(s@[0], m)
                } else {
                    None
                }
            },
            _ => None,
        }
    }
}

/// The upper-case form of the ASCII lower-case letter `c`.
pub open spec fn ascii_upper(c: char) -> char {
    ((c as u32) - 32) as char
}

/// Cmd shortcuts on letters ignore case: Cmd with `w` or `W` closes
/// (`CmdW`), with `n` or `N` opens a workspace (`CmdN`), with any other
/// letter gives that letter in lower case, and with a digit gives the
/// digit's value.
pub proof fn law_cmd_letters(lower: String, upper: String, m: Modifiers)
    requires
        m.super_key,
        lower@.len() == 1,
        'a' <= lower@[0] <= 'z',
        upper@ == seq![ascii_upper(lower@[0])],
    ensures
        translated(LogicalKey::Character(lower), true, m) == translated(
            LogicalKey::Character(upper),
            true,
            m,
        ),
        lower@[0] == 'w' ==> translated(LogicalKey::Character(lower), true, m) == Some(
            KeyAction::CmdW,
        ),
        lower@[0] == 'n' ==> translated(LogicalKey::Character(lower), true, m) == Some(
            KeyAction::CmdN,
        ),
        lower@[0] != 'w' && lower@[0] != 'n' ==> translated(LogicalKey::Character(lower), true, m)
            == Some(KeyAction::CmdLetter(lower@[0])),
{
    let c = lower@[0];
    let u = ascii_upper(c);
    assert('A' <= u <= 'Z');
    assert(ascii_lowercase(u) == c);
    assert(u != '`' && u != '~' && !is_ascii_digit(u));
}

/// Cmd with a digit gives that digit's value.
pub proof fn law_cmd_digits(s: String, m: Modifiers)
    requires
        m.super_key,
        s@.len() == 1,
        '0' <= s@[0] <= '9',
    ensures
        translated(LogicalKey::Character(s), true, m) == Some(
            KeyAction::CmdDigit(((s@[0] as u32) - ('0' as u32)) as u8),
        ),
{
}

/// Escape without Cmd or Alt is `Escape`; a released key is never an action.
pub proof fn law_escape_and_release(key: LogicalKey, m: Modifiers)
    ensures
        !m.super_key && !m.alt_key ==> translated(LogicalKey::Named(NamedKey::Escape), true, m)
            == Some(KeyAction::Escape),
        translated(key, false, m) is None,
{
}

/// Name of the text `format!("{:?}", s)` gives for a string `s`: the
/// string quoted and escaped.
pub uninterp spec fn debug_quoted(s: Seq<char>) -> Seq<char>;

/// `bool`'s display text.
pub open spec fn bool_text(b: bool) -> Seq<char> {
    if b {
        seq!['t', 'r', 'u', 'e']
    } else {
        seq!['f', 'a', 'l', 's', 'e']
    }
}

/// ` cmd=… alt=… shift=…`.
pub open spec fn modifier_text(m: Modifiers) -> Seq<char> {
    " cmd="@ + bool_text(m.super_key) + " alt="@ + bool_text(m.alt_key) + " shift="@ + bool_text(
        m.shift_key,
    )
}

/// The description carried by `Other`.
pub open spec fn other_text(key: LogicalKey, key_debug: Seq<char>, pressed: bool, m: Modifiers) -> Seq<char> {
    if !pressed {
        "release "@ + key_debug
    } else {
        match key {
            LogicalKey::Character(s) => "char "@ + debug_quoted(s@) + modifier_text(m),
            _ => "key "@ + key_debug + modifier_text(m),
        }
    }
}

/// `format!("{:?}", s)`: the string in double quotes, with the escapes of
/// `str::escape_debug`.
#[verifier::external_body]
pub(crate) fn debug_quote(s: &str) -> (r: String)
    ensures
        r@ == debug_quoted(s@),
{
    format!("{:?}", s)
}

/// `c` in lower case when it is an ASCII letter, as
/// `char::to_ascii_lowercase` gives it.
fn char_to_ascii_lowercase(c: char) -> (r: char)
    ensures
        r == ascii_lowercase(c),
{
    if 'A' <= c && c <= 'Z' {
        let b = (c as u32 + 32) as u8;
        b as char
    } else {
        c
    }
}

fn push_bool(out: &mut String, b: bool)
    ensures
        final(out)@ == old(out)@ + bool_text(b),
{
    if b {
        out.append("true");
        proof {
            reveal_strlit("true");
        }
    } else {
        out.append("false");
        proof {
            reveal_strlit("false");
        }
    }
}

fn describe_modifiers(out: &mut String, m: Modifiers)
    ensures
        final(out)@ == old(out)@ + modifier_text(m),
{
    out.append(" cmd=");
    push_bool(out, m.super_key);
    out.append(" alt=");
    push_bool(out, m.alt_key);
    out.append(" shift=");
    push_bool(out, m.shift_key);
    assert(final(out)@ =~= old(out)@ + modifier_text(m));
}

fn single_char_action(c: char, m: Modifiers) -> (r: Option<KeyAction>)
    ensures
        r == char_action(c, m),
{
    let cmd = m.super_key;
    let alt = m.alt_key;
    let shift = m.shift_key;
    if cmd && '0' <= c && c <= '9' {
        let d = (c as u32) - ('0' as u32);
        Some(KeyAction::CmdDigit(d as u8))
    } else if c == '`' && cmd && shift {
        Some(KeyAction::CmdShiftBackquote)
    } else if c == '~' && cmd {
        Some(KeyAction::CmdShiftBackquote)
    } else if c == '`' && cmd {
        Some(KeyAction::CmdBackquote)
    } else if c == '`' && alt {
        Some(KeyAction::OptionBackquote)
    } else if (c == 'w' || c == 'W') && cmd {
        Some(KeyAction::CmdW)
    } else if (c == 'n' || c == 'N') && cmd {
        Some(KeyAction::CmdN)
    } else if cmd && (('a' <= c && c <= 'z') || ('A' <= c && c <= 'Z')) {
        Some(KeyAction::CmdLetter(char_to_ascii_lowercase(c)))
    } else {
        None
    }
}

/// Translates a key event and the current modifiers into a [`KeyAction`].
/// Only presses produce actions other than `Other`; a release is described
/// as `release <key>`.
pub fn translate(event: &KeyInput, modifiers: Modifiers) -> (r: KeyAction)
    ensures
        match translated(event.logical_key, event.pressed, modifiers) {
            Some(a) => r == a,
            None => r matches KeyAction::Other(s) && s@ == other_text(
                event.logical_key,
                event.key_debug@,
                event.pressed,
                modifiers,
            ),
        },
        !event.pressed ==> r is Other,
        r matches KeyAction::CmdDigit(d) ==> d <= 9,
        r matches KeyAction::CmdLetter(c) ==> 'a' <= c <= 'z',
{
    if !event.pressed {
        let mut s = "release ".to_owned();
        s.append(event.key_debug.as_str());
        proof {
            reveal_strlit("release ");
        }
        return KeyAction::Other(s);
    }
    match &event.logical_key {
        LogicalKey::Named(NamedKey::Escape) => {
            if !modifiers.super_key && !modifiers.alt_key {
                return KeyAction::Escape;
            }
        },
        LogicalKey::Character(s) => {
            let text = s.as_str();
            if text.unicode_len() == 1 {
                let c = text.get_char(0);
                match single_char_action(c, modifiers) {
                    Some(a) => {
                        return a;
                    },
                    None => {},
                }
            }
            let mut out = "char ".to_owned();
            let q = debug_quote(text);
            out.append(q.as_str());
            describe_modifiers(&mut out, modifiers);
            proof {
                reveal_strlit("char ");
                assert(out@ =~= other_text(event.logical_key, event.key_debug@, event.pressed, modifiers));
            }
            return KeyAction::Other(out);
        },
        _ => {},
    }
    let mut out = "key ".to_owned();
    out.append(event.key_debug.as_str());
    describe_modifiers(&mut out, modifiers);
    proof {
        reveal_strlit("key ");
        assert(out@ =~= other_text(event.logical_key, event.key_debug@, event.pressed, modifiers));
    }
    KeyAction::Other(out)
}

} // verus!
