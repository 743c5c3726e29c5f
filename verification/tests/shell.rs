use pi_oven::config::font_size_values;
use pi_oven::editor::InputEditor;
use pi_oven::keys::{translate, KeyAction, KeyInput, LogicalKey, Modifiers, NamedKey};
use pi_oven::protocol::{Msg, ReplayEntry, WorkspaceInfo};
use pi_oven::shell::{
    apply_key_command, font_step, process_msg, status_after, AgentStatusKind, FontStep,
    WorkspaceState, key_command, network_settings, terminal_key_command, KeyCommand, Scroll,
    TerminalKey, Timers, DEFAULT_SERVER_URL,
};

const NONE: Modifiers = Modifiers { super_key: false, alt_key: false, shift_key: false, control_key: false };
const CMD: Modifiers = Modifiers { super_key: true, alt_key: false, shift_key: false, control_key: false };
const ALT: Modifiers = Modifiers { super_key: false, alt_key: true, shift_key: false, control_key: false };
const CTRL: Modifiers = Modifiers { super_key: false, alt_key: false, shift_key: false, control_key: true };
const CMD_SHIFT: Modifiers = Modifiers { super_key: true, alt_key: false, shift_key: true, control_key: false };
const SHIFT: Modifiers = Modifiers { super_key: false, alt_key: false, shift_key: true, control_key: false };

fn chr(s: &str) -> KeyInput {
    KeyInput {
        pressed: true,
        logical_key: LogicalKey::Character(s.to_string()),
        text: Some(s.to_string()),
        key_debug: format!("Character({s:?})"),
    }
}

fn named(n: NamedKey, debug: &str) -> KeyInput {
    KeyInput { pressed: true, logical_key: LogicalKey::Named(n), text: None, key_debug: debug.to_string() }
}

#[test]
fn cmd_digits_and_letters() {
    assert_eq!(translate(&chr("3"), CMD), KeyAction::CmdDigit(3));
    assert_eq!(translate(&chr("0"), CMD), KeyAction::CmdDigit(0));
    assert_eq!(translate(&chr("Q"), CMD), KeyAction::CmdLetter('q'));
    assert_eq!(translate(&chr("c"), CMD), KeyAction::CmdLetter('c'));
    assert_eq!(translate(&chr("w"), CMD), KeyAction::CmdW);
    assert_eq!(translate(&chr("N"), CMD), KeyAction::CmdN);
}

#[test]
fn backquote_chords() {
    assert_eq!(translate(&chr("`"), CMD), KeyAction::CmdBackquote);
    assert_eq!(translate(&chr("`"), CMD_SHIFT), KeyAction::CmdShiftBackquote);
    assert_eq!(translate(&chr("~"), CMD), KeyAction::CmdShiftBackquote);
    assert_eq!(translate(&chr("`"), ALT), KeyAction::OptionBackquote);
}

#[test]
fn escape_only_without_cmd_or_alt() {
    assert_eq!(translate(&named(NamedKey::Escape, "Named(Escape)"), NONE), KeyAction::Escape);
    assert_eq!(
        translate(&named(NamedKey::Escape, "Named(Escape)"), CMD),
        KeyAction::Other("key Named(Escape) cmd=true alt=false shift=false".to_string())
    );
}

#[test]
fn other_keys_are_described() {
    assert_eq!(
        translate(&chr("a"), NONE),
        KeyAction::Other("char \"a\" cmd=false alt=false shift=false".to_string())
    );
    assert_eq!(
        translate(&chr("ab"), CMD),
        KeyAction::Other("char \"ab\" cmd=true alt=false shift=false".to_string())
    );
    assert_eq!(
        translate(&chr("\""), ALT),
        KeyAction::Other("char \"\\\"\" cmd=false alt=true shift=false".to_string())
    );
    assert_eq!(
        translate(&named(NamedKey::ArrowUp, "Named(ArrowUp)"), SHIFT),
        KeyAction::Other("key Named(ArrowUp) cmd=false alt=false shift=true".to_string())
    );
}

#[test]
fn releases_are_other() {
    let mut k = chr("q");
    k.pressed = false;
    assert_eq!(translate(&k, CMD), KeyAction::Other("release Character(\"q\")".to_string()));
}

#[test]
fn clipboard_and_quit_commands() {
    assert_eq!(key_command(&KeyAction::CmdLetter('q'), &chr("q"), CMD), KeyCommand::Quit);
    assert_eq!(key_command(&KeyAction::CmdLetter('c'), &chr("c"), CMD), KeyCommand::Copy);
    assert_eq!(key_command(&KeyAction::CmdLetter('x'), &chr("x"), CMD), KeyCommand::Cut);
    assert_eq!(key_command(&KeyAction::CmdLetter('v'), &chr("v"), CMD), KeyCommand::Paste);
    assert_eq!(key_command(&KeyAction::CmdLetter('z'), &chr("z"), CMD), KeyCommand::Ignore);
}

#[test]
fn editing_keys_map_to_editor_operations() {
    let other = KeyAction::Other(String::new());
    let bs = named(NamedKey::Backspace, "Named(Backspace)");
    assert_eq!(key_command(&other, &bs, NONE), KeyCommand::DeleteBefore);
    assert_eq!(key_command(&other, &bs, ALT), KeyCommand::DeleteWordBefore);
    assert_eq!(key_command(&other, &bs, CMD), KeyCommand::DeleteToStart);
    let left = named(NamedKey::ArrowLeft, "Named(ArrowLeft)");
    assert_eq!(key_command(&other, &left, SHIFT), KeyCommand::MoveLeft(true));
    assert_eq!(key_command(&other, &left, ALT), KeyCommand::MoveWordLeft(false));
    assert_eq!(key_command(&other, &left, CMD_SHIFT), KeyCommand::MoveToStart(true));
    let right = named(NamedKey::ArrowRight, "Named(ArrowRight)");
    assert_eq!(key_command(&other, &right, CMD), KeyCommand::MoveToEnd(false));
    assert_eq!(key_command(&other, &named(NamedKey::Delete, "d"), NONE), KeyCommand::DeleteAfter);
    assert_eq!(key_command(&other, &named(NamedKey::PageUp, "p"), NONE), KeyCommand::ScrollUp(10));
    assert_eq!(key_command(&other, &named(NamedKey::ArrowDown, "d"), NONE), KeyCommand::ScrollDown(1));
    assert_eq!(key_command(&other, &named(NamedKey::ArrowUp, "u"), ALT), KeyCommand::Ignore);
    assert_eq!(key_command(&other, &named(NamedKey::Enter, "e"), ALT), KeyCommand::Submit { followup: true });
    assert_eq!(key_command(&other, &named(NamedKey::Enter, "e"), CMD), KeyCommand::Ignore);
    assert_eq!(key_command(&other, &named(NamedKey::Escape, "e"), CMD), KeyCommand::Escape);
}

#[test]
fn typing_inserts_text() {
    let other = KeyAction::Other(String::new());
    assert_eq!(key_command(&other, &chr("é"), SHIFT), KeyCommand::Insert("é".to_string()));
    assert_eq!(key_command(&other, &chr("a"), CTRL), KeyCommand::Ignore);
    let mut k = chr("k");
    k.text = Some(String::new());
    assert_eq!(key_command(&other, &k, NONE), KeyCommand::Insert("k".to_string()));
    let mut k = named(NamedKey::Other, "Named(Tab)");
    k.text = Some("\t".to_string());
    assert_eq!(key_command(&other, &k, NONE), KeyCommand::Insert("\t".to_string()));
    assert_eq!(key_command(&other, &named(NamedKey::Other, "Named(F1)"), NONE), KeyCommand::Ignore);
    let mut k = chr("a");
    k.pressed = false;
    assert_eq!(key_command(&other, &k, NONE), KeyCommand::Ignore);
}

#[test]
fn applying_commands_edits_and_scrolls() {
    let mut ed = InputEditor::default();
    let mut sc = Scroll { offset: 0, follow: true };
    let r = apply_key_command(&mut ed, &mut sc, AgentStatusKind::Idle, &KeyCommand::Insert("hello world".to_string()));
    assert!(r.changed && r.submitted.is_none() && r.send.is_none());
    apply_key_command(&mut ed, &mut sc, AgentStatusKind::Idle, &KeyCommand::DeleteWordBefore);
    assert_eq!(ed.text(), "hello ");
    apply_key_command(&mut ed, &mut sc, AgentStatusKind::Idle, &KeyCommand::MoveToStart(true));
    assert_eq!(ed.selection(), Some((0, 6)));
    let r = apply_key_command(&mut ed, &mut sc, AgentStatusKind::Idle, &KeyCommand::ScrollUp(10));
    assert!(r.changed);
    assert_eq!(sc, Scroll { offset: 10, follow: false });
    apply_key_command(&mut ed, &mut sc, AgentStatusKind::Idle, &KeyCommand::ScrollDown(1));
    assert_eq!(sc, Scroll { offset: 9, follow: false });
    apply_key_command(&mut ed, &mut sc, AgentStatusKind::Idle, &KeyCommand::ScrollDown(10));
    assert_eq!(sc, Scroll { offset: 0, follow: true });
    let r = apply_key_command(&mut ed, &mut sc, AgentStatusKind::Idle, &KeyCommand::Copy);
    assert!(!r.changed);
    assert_eq!(ed.text(), "hello ");
}

#[test]
fn submit_takes_and_clears_the_line() {
    let mut ed = InputEditor::default();
    let mut sc = Scroll { offset: 3, follow: false };
    let r = apply_key_command(&mut ed, &mut sc, AgentStatusKind::Idle, &KeyCommand::Submit { followup: false });
    assert!(r.changed);
    assert_eq!(r.submitted, None);
    assert!(r.send.is_none());
    ed.push_str("ship it");
    let r = apply_key_command(&mut ed, &mut sc, AgentStatusKind::Idle, &KeyCommand::Submit { followup: true });
    assert_eq!(r.submitted.as_deref(), Some("ship it"));
    assert!(matches!(r.send, Some(Msg::Send { workspace_id: 1, ref text, ref queue_mode })
        if text == "ship it" && queue_mode == "followup"));
    assert_eq!(ed.text(), "");
    assert_eq!(sc, Scroll { offset: 3, follow: false });
}

#[test]
fn scroll_saturates() {
    let mut sc = Scroll { offset: usize::MAX - 1, follow: true };
    sc.scroll_up(10);
    assert_eq!(sc, Scroll { offset: usize::MAX, follow: false });
    let mut sc = Scroll { offset: 2, follow: false };
    sc.scroll_down(1);
    assert_eq!(sc, Scroll { offset: 1, follow: false });
}

#[test]
fn terminal_keys() {
    assert_eq!(terminal_key_command(TerminalKey::Esc, NONE), KeyCommand::Escape);
    assert_eq!(terminal_key_command(TerminalKey::Esc, ALT), KeyCommand::Ignore);
    assert_eq!(terminal_key_command(TerminalKey::Enter, ALT), KeyCommand::Submit { followup: true });
    assert_eq!(terminal_key_command(TerminalKey::Enter, CTRL), KeyCommand::Ignore);
    assert_eq!(terminal_key_command(TerminalKey::PageDown, CMD), KeyCommand::ScrollDown(10));
    assert_eq!(terminal_key_command(TerminalKey::Left, SHIFT), KeyCommand::MoveLeft(false));
    assert_eq!(terminal_key_command(TerminalKey::Char('c'), CTRL), KeyCommand::Copy);
    assert_eq!(terminal_key_command(TerminalKey::Char('a'), CTRL), KeyCommand::Insert("a".to_string()));
    assert_eq!(terminal_key_command(TerminalKey::Char('ß'), NONE), KeyCommand::Insert("ß".to_string()));
}

#[test]
fn timers_blink_and_debounce() {
    let mut t = Timers::new(1000);
    assert_eq!(t.next_blink, 1530);
    let a = t.tick(1200);
    assert!(!a.toggle_cursor && !a.redraw && !a.rebuild_layout && !a.save_font);
    assert_eq!(t.deadline(1200, false), 1530);
    assert_eq!(t.deadline(1200, true), 1216);
    t.last_resize = Some(1210);
    t.font_save_pending = Some(1220);
    assert_eq!(t.deadline(1230, false), 1260);
    let a = t.tick(1255);
    assert!(!a.rebuild_layout);
    let a = t.tick(1260);
    assert!(a.rebuild_layout && a.redraw && !a.save_font && !a.toggle_cursor);
    assert_eq!(t.last_resize, None);
    assert_eq!(t.deadline(1260, false), 1530);
    let a = t.tick(1530);
    assert!(a.toggle_cursor && a.redraw);
    assert_eq!(t.next_blink, 2060);
    assert_eq!(t.deadline(1530, false), 1720);
    let a = t.tick(1720);
    assert!(a.save_font && !a.redraw);
    assert_eq!(t.font_save_pending, None);
    assert!(t.deadline(1720, true) > 1720);
}

#[test]
fn reset_blink_shows_cursor() {
    let mut t = Timers::new(0);
    let mut visible = false;
    t.reset_blink(&mut visible, 100);
    assert!(visible);
    assert_eq!(t.next_blink, 630);
}

#[test]
fn networking_needs_a_key() {
    assert_eq!(network_settings(None, None), None);
    assert_eq!(network_settings(Some("ws://x".to_string()), Some(String::new())), None);
    assert_eq!(
        network_settings(None, Some("k".to_string())),
        Some((DEFAULT_SERVER_URL.to_string(), "k".to_string()))
    );
    assert_eq!(DEFAULT_SERVER_URL, "ws://localhost:7878");
    assert_eq!(
        network_settings(Some("ws://h:1".to_string()), Some("k".to_string())),
        Some(("ws://h:1".to_string(), "k".to_string()))
    );
}

#[test]
fn font_size_lines_are_found_in_order() {
    let content = "# prefs\n  font_size = 20.5  \nfont_size=oops\r\nfontsize = 3\nfont_size\u{3000}= 14\nfont_size";
    assert_eq!(font_size_values(content), vec!["20.5", "oops", "= 14", ""]);
    assert!(font_size_values("").is_empty());
    assert_eq!(font_size_values("font_size == = 7"), vec!["7"]);
    assert_eq!(font_size_values("\n\nfont_size 9\n"), vec!["9"]);
}

#[test]
fn enter_steers_and_alt_enter_follows_up() {
    let mut ed = InputEditor::default();
    let mut sc = Scroll { offset: 0, follow: true };
    ed.push_str("fix the test");
    let r = apply_key_command(&mut ed, &mut sc, AgentStatusKind::Running, &KeyCommand::Submit { followup: false });
    assert!(matches!(r.send, Some(Msg::Send { workspace_id: 1, ref text, ref queue_mode })
        if text == "fix the test" && queue_mode == "steer"));
    assert_eq!(r.submitted.as_deref(), Some("fix the test"));
    assert_eq!(ed.text(), "");
}

#[test]
fn escape_aborts_only_a_running_turn() {
    let mut ed = InputEditor::default();
    ed.push_str("draft");
    let mut sc = Scroll { offset: 2, follow: false };
    let r = apply_key_command(&mut ed, &mut sc, AgentStatusKind::Running, &KeyCommand::Escape);
    assert!(matches!(r.send, Some(Msg::Abort { workspace_id: 1 })));
    assert!(!r.changed && r.submitted.is_none());
    assert_eq!(ed.text(), "draft");
    assert_eq!(sc, Scroll { offset: 2, follow: false });
    let r = apply_key_command(&mut ed, &mut sc, AgentStatusKind::Idle, &KeyCommand::Escape);
    assert!(r.send.is_none());
}

#[test]
fn agent_status_messages_set_the_status() {
    let running = Msg::AgentStatus { workspace_id: 1, status: "running".to_string() };
    let idle = Msg::AgentStatus { workspace_id: 1, status: "idle".to_string() };
    assert_eq!(status_after(AgentStatusKind::Idle, &running), AgentStatusKind::Running);
    assert_eq!(status_after(AgentStatusKind::Running, &idle), AgentStatusKind::Idle);
    assert_eq!(status_after(AgentStatusKind::Running, &Msg::Ping { ts_ms: 1 }), AgentStatusKind::Running);
    let odd = Msg::AgentStatus { workspace_id: 1, status: "runnin".to_string() };
    assert_eq!(status_after(AgentStatusKind::Running, &odd), AgentStatusKind::Idle);
}

fn workspace(last_seq: u64) -> WorkspaceState {
    WorkspaceState { last_seq, status: AgentStatusKind::Idle, events: Vec::new() }
}

#[test]
fn welcome_resumes_every_workspace_after_the_last_event() {
    let mut ws = workspace(41);
    let welcome = Msg::Welcome {
        server_version: "1".to_string(),
        workspaces: vec![WorkspaceInfo { workspace_id: 1 }, WorkspaceInfo { workspace_id: 7 }],
    };
    let out = process_msg(&mut ws, &welcome);
    assert_eq!(out.len(), 2);
    assert!(matches!(out[0], Msg::Resume { workspace_id: 1, last_seq: 41 }));
    assert!(matches!(out[1], Msg::Resume { workspace_id: 7, last_seq: 41 }));
    assert_eq!(ws.last_seq, 41);
    assert!(ws.events.is_empty());
}

#[test]
fn replay_and_events_append_and_advance() {
    let mut ws = workspace(0);
    let batch = Msg::ReplayBatch {
        workspace_id: 1,
        events: vec![
            ReplayEntry { seq: 1, event: "one".to_string() },
            ReplayEntry { seq: 2, event: "two".to_string() },
        ],
        latest_seq: 2,
    };
    assert!(process_msg(&mut ws, &batch).is_empty());
    assert_eq!(ws.events, vec!["one", "two"]);
    assert_eq!(ws.last_seq, 2);
    let ev = Msg::AgentEvent { workspace_id: 1, seq: 3, event: "three".to_string() };
    assert!(process_msg(&mut ws, &ev).is_empty());
    assert_eq!(ws.events, vec!["one", "two", "three"]);
    assert_eq!(ws.last_seq, 3);
    let st = Msg::AgentStatus { workspace_id: 1, status: "running".to_string() };
    assert!(process_msg(&mut ws, &st).is_empty());
    assert_eq!(ws.status, AgentStatusKind::Running);
    assert!(process_msg(&mut ws, &Msg::Ping { ts_ms: 1 }).is_empty());
    assert_eq!(ws.last_seq, 3);
    assert_eq!(ws.status, AgentStatusKind::Running);
}

#[test]
fn cmd_plus_and_minus_step_the_font() {
    assert_eq!(font_step(&chr("="), CMD), Some(FontStep::Grow));
    assert_eq!(font_step(&chr("+"), CMD_SHIFT), Some(FontStep::Grow));
    assert_eq!(font_step(&chr("-"), CMD), Some(FontStep::Shrink));
    assert_eq!(font_step(&chr("-"), NONE), None);
    assert_eq!(font_step(&chr("q"), CMD), None);
    let mut k = chr("=");
    k.pressed = false;
    assert_eq!(font_step(&k, CMD), None);
    assert_eq!(font_step(&named(NamedKey::Enter, "Named(Enter)"), CMD), None);
}
