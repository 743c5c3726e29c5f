use pi_oven::editor::InputEditor;
use pi_oven::shell::Scroll;

fn editor_with(text: &str) -> InputEditor {
    let mut ed = InputEditor::default();
    ed.push_str(text);
    ed
}

#[test]
fn backspace_undoes_a_typed_character() {
    let mut ed = editor_with("añb");
    ed.move_left(false);
    let (text, cursor) = (ed.text().to_string(), ed.cursor_byte_pos());
    ed.push_str("€");
    assert_eq!(ed.text(), "añ€b");
    ed.delete_before();
    assert_eq!(ed.text(), text);
    assert_eq!(ed.cursor_byte_pos(), cursor);
    assert_eq!(ed.selection(), None);
}

#[test]
fn cut_then_paste_restores_the_text() {
    let mut ed = editor_with("hello wörld");
    ed.move_word_left(true);
    let cut = ed.selected_text().unwrap();
    assert_eq!(cut, "wörld");
    ed.delete_selection();
    assert_eq!(ed.text(), "hello ");
    ed.push_str(&cut);
    assert_eq!(ed.text(), "hello wörld");
}

#[test]
fn left_then_right_returns() {
    let mut ed = editor_with("aé");
    let at = ed.cursor_byte_pos();
    ed.move_left(false);
    ed.move_right(false);
    assert_eq!(ed.cursor_byte_pos(), at);
}

#[test]
fn right_then_left_returns() {
    let mut ed = editor_with("éa");
    ed.move_to_start(false);
    ed.move_right(false);
    assert_eq!(ed.cursor_byte_pos(), 2);
    ed.move_right(false);
    ed.move_left(false);
    assert_eq!(ed.cursor_byte_pos(), 2);
}

#[test]
fn select_all_selects_the_whole_text() {
    let mut ed = editor_with("ab cd");
    ed.move_left(false);
    ed.move_to_start(false);
    ed.move_to_end(true);
    assert_eq!(ed.selected_text(), Some("ab cd".to_string()));
}

#[test]
fn scroll_back_and_forth_returns() {
    let mut s = Scroll { offset: 4, follow: false };
    s.scroll_up(7);
    s.scroll_down(7);
    assert_eq!(s.offset, 4);
}

#[test]
fn backspace_undoes_typed_text() {
    let mut ed = editor_with("ab");
    ed.move_left(false);
    let typed = "é ∑x";
    ed.push_str(typed);
    assert_eq!(ed.text(), "aé ∑xb");
    for _ in 0..typed.chars().count() {
        ed.delete_before();
    }
    assert_eq!(ed.text(), "ab");
    assert_eq!(ed.cursor_byte_pos(), 1);
}

#[test]
fn cut_then_paste_leaves_cursor_at_selection_end() {
    let mut ed = editor_with("one two three");
    ed.move_to_start(false);
    ed.move_word_right(false);
    ed.move_word_right(true);
    let (_, end) = ed.selection().unwrap();
    let cut = ed.selected_text().unwrap();
    ed.delete_selection();
    ed.push_str(&cut);
    assert_eq!(ed.text(), "one two three");
    assert_eq!(ed.cursor_byte_pos(), end);
    assert_eq!(ed.selection(), None);
}
