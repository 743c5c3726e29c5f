//! Single-line input editor: a UTF-8 buffer with a byte-offset cursor and an
//! optional selection anchor.
use vstd::prelude::*;
use vstd::utf8::*;
use vstd::string::*;
use crate::utf8_text::{
    byte_len, char_is_whitespace, floor_offset, index_at, is_boundary, lemma_boundary_index,
    lemma_byte_len_concat, lemma_byte_len_subrange, lemma_char_width, lemma_encode_single, lemma_char_boundary, lemma_encode_concat,
    lemma_encode_injective, lemma_floor_offset, lemma_index_at, lemma_no_boundary_between,
    lemma_offset_concat, lemma_offset_ends, lemma_offset_mono, lemma_offset_range,
    lemma_offset_step, lemma_offset_take, lemma_run_end, lemma_run_start, lemma_split_encoding,
    offset_of, run_end, run_start, string_drain, string_insert_str, utf8_width, word_end,
    word_start, is_white_space,
};

verus! {

broadcast use vstd::seq::group_seq_axioms, vstd::seq_lib::group_seq_properties;

/// The text being edited, the cursor's byte offset and the byte offset of
/// the selection anchor, if a selection is active.
pub struct InputEditor {
    buf: String,
    cursor: usize,
    anchor: Option<usize>,
}

/// Abstract state of an [`InputEditor`].
pub struct EditorModel {
    pub text: Seq<char>,
    pub cursor: int,
    pub anchor: Option<int>,
}

pub open spec fn opt_int(o: Option<usize>) -> Option<int> {
    match o {
        Some(a) => Some(a as int),
        None => None,
    }
}

pub open spec fn min_int(a: int, b: int) -> int {
    if a <= b {
        a
    } else {
        b
    }
}

pub open spec fn max_int(a: int, b: int) -> int {
    if a <= b {
        b
    } else {
        a
    }
}

impl EditorModel {
    /// The cursor sits on a character boundary of the text.
    pub open spec fn wf(self) -> bool {
        &&& is_boundary(self.text, self.cursor)
        &&& byte_len(self.text) <= usize::MAX
    }

    /// The anchor, if any, sits on a character boundary of the text.
    pub open spec fn selection_ok(self) -> bool {
        self.anchor matches Some(a) ==> is_boundary(self.text, a)
    }

    /// Character index of the cursor.
    pub open spec fn caret(self) -> int {
        index_at(self.text, self.cursor)
    }

    /// The selection as an ordered pair of byte offsets.
    pub open spec fn ordered_selection(self) -> Option<(int, int)> {
        match self.anchor {
            Some(a) => Some(
                if self.cursor <= a {
                    (self.cursor, a)
                } else {
                    (a, self.cursor)
                },
            ),
            None => None,
        }
    }

    /// Anchor after a cursor movement: extending starts a selection at the
    /// old cursor (or keeps the existing one); a plain move drops it.
    pub open spec fn anchor_after_move(self, extend: bool) -> Option<int> {
        if extend {
            if self.anchor is None {
                Some(self.cursor)
            } else {
                self.anchor
            }
        } else {
            None
        }
    }

    pub open spec fn with_cursor(self, cursor: int, anchor: Option<int>) -> EditorModel {
        EditorModel { text: self.text, cursor, anchor }
    }

    /// `s` inserted at the cursor, the cursor placed after it.
    pub open spec fn pushed(self, s: Seq<char>) -> EditorModel {
        EditorModel {
            text: self.text.take(self.caret()) + s + self.text.skip(self.caret()),
            cursor: self.cursor + byte_len(s),
            anchor: None,
        }
    }

    /// One character right; with a selection and no `extend`, collapse the
    /// selection to its right end.
    pub open spec fn moved_right(self, extend: bool) -> EditorModel {
        if !extend && self.anchor is Some {
            self.with_cursor(floor_offset(self.text, max_int(self.cursor, self.anchor->0)), None)
        } else {
            self.with_cursor(
                if self.caret() < self.text.len() {
                    offset_of(self.text, self.caret() + 1)
                } else {
                    self.cursor
                },
                self.anchor_after_move(extend),
            )
        }
    }

    /// One character left; with a selection and no `extend`, collapse the
    /// selection to its left end.
    pub open spec fn moved_left(self, extend: bool) -> EditorModel {
        if !extend && self.anchor is Some {
            self.with_cursor(floor_offset(self.text, min_int(self.cursor, self.anchor->0)), None)
        } else {
            self.with_cursor(
                if self.caret() > 0 {
                    offset_of(self.text, self.caret() - 1)
                } else {
                    self.cursor
                },
                self.anchor_after_move(extend),
            )
        }
    }

    /// Past the following whitespace and the word after it.
    pub open spec fn moved_word_right(self, extend: bool) -> EditorModel {
        self.with_cursor(
            offset_of(self.text, word_end(self.text, self.caret())),
            self.anchor_after_move(extend),
        )
    }

    /// Back over preceding whitespace and the word before it.
    pub open spec fn moved_word_left(self, extend: bool) -> EditorModel {
        self.with_cursor(
            offset_of(self.text, word_start(self.text, self.caret())),
            self.anchor_after_move(extend),
        )
    }

    pub open spec fn moved_to_start(self, extend: bool) -> EditorModel {
        self.with_cursor(0, self.anchor_after_move(extend))
    }

    pub open spec fn moved_to_end(self, extend: bool) -> EditorModel {
        self.with_cursor(byte_len(self.text) as int, self.anchor_after_move(extend))
    }

    /// The characters between byte offsets `s` and `e` removed, cursor at `s`.
    pub open spec fn cut(self, s: int, e: int) -> EditorModel {
        EditorModel {
            text: self.text.take(index_at(self.text, s)) + self.text.skip(index_at(self.text, e)),
            cursor: s,
            anchor: None,
        }
    }

    /// Backspace: removes the selection if there is one, otherwise the
    /// character before the cursor.
    pub open spec fn deleted_before(self) -> EditorModel {
        match self.ordered_selection() {
            Some((s, e)) => self.cut(s, e),
            None => if self.cursor == 0 {
                self
            } else {
                self.cut(offset_of(self.text, self.caret() - 1), self.cursor)
            },
        }
    }

    /// Delete: removes the character after the cursor; the anchor is kept.
    pub open spec fn deleted_after(self) -> EditorModel {
        if self.caret() >= self.text.len() {
            self
        } else {
            EditorModel {
                text: self.text.take(self.caret()) + self.text.skip(self.caret() + 1),
                cursor: self.cursor,
                anchor: self.anchor,
            }
        }
    }

    /// Removes the word (and the whitespace after it) before the cursor.
    pub open spec fn deleted_word_before(self) -> EditorModel {
        if self.cursor == 0 {
            self
        } else {
            self.cut(offset_of(self.text, word_start(self.text, self.caret())), self.cursor)
        }
    }

    /// Removes everything before the cursor.
    pub open spec fn deleted_to_start(self) -> EditorModel {
        if self.cursor == 0 {
            self
        } else {
            self.cut(0, self.cursor)
        }
    }

    /// The selected characters.
    pub open spec fn selected(self) -> Option<Seq<char>> {
        match self.ordered_selection() {
            Some((s, e)) => Some(
                self.text.subrange(index_at(self.text, s), index_at(self.text, e)),
            ),
            None => None,
        }
    }

    pub open spec fn deleted_selection(self) -> EditorModel {
        match self.ordered_selection() {
            Some((s, e)) => self.cut(s, e),
            None => self,
        }
    }

    pub open spec fn empty() -> EditorModel {
        EditorModel { text: Seq::empty(), cursor: 0, anchor: None }
    }
}

impl View for InputEditor {
    type V = EditorModel;

    closed spec fn view(&self) -> EditorModel {
        EditorModel { text: self.buf@, cursor: self.cursor as int, anchor: opt_int(self.anchor) }
    }
}

/// The empty editor is well formed.
proof fn lemma_empty_wf()
    ensures
        EditorModel::empty().wf(),
        EditorModel::empty().selection_ok(),
{
    lemma_offset_ends(Seq::<char>::empty());
    assert(offset_of(Seq::<char>::empty(), 0) == 0);
    assert(encode_utf8(Seq::<char>::empty()) =~= Seq::<u8>::empty());
}

/// Cutting between two boundaries keeps the model well formed and gives the
/// text whose encoding is the old encoding with the cut bytes removed.
proof fn lemma_cut(m: EditorModel, s: int, e: int)
    requires
        m.wf(),
        is_boundary(m.text, s),
        is_boundary(m.text, e),
        s <= e,
    ensures
        m.cut(s, e).wf(),
        m.cut(s, e).selection_ok(),
        encode_utf8(m.cut(s, e).text) == encode_utf8(m.text).subrange(0, s) + encode_utf8(
            m.text,
        ).subrange(e, byte_len(m.text) as int),
        index_at(m.text, s) <= index_at(m.text, e),
{
    let t = m.text;
    let ks = index_at(t, s);
    let ke = index_at(t, e);
    lemma_boundary_index(t, s);
    lemma_boundary_index(t, e);
    if ke < ks {
        lemma_offset_mono(t, ke, ks);
    }
    lemma_split_encoding(t, ks);
    lemma_split_encoding(t, ke);
    let a = t.take(ks);
    let b = t.skip(ke);
    lemma_encode_concat(a, b);
    lemma_offset_concat(a, b, ks);
    lemma_offset_ends(a);
    assert(offset_of(a + b, ks) == s);
    assert(is_boundary(a + b, s));
    lemma_byte_len_concat(a, b);
    lemma_offset_range(t, ks);
    lemma_offset_range(t, ke);
}

/// The cursor's character index and how it relates to the byte offset.
pub proof fn lemma_caret(m: EditorModel)
    requires
        m.wf(),
    ensures
        0 <= m.caret() <= m.text.len(),
        offset_of(m.text, m.caret()) == m.cursor,
        0 <= m.cursor <= byte_len(m.text),
        (m.cursor < byte_len(m.text)) == (m.caret() < m.text.len()),
        (m.cursor == 0) == (m.caret() == 0),
{
    lemma_boundary_index(m.text, m.cursor);
    lemma_offset_ends(m.text);
    if m.caret() < m.text.len() {
        lemma_offset_mono(m.text, m.caret(), m.text.len() as int);
    }
    if m.caret() > 0 {
        lemma_offset_mono(m.text, 0, m.caret());
    }
}

/// Typing a character and pressing backspace restores the editor (when no
/// selection is active).
pub proof fn law_backspace_undoes_typed_char(m: EditorModel, c: char)
    requires
        m.wf(),
        m.anchor is None,
    ensures
        m.pushed(seq![c]).deleted_before() == m,
{
    let t = m.text;
    let k = m.caret();
    lemma_caret(m);
    let s = seq![c];
    let p = m.pushed(s);
    let nt = t.take(k) + s + t.skip(k);
    lemma_encode_single(c);
    lemma_char_width(c);
    lemma_offset_concat(t.take(k) + s, t.skip(k), k + 1);
    lemma_offset_concat(t.take(k) + s, t.skip(k), k);
    lemma_offset_concat(t.take(k), s, k);
    lemma_offset_ends(t.take(k));
    lemma_offset_ends(t.take(k) + s);
    lemma_byte_len_concat(t.take(k), s);
    assert(offset_of(nt, k + 1) == m.cursor + byte_len(s));
    lemma_index_at(nt, k + 1);
    lemma_index_at(nt, k);
    assert(p.caret() == k + 1);
    assert(offset_of(nt, k) == m.cursor);
    assert(nt.take(k) + nt.skip(k + 1) =~= t);
    lemma_offset_mono(nt, k, k + 1);
}

/// Cutting the selection and typing it back restores the text, with the
/// cursor at the end of the pasted text (where the selection ended) and no
/// selection.
pub proof fn law_cut_then_paste_restores_text(m: EditorModel)
    requires
        m.wf(),
        m.selection_ok(),
        m.anchor is Some,
    ensures
        m.deleted_selection().pushed(m.selected()->0).text == m.text,
        m.deleted_selection().pushed(m.selected()->0).cursor == (m.ordered_selection()->0).1,
        m.deleted_selection().pushed(m.selected()->0).anchor is None,
{
    let t = m.text;
    let (s, e) = m.ordered_selection()->0;
    lemma_cut(m, s, e);
    let ks = index_at(t, s);
    let ke = index_at(t, e);
    lemma_boundary_index(t, s);
    lemma_boundary_index(t, e);
    let d = m.deleted_selection();
    assert(d == m.cut(s, e));
    let dt = t.take(ks) + t.skip(ke);
    lemma_offset_concat(t.take(ks), t.skip(ke), ks);
    lemma_offset_ends(t.take(ks));
    lemma_index_at(dt, ks);
    assert(d.caret() == ks);
    assert(dt.take(ks) + t.subrange(ks, ke) + dt.skip(ks) =~= t);
    lemma_byte_len_subrange(t, ks, ke);
}

/// Inserting `s` keeps the model well formed and moves the caret past `s`.
proof fn lemma_pushed(m: EditorModel, s: Seq<char>)
    requires
        m.wf(),
        byte_len(m.text) + byte_len(s) <= usize::MAX,
    ensures
        m.pushed(s).wf(),
        m.pushed(s).caret() == m.caret() + s.len(),
        m.pushed(s).text == m.text.take(m.caret()) + s + m.text.skip(m.caret()),
{
    let t = m.text;
    let k = m.caret();
    lemma_caret(m);
    let nt = t.take(k) + s + t.skip(k);
    lemma_offset_concat(t.take(k) + s, t.skip(k), k + s.len());
    lemma_offset_ends(t.take(k) + s);
    lemma_offset_ends(t.take(k));
    lemma_offset_take(t, k, k);
    lemma_byte_len_concat(t.take(k), s);
    lemma_byte_len_concat(t.take(k) + s, t.skip(k));
    lemma_byte_len_concat(t.take(k), t.skip(k));
    assert(t.take(k) + t.skip(k) =~= t);
    assert(offset_of(nt, k + s.len()) == m.cursor + byte_len(s));
    lemma_index_at(nt, k + s.len());
}

/// Inserting `a` and then `b` is inserting `a + b`.
proof fn lemma_pushed_concat(m: EditorModel, a: Seq<char>, b: Seq<char>)
    requires
        m.wf(),
        byte_len(m.text) + byte_len(a) <= usize::MAX,
    ensures
        m.pushed(a).pushed(b) == m.pushed(a + b),
{
    let t = m.text;
    let k = m.caret();
    lemma_pushed(m, a);
    let p = m.pushed(a);
    assert(p.text.take(k + a.len()) =~= t.take(k) + a);
    assert(p.text.skip(k + a.len()) =~= t.skip(k));
    assert(p.pushed(b).text =~= m.pushed(a + b).text);
    lemma_byte_len_concat(a, b);
}

/// `n` presses of backspace.
pub open spec fn backspaced(m: EditorModel, n: nat) -> EditorModel
    decreases n,
{
    if n == 0 {
        m
    } else {
        backspaced(m.deleted_before(), (n - 1) as nat)
    }
}

/// Typing a text and pressing backspace once per typed character restores
/// the editor (when no selection is active).
pub proof fn law_backspace_undoes_typed_text(m: EditorModel, s: Seq<char>)
    requires
        m.wf(),
        m.anchor is None,
        byte_len(m.text) + byte_len(s) <= isize::MAX,
    ensures
        backspaced(m.pushed(s), s.len()) == m,
    decreases s.len(),
{
    if s.len() == 0 {
        lemma_caret(m);
        assert(m.text.take(m.caret()) + s + m.text.skip(m.caret()) =~= m.text);
        assert(byte_len(s) == 0) by {
            assert(encode_utf8(s) =~= Seq::<u8>::empty());
        }
        assert(m.pushed(s) == m);
    } else {
        let s0 = s.drop_last();
        let c = s.last();
        assert(s0 + seq![c] =~= s);
        lemma_byte_len_concat(s0, seq![c]);
        lemma_pushed_concat(m, s0, seq![c]);
        lemma_pushed(m, s0);
        let p = m.pushed(s0);
        law_backspace_undoes_typed_char(p, c);
        law_backspace_undoes_typed_text(m, s0);
        assert(backspaced(m.pushed(s), s.len()) == backspaced(
            m.pushed(s).deleted_before(),
            s0.len(),
        ));
    }
}

/// Moving left and then right returns to the same place when nothing is
/// selected and the cursor is not at the start.
pub proof fn law_left_then_right_returns(m: EditorModel)
    requires
        m.wf(),
        m.anchor is None,
        m.cursor > 0,
    ensures
        m.moved_left(false).moved_right(false) == m,
{
    let t = m.text;
    let k = m.caret();
    lemma_caret(m);
    lemma_index_at(t, k - 1);
    lemma_index_at(t, k);
}

/// Moving right and then left returns to the same place when nothing is
/// selected and the cursor is not at the end.
pub proof fn law_right_then_left_returns(m: EditorModel)
    requires
        m.wf(),
        m.anchor is None,
        m.cursor < byte_len(m.text),
    ensures
        m.moved_right(false).moved_left(false) == m,
{
    let t = m.text;
    let k = m.caret();
    lemma_caret(m);
    lemma_offset_ends(t);
    lemma_index_at(t, k + 1);
    lemma_index_at(t, k);
}

/// Selecting from the start to the end selects the whole text.
pub proof fn law_select_all(m: EditorModel)
    requires
        m.wf(),
    ensures
        m.moved_to_start(false).moved_to_end(true).selected() == Some(m.text),
{
    let t = m.text;
    lemma_offset_ends(t);
    lemma_index_at(t, 0);
    lemma_index_at(t, t.len() as int);
    assert(t.subrange(0, t.len() as int) =~= t);
}

impl Default for InputEditor {
    /// An empty editor.
    fn default() -> (r: InputEditor)
        ensures
            r@ == EditorModel::empty(),
            r@.wf(),
            r@.selection_ok(),
    {
        proof {
            lemma_empty_wf();
        }
        InputEditor { buf: String::new(), cursor: 0, anchor: None }
    }
}

impl InputEditor {
    /// The edited text.
    pub fn text(&self) -> (r: &str)
        ensures
            r@ == self@.text,
    {
        self.buf.as_str()
    }

    /// Byte offset of the cursor.
    pub fn cursor_byte_pos(&self) -> (r: usize)
        ensures
            r == self@.cursor,
    {
        self.cursor
    }

    /// The selection as `(start, end)` byte offsets with `start <= end`.
    pub fn selection(&self) -> (r: Option<(usize, usize)>)
        ensures
            match r {
                Some((s, e)) => self@.ordered_selection() == Some((s as int, e as int)),
                None => self@.ordered_selection() is None,
            },
    {
        match self.anchor {
            Some(anchor) => {
                if self.cursor <= anchor {
                    Some((self.cursor, anchor))
                } else {
                    Some((anchor, self.cursor))
                }
            },
            None => None,
        }
    }

    /// Removes the bytes between boundaries `start <= end`; cursor and
    /// anchor are left as they are.
    fn drain_text(&mut self, start: usize, end: usize)
        requires
            old(self)@.wf(),
            is_boundary(old(self)@.text, start as int),
            is_boundary(old(self)@.text, end as int),
            start <= end,
        ensures
            final(self)@.text == old(self)@.cut(start as int, end as int).text,
            final(self)@.cursor == old(self)@.cursor,
            final(self)@.anchor == old(self)@.anchor,
            old(self)@.cut(start as int, end as int).wf(),
    {
        let ghost m = self@;
        proof {
            lemma_cut(m, start as int, end as int);
            lemma_char_boundary(m.text, start as int);
            lemma_char_boundary(m.text, end as int);
        }
        string_drain(&mut self.buf, start, end);
        proof {
            lemma_encode_injective(self.buf@, m.cut(start as int, end as int).text);
        }
    }

    /// Offset reached by skipping whitespace and then a word after the cursor.
    fn word_end_offset(&self) -> (r: usize)
        requires
            self@.wf(),
        ensures
            r == offset_of(self@.text, word_end(self@.text, self@.caret())),
            self@.caret() <= word_end(self@.text, self@.caret()) <= self@.text.len(),
    {
        let ghost t = self@.text;
        let ghost k0 = self@.caret();
        proof {
            lemma_caret(self@);
            lemma_offset_ends(t);
        }
        let len = self.len_bytes();
        let mut p = self.cursor;
        let ghost mut i: int = k0;
        loop
            invariant
                t == self@.text,
                self@.wf(),
                len == byte_len(t),
                0 <= k0 <= i <= t.len(),
                offset_of(t, i) == p,
                run_end(t, i, true) == run_end(t, k0, true),
            ensures
                k0 <= i <= t.len(),
                offset_of(t, i) == p,
                run_end(t, k0, true) == i,
            decreases t.len() - i,
        {
            if p >= len {
                proof {
                    if i < t.len() {
                        lemma_offset_mono(t, i, t.len() as int);
                    }
                }
                break;
            }
            proof {
                lemma_index_at(t, i);
                if i == t.len() {
                    assert(false);
                }
            }
            let (c, next) = self.char_at(p);
            if !char_is_whitespace(c) {
                break;
            }
            proof {
                i = i + 1;
            }
            p = next;
        }
        let ghost i1 = i;
        loop
            invariant
                t == self@.text,
                self@.wf(),
                len == byte_len(t),
                i1 <= i <= t.len(),
                0 <= k0 <= i1,
                run_end(t, k0, true) == i1,
                offset_of(t, i) == p,
                run_end(t, i, false) == run_end(t, i1, false),
            ensures
                i1 <= i <= t.len(),
                offset_of(t, i) == p,
                run_end(t, i1, false) == i,
            decreases t.len() - i,
        {
            if p >= len {
                proof {
                    if i < t.len() {
                        lemma_offset_mono(t, i, t.len() as int);
                    }
                }
                break;
            }
            proof {
                lemma_index_at(t, i);
                if i == t.len() {
                    assert(false);
                }
            }
            let (c, next) = self.char_at(p);
            if char_is_whitespace(c) {
                break;
            }
            proof {
                i = i + 1;
            }
            p = next;
        }
        p
    }

    /// Offset reached by skipping whitespace and then a word before the cursor.
    fn word_start_offset(&self) -> (r: usize)
        requires
            self@.wf(),
        ensures
            r == offset_of(self@.text, word_start(self@.text, self@.caret())),
            0 <= word_start(self@.text, self@.caret()) <= self@.caret(),
    {
        let ghost t = self@.text;
        let ghost k0 = self@.caret();
        proof {
            lemma_caret(self@);
            lemma_offset_ends(t);
        }
        let mut p = self.cursor;
        let ghost mut i: int = k0;
        loop
            invariant
                t == self@.text,
                self@.wf(),
                0 <= i <= k0 <= t.len(),
                offset_of(t, i) == p,
                run_start(t, i, true) == run_start(t, k0, true),
            ensures
                0 <= i <= k0,
                offset_of(t, i) == p,
                run_start(t, k0, true) == i,
            decreases i,
        {
            if p == 0 {
                proof {
                    if i > 0 {
                        lemma_offset_mono(t, 0, i);
                    }
                }
                break;
            }
            proof {
                lemma_index_at(t, i);
            }
            let q = self.prev_boundary(p);
            proof {
                lemma_index_at(t, i - 1);
                lemma_offset_mono(t, i - 1, i);
                lemma_offset_range(t, i);
            }
            let (c, _) = self.char_at(q);
            if !char_is_whitespace(c) {
                break;
            }
            proof {
                i = i - 1;
            }
            p = q;
        }
        let ghost i1 = i;
        loop
            invariant
                t == self@.text,
                self@.wf(),
                0 <= i <= i1 <= k0 <= t.len(),
                run_start(t, k0, true) == i1,
                offset_of(t, i) == p,
                run_start(t, i, false) == run_start(t, i1, false),
            ensures
                0 <= i <= i1,
                offset_of(t, i) == p,
                run_start(t, i1, false) == i,
            decreases i,
        {
            if p == 0 {
                proof {
                    if i > 0 {
                        lemma_offset_mono(t, 0, i);
                    }
                }
                break;
            }
            proof {
                lemma_index_at(t, i);
            }
            let q = self.prev_boundary(p);
            proof {
                lemma_index_at(t, i - 1);
                lemma_offset_mono(t, i - 1, i);
                lemma_offset_range(t, i);
            }
            let (c, _) = self.char_at(q);
            if char_is_whitespace(c) {
                break;
            }
            proof {
                i = i - 1;
            }
            p = q;
        }
        p
    }

    /// Inserts `s` at the cursor and moves the cursor past it; clears the
    /// selection.
    pub fn push_str(&mut self, s: &str)
        requires
            old(self)@.wf(),
            byte_len(old(self)@.text) + byte_len(s@) <= isize::MAX,
        ensures
            final(self)@ == old(self)@.pushed(s@),
            final(self)@.wf(),
            final(self)@.selection_ok(),
    {
        let ghost m = self@;
        let ghost k = m.caret();
        proof {
            lemma_caret(m);
            lemma_char_boundary(m.text, m.cursor);
        }
        string_insert_str(&mut self.buf, self.cursor, s);
        let ghost nt = m.text.take(k) + s@ + m.text.skip(k);
        proof {
            lemma_split_encoding(m.text, k);
            lemma_encode_concat(m.text.take(k) + s@, m.text.skip(k));
            lemma_encode_concat(m.text.take(k), s@);
            assert(encode_utf8(nt) =~= encode_utf8(self.buf@));
            lemma_encode_injective(self.buf@, nt);
            lemma_offset_concat(m.text.take(k) + s@, m.text.skip(k), k + s@.len());
            lemma_offset_ends(m.text.take(k) + s@);
            lemma_byte_len_concat(m.text.take(k), s@);
            lemma_byte_len_concat(m.text.take(k) + s@, m.text.skip(k));
            assert(offset_of(nt, k + s@.len()) == m.cursor + byte_len(s@));
            assert(is_boundary(nt, m.cursor + byte_len(s@)));
            lemma_floor_offset(nt, m.cursor + byte_len(s@));
        }
        let n = s.len();
        let next = self.cursor + n;
        let clamped = self.clamp_to_char_boundary(next);
        self.cursor = clamped;
        self.anchor = None;
    }

    /// Moves one character right (extending the selection when `extend`);
    /// without `extend`, an active selection collapses to its right end.
    pub fn move_right(&mut self, extend: bool)
        requires
            old(self)@.wf(),
        ensures
            final(self)@ == old(self)@.moved_right(extend),
            final(self)@.wf(),
            old(self)@.selection_ok() ==> final(self)@.selection_ok(),
    {
        let ghost m = self@;
        proof {
            lemma_caret(m);
        }
        if !extend {
            if let Some(anchor) = self.anchor {
                let target = if self.cursor >= anchor {
                    self.cursor
                } else {
                    anchor
                };
                let c = self.clamp_to_char_boundary(target);
                proof {
                    lemma_floor_offset(m.text, target as int);
                }
                self.cursor = c;
                self.anchor = None;
                return;
            }
        }
        if extend && self.anchor.is_none() {
            self.anchor = Some(self.cursor);
        }
        let len = self.len_bytes();
        if self.cursor < len {
            let (_, next) = self.char_at(self.cursor);
            proof {
                lemma_index_at(m.text, m.caret() + 1);
                lemma_floor_offset(m.text, next as int);
            }
            let c = self.clamp_to_char_boundary(next);
            self.cursor = c;
        }
    }

    /// Moves one character left (extending the selection when `extend`);
    /// without `extend`, an active selection collapses to its left end.
    pub fn move_left(&mut self, extend: bool)
        requires
            old(self)@.wf(),
        ensures
            final(self)@ == old(self)@.moved_left(extend),
            final(self)@.wf(),
            old(self)@.selection_ok() ==> final(self)@.selection_ok(),
    {
        let ghost m = self@;
        proof {
            lemma_caret(m);
        }
        if !extend {
            if let Some(anchor) = self.anchor {
                let target = if self.cursor <= anchor {
                    self.cursor
                } else {
                    anchor
                };
                let c = self.clamp_to_char_boundary(target);
                proof {
                    lemma_floor_offset(m.text, target as int);
                }
                self.cursor = c;
                self.anchor = None;
                return;
            }
        }
        if extend && self.anchor.is_none() {
            self.anchor = Some(self.cursor);
        }
        if self.cursor > 0 {
            let pos = self.prev_boundary(self.cursor);
            proof {
                lemma_index_at(m.text, m.caret() - 1);
            }
            self.cursor = pos;
        }
    }

    /// Moves past the following whitespace and the next word.
    pub fn move_word_right(&mut self, extend: bool)
        requires
            old(self)@.wf(),
        ensures
            final(self)@ == old(self)@.moved_word_right(extend),
            final(self)@.wf(),
            old(self)@.selection_ok() ==> final(self)@.selection_ok(),
    {
        let ghost m = self@;
        proof {
            lemma_caret(m);
        }
        if extend && self.anchor.is_none() {
            self.anchor = Some(self.cursor);
        } else if !extend {
            self.anchor = None;
        }
        let p = self.word_end_offset();
        proof {
            lemma_index_at(m.text, word_end(m.text, m.caret()));
            lemma_floor_offset(m.text, p as int);
        }
        let c = self.clamp_to_char_boundary(p);
        self.cursor = c;
    }

    /// Moves back over the preceding whitespace and the word before it.
    pub fn move_word_left(&mut self, extend: bool)
        requires
            old(self)@.wf(),
        ensures
            final(self)@ == old(self)@.moved_word_left(extend),
            final(self)@.wf(),
            old(self)@.selection_ok() ==> final(self)@.selection_ok(),
    {
        let ghost m = self@;
        proof {
            lemma_caret(m);
        }
        if extend && self.anchor.is_none() {
            self.anchor = Some(self.cursor);
        } else if !extend {
            self.anchor = None;
        }
        let p = self.word_start_offset();
        proof {
            lemma_index_at(m.text, word_start(m.text, m.caret()));
            lemma_floor_offset(m.text, p as int);
        }
        let c = self.clamp_to_char_boundary(p);
        self.cursor = c;
    }

    /// Moves to the start of the text.
    pub fn move_to_start(&mut self, extend: bool)
        requires
            old(self)@.wf(),
        ensures
            final(self)@ == old(self)@.moved_to_start(extend),
            final(self)@.wf(),
            old(self)@.selection_ok() ==> final(self)@.selection_ok(),
    {
        proof {
            lemma_caret(self@);
            lemma_index_at(self@.text, 0);
        }
        if extend && self.anchor.is_none() {
            self.anchor = Some(self.cursor);
        } else if !extend {
            self.anchor = None;
        }
        self.cursor = 0;
    }

    /// Moves to the end of the text.
    pub fn move_to_end(&mut self, extend: bool)
        requires
            old(self)@.wf(),
        ensures
            final(self)@ == old(self)@.moved_to_end(extend),
            final(self)@.wf(),
            old(self)@.selection_ok() ==> final(self)@.selection_ok(),
    {
        proof {
            lemma_caret(self@);
            lemma_index_at(self@.text, self@.text.len() as int);
        }
        if extend && self.anchor.is_none() {
            self.anchor = Some(self.cursor);
        } else if !extend {
            self.anchor = None;
        }
        self.cursor = self.len_bytes();
    }

    /// Backspace: deletes the selection if there is one, otherwise the
    /// character before the cursor.
    pub fn delete_before(&mut self)
        requires
            old(self)@.wf(),
            old(self)@.selection_ok(),
        ensures
            final(self)@ == old(self)@.deleted_before(),
            final(self)@.wf(),
            final(self)@.selection_ok(),
    {
        let ghost m = self@;
        proof {
            lemma_caret(m);
        }
        if let Some(anchor) = self.anchor {
            let (start, end) = if self.cursor <= anchor {
                (self.cursor, anchor)
            } else {
                (anchor, self.cursor)
            };
            self.drain_text(start, end);
            self.cursor = start;
            self.anchor = None;
            return;
        }
        if self.cursor == 0 {
            return;
        }
        let pos = self.prev_boundary(self.cursor);
        proof {
            lemma_index_at(m.text, m.caret() - 1);
            lemma_offset_mono(m.text, m.caret() - 1, m.caret());
        }
        self.drain_text(pos, self.cursor);
        self.cursor = pos;
    }

    /// Delete: removes the character after the cursor.
    pub fn delete_after(&mut self)
        requires
            old(self)@.wf(),
        ensures
            final(self)@ == old(self)@.deleted_after(),
            final(self)@.wf(),
            old(self)@.selection_ok() && (old(self)@.anchor matches Some(a) ==> a
                <= old(self)@.cursor) ==> final(self)@.selection_ok(),
    {
        let ghost m = self@;
        let ghost k = m.caret();
        proof {
            lemma_caret(m);
        }
        let len = self.len_bytes();
        if self.cursor >= len {
            return;
        }
        let (_, next) = self.char_at(self.cursor);
        proof {
            lemma_index_at(m.text, k);
            lemma_index_at(m.text, k + 1);
            lemma_offset_mono(m.text, k, k + 1);
        }
        self.drain_text(self.cursor, next);
        proof {
            let nt = m.text.take(k) + m.text.skip(k + 1);
            assert(self@.text == nt);
            lemma_offset_concat(m.text.take(k), m.text.skip(k + 1), k);
            lemma_offset_ends(m.text.take(k));
            assert(is_boundary(nt, m.cursor));
            if m.selection_ok() && (m.anchor matches Some(a) ==> a <= m.cursor) {
                if let Some(a) = m.anchor {
                    let ka = index_at(m.text, a);
                    lemma_boundary_index(m.text, a);
                    if ka > k {
                        lemma_offset_mono(m.text, k, ka);
                    }
                    lemma_offset_concat(m.text.take(k), m.text.skip(k + 1), ka);
                    lemma_offset_take(m.text, k, ka);
                    assert(is_boundary(nt, a));
                }
            }
        }
    }

    /// Deletes the word (and any whitespace after it) before the cursor.
    pub fn delete_word_before(&mut self)
        requires
            old(self)@.wf(),
        ensures
            final(self)@ == old(self)@.deleted_word_before(),
            final(self)@.wf(),
            old(self)@.selection_ok() ==> final(self)@.selection_ok(),
    {
        let ghost m = self@;
        proof {
            lemma_caret(m);
        }
        if self.cursor == 0 {
            return;
        }
        let start = self.word_start_offset();
        proof {
            let j = word_start(m.text, m.caret());
            lemma_index_at(m.text, j);
            if j < m.caret() {
                lemma_offset_mono(m.text, j, m.caret());
            }
        }
        self.drain_text(start, self.cursor);
        self.cursor = start;
        self.anchor = None;
    }

    /// Deletes everything before the cursor.
    pub fn delete_to_start(&mut self)
        requires
            old(self)@.wf(),
        ensures
            final(self)@ == old(self)@.deleted_to_start(),
            final(self)@.wf(),
            old(self)@.selection_ok() ==> final(self)@.selection_ok(),
    {
        let ghost m = self@;
        proof {
            lemma_caret(m);
            lemma_index_at(m.text, 0);
            lemma_offset_ends(m.text);
        }
        if self.cursor == 0 {
            return;
        }
        self.drain_text(0, self.cursor);
        self.cursor = 0;
        self.anchor = None;
    }

    /// The selected text, if a selection is active.
    pub fn selected_text(&self) -> (r: Option<String>)
        requires
            self@.wf(),
            self@.selection_ok(),
        ensures
            match r {
                Some(s) => self@.selected() == Some(s@),
                None => self@.selected() is None,
            },
    {
        let ghost t = self@.text;
        match self.selection() {
            Some((start, end)) => {
                let ghost ks = index_at(t, start as int);
                let ghost ke = index_at(t, end as int);
                proof {
                    lemma_cut(self@, start as int, end as int);
                    lemma_boundary_index(t, start as int);
                    lemma_boundary_index(t, end as int);
                    lemma_split_encoding(t, ke);
                    lemma_char_boundary(t, end as int);
                }
                let s = self.buf.as_str();
                let (left, _) = s.split_at(end);
                proof {
                    lemma_encode_injective(left@, t.take(ke));
                    lemma_offset_take(t, ke, ks);
                    lemma_index_at(t.take(ke), ks);
                    lemma_char_boundary(t.take(ke), start as int);
                    lemma_split_encoding(t.take(ke), ks);
                    lemma_offset_ends(t.take(ke));
                    lemma_offset_take(t, ke, ke);
                }
                let (_, mid) = left.split_at(start);
                proof {
                    lemma_encode_injective(mid@, t.take(ke).skip(ks));
                    assert(t.take(ke).skip(ks) =~= t.subrange(ks, ke));
                }
                Some(mid.to_owned())
            },
            None => None,
        }
    }

    /// Deletes the selected text, if any, leaving the cursor at its start.
    pub fn delete_selection(&mut self)
        requires
            old(self)@.wf(),
            old(self)@.selection_ok(),
        ensures
            final(self)@ == old(self)@.deleted_selection(),
            final(self)@.wf(),
            final(self)@.selection_ok(),
    {
        if let Some((start, end)) = self.selection() {
            self.drain_text(start, end);
            self.cursor = start;
            self.anchor = None;
        }
    }

    /// Whether the selection anchor, if any, sits on a character boundary of
    /// the text: what `delete_before`, `selected_text` and
    /// `delete_selection` need.
    pub fn selection_in_text(&self) -> (r: bool)
        ensures
            r == self@.selection_ok(),
    {
        match self.anchor {
            Some(a) => self.boundary_at(a),
            None => true,
        }
    }

    /// Empties the editor.
    pub fn clear(&mut self)
        ensures
            final(self)@ == EditorModel::empty(),
            final(self)@.wf(),
            final(self)@.selection_ok(),
    {
        proof {
            lemma_empty_wf();
        }
        self.buf = String::new();
        self.cursor = 0;
        self.anchor = None;
    }

    /// Length of the text in bytes.
    fn len_bytes(&self) -> (n: usize)
        requires
            byte_len(self@.text) <= usize::MAX,
        ensures
            n == byte_len(self@.text),
    {
        self.buf.as_str().len()
    }

    /// Whether byte offset `p` is a character boundary.
    fn boundary_at(&self, p: usize) -> (r: bool)
        ensures
            r == is_boundary(self@.text, p as int),
    {
        let r = self.buf.as_str().is_char_boundary(p);
        proof {
            lemma_char_boundary(self.buf@, p as int);
        }
        r
    }

    /// The character starting at boundary `p`, and the offset just after it.
    fn char_at(&self, p: usize) -> (r: (char, usize))
        requires
            self@.wf(),
            is_boundary(self@.text, p as int),
            p < byte_len(self@.text),
        ensures
            0 <= index_at(self@.text, p as int) < self@.text.len(),
            r.0 == self@.text[index_at(self@.text, p as int)],
            r.1 == offset_of(self@.text, index_at(self@.text, p as int) + 1),
    {
        let ghost t = self@.text;
        let ghost k = index_at(t, p as int);
        proof {
            lemma_boundary_index(t, p as int);
            lemma_offset_ends(t);
            if k == t.len() {
                assert(false);
            }
            lemma_split_encoding(t, k);
            lemma_char_boundary(t, p as int);
            lemma_offset_step(t, k);
        }
        let s = self.buf.as_str();
        let (_, rest) = s.split_at(p);
        proof {
            lemma_encode_injective(rest@, t.skip(k));
        }
        let c = rest.get_char(0);
        let w = utf8_width(c);
        (c, p + w)
    }

    /// The boundary just before boundary `p > 0`.
    fn prev_boundary(&self, p: usize) -> (r: usize)
        requires
            self@.wf(),
            is_boundary(self@.text, p as int),
            p > 0,
        ensures
            index_at(self@.text, p as int) > 0,
            r == offset_of(self@.text, index_at(self@.text, p as int) - 1),
    {
        let ghost t = self@.text;
        let ghost k = index_at(t, p as int);
        proof {
            lemma_boundary_index(t, p as int);
            lemma_offset_ends(t);
            if k == 0 {
                assert(false);
            }
            lemma_offset_step(t, k - 1);
        }
        let mut pos = p - 1;
        loop
            invariant
                0 <= pos < p,
                self@.wf(),
                0 < k <= t.len(),
                t == self@.text,
                offset_of(t, k) == p,
                offset_of(t, k - 1) <= pos,
            ensures
                pos == 0 || is_boundary(t, pos as int),
                0 <= pos < p,
                offset_of(t, k - 1) <= pos,
            decreases pos,
        {
            if pos == 0 || self.boundary_at(pos) {
                break;
            }
            proof {
                if offset_of(t, k - 1) == pos as int {
                    lemma_index_at(t, k - 1);
                }
            }
            pos = pos - 1;
        }
        proof {
            lemma_offset_ends(t);
            if !is_boundary(t, pos as int) {
                assert(pos == 0);
                assert(is_boundary(t, 0)) by {
                    assert(offset_of(t, 0) == 0);
                }
            }
            if offset_of(t, k - 1) < pos {
                lemma_no_boundary_between(t, k - 1, pos as int);
            }
        }
        pos
    }

    /// The greatest character boundary not after `pos` (the text length when
    /// `pos` is at or past the end).
    fn clamp_to_char_boundary(&self, pos: usize) -> (r: usize)
        requires
            byte_len(self@.text) <= usize::MAX,
        ensures
            r == floor_offset(self@.text, pos as int),
    {
        let ghost t = self@.text;
        proof {
            lemma_floor_offset(t, pos as int);
        }
        let len = self.len_bytes();
        if pos >= len {
            return len;
        }
        let mut p = pos;
        loop
            invariant
                0 <= p <= pos,
                t == self@.text,
                floor_offset(t, pos as int) <= p,
                is_boundary(t, floor_offset(t, pos as int)),
                forall|q: int|
                    floor_offset(t, pos as int) < q <= pos && is_boundary(t, q) ==> false,
            ensures
                p == 0 || is_boundary(t, p as int),
                0 <= p <= pos,
                floor_offset(t, pos as int) <= p,
            decreases p,
        {
            if p == 0 || self.boundary_at(p) {
                break;
            }
            p = p - 1;
        }
        proof {
            if !is_boundary(t, p as int) {
                lemma_offset_ends(t);
                assert(is_boundary(t, 0)) by {
                    assert(offset_of(t, 0) == 0);
                }
            }
        }
        p
    }
}

} // verus!
