//! Character/byte bookkeeping for UTF-8 text.
//!
//! A `String` is viewed by Verus as a sequence of `char`s; Rust, however,
//! addresses strings by byte offset. This module names the byte offset of
//! each character position and proves how offsets, character boundaries and
//! slices of the encoding relate to each other.
use vstd::prelude::*;
use vstd::utf8::*;

verus! {

broadcast use vstd::seq::group_seq_axioms, vstd::seq_lib::group_seq_properties;

/// Number of bytes in the UTF-8 encoding of `cs`.
pub open spec fn byte_len(cs: Seq<char>) -> nat {
    encode_utf8(cs).len()
}

/// Byte offset at which the character with index `k` starts (or the end of
/// the text when `k == cs.len()`).
pub open spec fn offset_of(cs: Seq<char>, k: int) -> int {
    byte_len(cs.take(k)) as int
}

/// `b` is the byte offset of some character position of `cs`.
pub open spec fn is_boundary(cs: Seq<char>, b: int) -> bool {
    exists|k: int| 0 <= k <= cs.len() && #[trigger] offset_of(cs, k) == b
}

/// The character index whose byte offset is `b` (meaningful when
/// `is_boundary(cs, b)`).
pub open spec fn index_at(cs: Seq<char>, b: int) -> int {
    choose|k: int| 0 <= k <= cs.len() && #[trigger] offset_of(cs, k) == b
}

/// Number of bytes that `c` takes in UTF-8.
pub open spec fn char_width(c: char) -> nat {
    encode_scalar(c as u32).len()
}

/// Highest character index `j <= k` whose offset does not exceed `p`.
pub open spec fn floor_from(cs: Seq<char>, p: int, k: int) -> int
    decreases k,
{
    if k <= 0 || offset_of(cs, k) <= p {
        k
    } else {
        floor_from(cs, p, k - 1)
    }
}

/// Byte offset of the last character boundary that is not after `p`;
/// `byte_len(cs)` when `p` lies at or past the end of the text.
pub open spec fn floor_offset(cs: Seq<char>, p: int) -> int {
    offset_of(cs, floor_from(cs, p, cs.len() as int))
}

/// The Unicode `White_Space` property (PropList.txt).
pub open spec fn is_white_space(c: char) -> bool {
    let v = c as u32;
    ||| 0x09 <= v <= 0x0d
    ||| v == 0x20
    ||| v == 0x85
    ||| v == 0xa0
    ||| v == 0x1680
    ||| 0x2000 <= v <= 0x200a
    ||| v == 0x2028
    ||| v == 0x2029
    ||| v == 0x202f
    ||| v == 0x205f
    ||| v == 0x3000
}

/// Whether `c` is whitespace, as `char::is_whitespace` decides: whether
/// it has the Unicode `White_Space` property.
pub(crate) fn char_is_whitespace(c: char) -> (r: bool)
    ensures
        r == is_white_space(c),
{
    let v = c as u32;
    (0x09 <= v && v <= 0x0d) || v == 0x20 || v == 0x85 || v == 0xa0 || v == 0x1680 || (0x2000
        <= v && v <= 0x200a) || v == 0x2028 || v == 0x2029 || v == 0x202f || v == 0x205f || v
        == 0x3000
}

/// First index `>= i` at which the run of characters whose whitespace-ness
/// equals `ws` ends.
pub open spec fn run_end(cs: Seq<char>, i: int, ws: bool) -> int
    decreases cs.len() - i,
{
    if i < 0 || i >= cs.len() || is_white_space(cs[i]) != ws {
        i
    } else {
        run_end(cs, i + 1, ws)
    }
}

/// First index `<= i` such that every character between it and `i` has
/// whitespace-ness `ws`.
pub open spec fn run_start(cs: Seq<char>, i: int, ws: bool) -> int
    decreases i,
{
    if i <= 0 || i > cs.len() || is_white_space(cs[i - 1]) != ws {
        i
    } else {
        run_start(cs, i - 1, ws)
    }
}

/// Index reached from `i` by skipping whitespace and then one word.
pub open spec fn word_end(cs: Seq<char>, i: int) -> int {
    run_end(cs, run_end(cs, i, true), false)
}

/// Index reached from `i` by skipping whitespace backwards and then one word.
pub open spec fn word_start(cs: Seq<char>, i: int) -> int {
    run_start(cs, run_start(cs, i, true), false)
}

/// Width in bytes of `c`'s UTF-8 encoding, as `char::len_utf8` computes it.
pub fn utf8_width(c: char) -> (w: usize)
    ensures
        w == char_width(c),
        1 <= w <= 4,
{
    proof {
        char_is_scalar(c);
    }
    let v = c as u32;
    if v <= 0x7f {
        1
    } else if v <= 0x7ff {
        2
    } else if v <= 0xffff {
        3
    } else {
        4
    }
}

pub proof fn lemma_char_width(c: char)
    ensures
        1 <= char_width(c) <= 4,
{
    char_is_scalar(c);
}

/// The encoding of a concatenation is the concatenation of the encodings.
pub proof fn lemma_encode_concat(a: Seq<char>, b: Seq<char>)
    ensures
        encode_utf8(a + b) == encode_utf8(a) + encode_utf8(b),
    decreases a.len(),
{
    if a.len() == 0 {
        assert(a + b =~= b);
        assert(encode_utf8(a) =~= Seq::<u8>::empty());
        assert(encode_utf8(a) + encode_utf8(b) =~= encode_utf8(b));
    } else {
        lemma_encode_concat(a.drop_first(), b);
        assert((a + b).drop_first() =~= a.drop_first() + b);
        assert((a + b)[0] == a[0]);
        assert(encode_utf8(a + b) =~= encode_scalar(a[0] as u32) + encode_utf8(a.drop_first() + b));
        assert(encode_utf8(a) + encode_utf8(b) =~= encode_scalar(a[0] as u32) + (encode_utf8(
            a.drop_first(),
        ) + encode_utf8(b)));
    }
}

/// Encoding a single character gives its scalar encoding.
pub proof fn lemma_encode_single(c: char)
    ensures
        encode_utf8(seq![c]) == encode_scalar(c as u32),
{
    let s = seq![c];
    assert(s.drop_first() =~= Seq::<char>::empty());
    assert(encode_utf8(s.drop_first()) =~= Seq::<u8>::empty());
    assert(encode_utf8(s) =~= encode_scalar(c as u32) + Seq::<u8>::empty());
}

/// Encoding is injective.
pub proof fn lemma_encode_injective(a: Seq<char>, b: Seq<char>)
    requires
        encode_utf8(a) == encode_utf8(b),
    ensures
        a == b,
{
    encode_utf8_decode_utf8(a);
    encode_utf8_decode_utf8(b);
}

/// Offsets grow by the width of each character.
pub proof fn lemma_offset_step(cs: Seq<char>, k: int)
    requires
        0 <= k < cs.len(),
    ensures
        offset_of(cs, k + 1) == offset_of(cs, k) + char_width(cs[k]),
        offset_of(cs, k) < offset_of(cs, k + 1) <= offset_of(cs, k) + 4,
{
    assert(cs.take(k + 1) =~= cs.take(k) + seq![cs[k]]);
    lemma_encode_concat(cs.take(k), seq![cs[k]]);
    lemma_encode_single(cs[k]);
    lemma_char_width(cs[k]);
}

pub proof fn lemma_offset_ends(cs: Seq<char>)
    ensures
        offset_of(cs, 0) == 0,
        offset_of(cs, cs.len() as int) == byte_len(cs),
{
    assert(cs.take(0) =~= Seq::<char>::empty());
    assert(encode_utf8(cs.take(0)) =~= Seq::<u8>::empty());
    assert(cs.take(cs.len() as int) =~= cs);
}

/// Offsets are strictly increasing in the character index.
pub proof fn lemma_offset_mono(cs: Seq<char>, i: int, j: int)
    requires
        0 <= i < j <= cs.len(),
    ensures
        offset_of(cs, i) < offset_of(cs, j),
        offset_of(cs, j) - offset_of(cs, i) >= j - i,
    decreases j - i,
{
    lemma_offset_step(cs, j - 1);
    if i < j - 1 {
        lemma_offset_mono(cs, i, j - 1);
    }
}

/// Offsets lie between zero and the total byte length.
pub proof fn lemma_offset_range(cs: Seq<char>, k: int)
    requires
        0 <= k <= cs.len(),
    ensures
        0 <= offset_of(cs, k) <= byte_len(cs),
        k <= offset_of(cs, k),
{
    lemma_offset_ends(cs);
    if k < cs.len() {
        lemma_offset_mono(cs, k, cs.len() as int);
    }
    if 0 < k {
        lemma_offset_mono(cs, 0, k);
    }
}

/// The character index of a boundary is unique.
pub proof fn lemma_index_at(cs: Seq<char>, k: int)
    requires
        0 <= k <= cs.len(),
    ensures
        is_boundary(cs, offset_of(cs, k)),
        index_at(cs, offset_of(cs, k)) == k,
{
    let b = offset_of(cs, k);
    assert(is_boundary(cs, b));
    let j = index_at(cs, b);
    if j < k {
        lemma_offset_mono(cs, j, k);
    } else if k < j {
        lemma_offset_mono(cs, k, j);
    }
}

/// Facts about a boundary: its index is in range and maps back to it.
pub proof fn lemma_boundary_index(cs: Seq<char>, b: int)
    requires
        is_boundary(cs, b),
    ensures
        0 <= index_at(cs, b) <= cs.len(),
        offset_of(cs, index_at(cs, b)) == b,
        0 <= b <= byte_len(cs),
        index_at(cs, b) <= b,
{
    lemma_offset_range(cs, index_at(cs, b));
}

/// No boundary lies strictly between consecutive character offsets.
pub proof fn lemma_no_boundary_between(cs: Seq<char>, k: int, b: int)
    requires
        0 <= k < cs.len(),
        offset_of(cs, k) < b < offset_of(cs, k + 1),
    ensures
        !is_boundary(cs, b),
{
    if is_boundary(cs, b) {
        let j = index_at(cs, b);
        lemma_boundary_index(cs, b);
        if j <= k {
            if j < k {
                lemma_offset_mono(cs, j, k);
            }
        } else {
            if j > k + 1 {
                lemma_offset_mono(cs, k + 1, j);
            }
        }
    }
}

/// Dropping the first character shifts every offset by that character's width.
proof fn lemma_offset_drop_first(cs: Seq<char>, k: int)
    requires
        0 <= k < cs.len(),
    ensures
        offset_of(cs, k + 1) == char_width(cs[0]) + offset_of(cs.drop_first(), k),
{
    assert(cs.take(k + 1) =~= seq![cs[0]] + cs.drop_first().take(k));
    lemma_encode_concat(seq![cs[0]], cs.drop_first().take(k));
    lemma_encode_single(cs[0]);
}

/// vstd's byte-level notion of a character boundary coincides with
/// `is_boundary`.
pub proof fn lemma_char_boundary(cs: Seq<char>, b: int)
    ensures
        is_char_boundary(encode_utf8(cs), b) <==> is_boundary(cs, b),
    decreases cs.len(),
{
    let bytes = encode_utf8(cs);
    encode_utf8_valid_utf8(cs);
    lemma_offset_ends(cs);
    if b == 0 {
        assert(offset_of(cs, 0) == 0);
    } else if b < 0 || bytes.len() < b {
        if is_boundary(cs, b) {
            lemma_boundary_index(cs, b);
        }
    } else {
        // here 0 < b <= bytes.len(), so cs is not empty
        if cs.len() == 0 {
            assert(bytes =~= Seq::<u8>::empty());
        }
        assert(cs.len() > 0);
        encode_utf8_first_scalar(cs);
        let w = char_width(cs[0]) as int;
        let rest = cs.drop_first();
        assert(pop_first_scalar(bytes) =~= encode_utf8(rest));
        assert(is_char_boundary(bytes, b) == is_char_boundary(encode_utf8(rest), b - w));
        lemma_char_boundary(rest, b - w);
        if is_boundary(rest, b - w) {
            let j = index_at(rest, b - w);
            lemma_boundary_index(rest, b - w);
            lemma_offset_drop_first(cs, j);
            assert(offset_of(cs, j + 1) == b);
            assert(is_boundary(cs, b));
        }
        if is_boundary(cs, b) {
            let k = index_at(cs, b);
            lemma_boundary_index(cs, b);
            assert(k != 0);
            lemma_offset_drop_first(cs, k - 1);
            assert(offset_of(rest, k - 1) == b - w);
            assert(is_boundary(rest, b - w));
        }
    }
}

/// Slicing the encoding at the offset of character `k` gives the encodings
/// of the two halves of the text.
pub proof fn lemma_split_encoding(cs: Seq<char>, k: int)
    requires
        0 <= k <= cs.len(),
    ensures
        encode_utf8(cs).subrange(0, offset_of(cs, k)) == encode_utf8(cs.take(k)),
        encode_utf8(cs).subrange(offset_of(cs, k), byte_len(cs) as int) == encode_utf8(
            cs.skip(k),
        ),
{
    assert(cs =~= cs.take(k) + cs.skip(k));
    lemma_encode_concat(cs.take(k), cs.skip(k));
    assert(encode_utf8(cs).subrange(0, offset_of(cs, k)) =~= encode_utf8(cs.take(k)));
    assert(encode_utf8(cs).subrange(offset_of(cs, k), byte_len(cs) as int) =~= encode_utf8(
        cs.skip(k),
    ));
}

/// Properties of `floor_from`.
pub proof fn lemma_floor_from(cs: Seq<char>, p: int, k: int)
    requires
        0 <= p,
        0 <= k <= cs.len(),
    ensures
        0 <= floor_from(cs, p, k) <= k,
        offset_of(cs, floor_from(cs, p, k)) <= p,
        forall|i: int| floor_from(cs, p, k) < i <= k ==> p < #[trigger] offset_of(cs, i),
    decreases k,
{
    lemma_offset_ends(cs);
    if k <= 0 || offset_of(cs, k) <= p {
    } else {
        lemma_floor_from(cs, p, k - 1);
    }
}

/// `floor_offset(cs, p)` is a boundary not after `p` (for `p` within the
/// text) and no boundary lies strictly between it and `p`.
pub proof fn lemma_floor_offset(cs: Seq<char>, p: int)
    requires
        0 <= p,
    ensures
        is_boundary(cs, floor_offset(cs, p)),
        floor_offset(cs, p) <= p,
        p >= byte_len(cs) ==> floor_offset(cs, p) == byte_len(cs),
        forall|q: int| floor_offset(cs, p) < q <= p && is_boundary(cs, q) ==> false,
        is_boundary(cs, p) ==> floor_offset(cs, p) == p,
{
    let n = cs.len() as int;
    lemma_floor_from(cs, p, n);
    let j = floor_from(cs, p, n);
    lemma_index_at(cs, j);
    lemma_offset_ends(cs);
    assert forall|q: int| floor_offset(cs, p) < q <= p && is_boundary(cs, q) implies false by {
        let i = index_at(cs, q);
        lemma_boundary_index(cs, q);
        if i <= j {
            if i < j {
                lemma_offset_mono(cs, i, j);
            }
        } else {
            assert(p < offset_of(cs, i));
        }
    }
}

/// A text position in a run of whitespace-ness `ws` ends somewhere after it.
pub proof fn lemma_run_end(cs: Seq<char>, i: int, ws: bool)
    requires
        0 <= i <= cs.len(),
    ensures
        i <= run_end(cs, i, ws) <= cs.len(),
    decreases cs.len() - i,
{
    if i < cs.len() && is_white_space(cs[i]) == ws {
        lemma_run_end(cs, i + 1, ws);
    }
}

pub proof fn lemma_run_start(cs: Seq<char>, i: int, ws: bool)
    requires
        0 <= i <= cs.len(),
    ensures
        0 <= run_start(cs, i, ws) <= i,
    decreases i,
{
    if i > 0 && is_white_space(cs[i - 1]) == ws {
        lemma_run_start(cs, i - 1, ws);
    }
}

/// Offsets in a concatenation: those inside the first part are unchanged,
/// those in the second part are shifted by the byte length of the first.
pub proof fn lemma_offset_concat(a: Seq<char>, b: Seq<char>, j: int)
    requires
        0 <= j <= a.len() + b.len(),
    ensures
        j <= a.len() ==> offset_of(a + b, j) == offset_of(a, j),
        j >= a.len() ==> offset_of(a + b, j) == byte_len(a) + offset_of(b, j - a.len()),
{
    if j <= a.len() {
        assert((a + b).take(j) =~= a.take(j));
    }
    if j >= a.len() {
        assert((a + b).take(j) =~= a + b.take(j - a.len()));
        lemma_encode_concat(a, b.take(j - a.len()));
    }
}

/// Offsets within a prefix of the text agree with those of the whole text.
pub proof fn lemma_offset_take(cs: Seq<char>, m: int, j: int)
    requires
        0 <= j <= m <= cs.len(),
    ensures
        offset_of(cs.take(m), j) == offset_of(cs, j),
{
    assert(cs.take(m).take(j) =~= cs.take(j));
}

/// Byte length of a concatenation.
pub proof fn lemma_byte_len_concat(a: Seq<char>, b: Seq<char>)
    ensures
        byte_len(a + b) == byte_len(a) + byte_len(b),
{
    lemma_encode_concat(a, b);
}

/// The byte length of a sub-range of the text.
pub proof fn lemma_byte_len_subrange(cs: Seq<char>, i: int, j: int)
    requires
        0 <= i <= j <= cs.len(),
    ensures
        byte_len(cs.subrange(i, j)) == offset_of(cs, j) - offset_of(cs, i),
{
    assert(cs.take(j) =~= cs.take(i) + cs.subrange(i, j));
    lemma_encode_concat(cs.take(i), cs.subrange(i, j));
}

/// `String::insert_str`: inserts `s` at byte offset `idx`. The offset must be
/// a character boundary of the string (otherwise the call panics), and the
/// grown string must stay within `isize::MAX` bytes (otherwise allocation
/// panics). The bytes after the call are the old bytes before `idx`, the
/// bytes of `s`, then the old bytes from `idx` on.
#[verifier::external_body]
pub(crate) fn string_insert_str(buf: &mut String, idx: usize, s: &str)
    requires
        is_char_boundary(encode_utf8(old(buf)@), idx as int),
        byte_len(old(buf)@) + byte_len(s@) <= isize::MAX,
    ensures
        encode_utf8(final(buf)@) == encode_utf8(old(buf)@).subrange(0, idx as int) + encode_utf8(
            s@,
        ) + encode_utf8(old(buf)@).subrange(idx as int, byte_len(old(buf)@) as int),
{
    buf.insert_str(idx, s)
}

/// `String::drain(start..end)`, with the drained characters dropped. Both
/// ends must be character boundaries with `start <= end` (otherwise the call
/// panics). The bytes after the call are the old bytes before `start`
/// followed by the old bytes from `end` on.
#[verifier::external_body]
pub(crate) fn string_drain(buf: &mut String, start: usize, end: usize)
    requires
        start <= end,
        is_char_boundary(encode_utf8(old(buf)@), start as int),
        is_char_boundary(encode_utf8(old(buf)@), end as int),
    ensures
        encode_utf8(final(buf)@) == encode_utf8(old(buf)@).subrange(0, start as int)
            + encode_utf8(old(buf)@).subrange(end as int, byte_len(old(buf)@) as int),
{
    buf.drain(start..end);
}

/// `String::push`: appends one character.
#[verifier::external_body]
pub(crate) fn string_push(s: &mut String, c: char)
    ensures
        final(s)@ == old(s)@.push(c),
{
    s.push(c)
}

/// The characters of `s`, in order.
pub fn chars_of(s: &str) -> (v: Vec<char>)
    ensures
        v@ == s@,
{
    let n = s.unicode_len();
    let mut v: Vec<char> = Vec::new();
    let mut i: usize = 0;
    while i < n
        invariant
            n == s@.len(),
            i <= n,
            v@ == s@.take(i as int),
        decreases n - i,
    {
        let c = s.get_char(i);
        v.push(c);
        i = i + 1;
    }
    v
}

/// A `String` holding the given characters.
pub fn string_of(cs: &Vec<char>) -> (s: String)
    ensures
        s@ == cs@,
{
    let mut s = String::new();
    let mut i: usize = 0;
    while i < cs.len()
        invariant
            i <= cs.len(),
            s@ == cs@.take(i as int),
        decreases cs.len() - i,
    {
        string_push(&mut s, cs[i]);
        i = i + 1;
    }
    s
}

} // verus!
