//! The client config file: lines of the form `font_size = 18`. Reading the
//! file and parsing the number are the caller's; this module finds the
//! value texts.
use vstd::prelude::*;
use crate::utf8_text::{char_is_whitespace, chars_of, is_white_space, run_end, run_start, string_of};

verus! {

broadcast use vstd::seq::group_seq_axioms, vstd::seq_lib::group_seq_properties;

/// `s` without leading and trailing whitespace.
pub open spec fn trimmed(s: Seq<char>) -> Seq<char> {
    let a = run_end(s, 0, true);
    let b = run_start(s, s.len() as int, true);
    if a < b {
        s.subrange(a, b)
    } else {
        seq![]
    }
}

/// First index `>= i` of `s` holding neither a space nor `=`.
pub open spec fn past_assign(s: Seq<char>, i: int) -> int
    decreases s.len() - i,
{
    if i < 0 || i >= s.len() || (s[i] != ' ' && s[i] != '=') {
        i
    } else {
        past_assign(s, i + 1)
    }
}

/// Key of the font size setting.
pub open spec fn font_size_key() -> Seq<char> {
    seq!['f', 'o', 'n', 't', '_', 's', 'i', 'z', 'e']
}

/// The value text of a `font_size` line: after the key, spaces and `=`
/// signs are skipped and the rest is trimmed.
pub open spec fn setting_value(line: Seq<char>) -> Option<Seq<char>> {
    let t = trimmed(line);
    if t.len() >= 9 && t.take(9) == font_size_key() {
        let rest = t.skip(9);
        Some(trimmed(rest.skip(past_assign(rest, 0))))
    } else {
        None
    }
}

/// Index of the first `\n` at or after `i`, or the length.
pub open spec fn line_end(s: Seq<char>, i: int) -> int
    decreases s.len() - i,
{
    if i < 0 || i >= s.len() || s[i] == '\n' {
        i
    } else {
        line_end(s, i + 1)
    }
}

/// Value texts of the `font_size` lines of `s` from index `i` on, in order.
pub open spec fn values_from(s: Seq<char>, i: int) -> Seq<Seq<char>>
    decreases s.len() - i,
{
    if i < 0 || i > s.len() {
        seq![]
    } else {
        let e = line_end(s, i);
        proof {
            lemma_line_end(s, i);
        }
        let here = match setting_value(s.subrange(i, e)) {
            Some(v) => seq![v],
            None => seq![],
        };
        if e < s.len() {
            here + values_from(s, e + 1)
        } else {
            here
        }
    }
}

pub open spec fn texts(v: Seq<String>) -> Seq<Seq<char>> {
    v.map_values(|s: String| s@)
}

pub proof fn lemma_line_end(s: Seq<char>, i: int)
    requires
        0 <= i <= s.len(),
    ensures
        i <= line_end(s, i) <= s.len(),
        line_end(s, i) < s.len() ==> s[line_end(s, i)] == '\n',
    decreases s.len() - i,
{
    if i < s.len() && s[i] != '\n' {
        lemma_line_end(s, i + 1);
    }
}

proof fn lemma_run_end_bound(s: Seq<char>, i: int)
    requires
        0 <= i <= s.len(),
    ensures
        i <= run_end(s, i, true) <= s.len(),
    decreases s.len() - i,
{
    if i < s.len() && is_white_space(s[i]) {
        lemma_run_end_bound(s, i + 1);
    }
}

proof fn lemma_run_start_bound(s: Seq<char>, i: int)
    requires
        0 <= i <= s.len(),
    ensures
        0 <= run_start(s, i, true) <= i,
    decreases i,
{
    if i > 0 && is_white_space(s[i - 1]) {
        lemma_run_start_bound(s, i - 1);
    }
}

proof fn lemma_past_assign(s: Seq<char>, i: int)
    requires
        0 <= i <= s.len(),
    ensures
        i <= past_assign(s, i) <= s.len(),
    decreases s.len() - i,
{
    if i < s.len() && (s[i] == ' ' || s[i] == '=') {
        lemma_past_assign(s, i + 1);
    }
}

/// The characters of `v` between `a` and `b`.
fn slice_chars(v: &Vec<char>, a: usize, b: usize) -> (r: Vec<char>)
    requires
        a <= b <= v@.len(),
    ensures
        r@ == v@.subrange(a as int, b as int),
{
    let mut r: Vec<char> = Vec::new();
    let mut k = a;
    while k < b
        invariant
            a <= k <= b,
            b <= v@.len(),
            r@ == v@.subrange(a as int, k as int),
        decreases b - k,
    {
        r.push(v[k]);
        k = k + 1;
    }
    r
}

/// `v` without leading and trailing whitespace.
fn trim_chars(v: &Vec<char>) -> (r: Vec<char>)
    ensures
        r@ == trimmed(v@),
{
    let n = v.len();
    let mut a: usize = 0;
    while a < n && char_is_whitespace(v[a])
        invariant
            n == v@.len(),
            a <= n,
            run_end(v@, a as int, true) == run_end(v@, 0, true),
        decreases n - a,
    {
        a = a + 1;
    }
    let mut b: usize = n;
    while b > 0 && char_is_whitespace(v[b - 1])
        invariant
            n == v@.len(),
            b <= n,
            run_start(v@, b as int, true) == run_start(v@, n as int, true),
        decreases b,
    {
        b = b - 1;
    }
    if a < b {
        slice_chars(v, a, b)
    } else {
        Vec::new()
    }
}

/// The value text of `line` if it sets `font_size`.
fn line_value(line: &Vec<char>) -> (r: Option<Vec<char>>)
    ensures
        match r {
            Some(v) => setting_value(line@) == Some(v@),
            None => setting_value(line@) is None,
        },
{
    let t = trim_chars(line);
    let key = chars_of("font_size");
    proof {
        reveal_strlit("font_size");
        assert(key@ =~= font_size_key());
    }
    if t.len() < 9 {
        return None;
    }
    let mut k: usize = 0;
    while k < 9
        invariant
            k <= 9,
            t@ == trimmed(line@),
            t@.len() >= 9,
            key@ == font_size_key(),
            t@.take(k as int) == key@.take(k as int),
        decreases 9 - k,
    {
        if t[k] != key[k] {
            assert(t@.take(9) != font_size_key()) by {
                assert(t@.take(9)[k as int] == t@[k as int]);
                if t@.take(9) == font_size_key() {
                    assert(t@.take(9)[k as int] == font_size_key()[k as int]);
                }
            }
            return None;
        }
        assert(t@.take(k + 1) =~= t@.take(k as int).push(t@[k as int]));
        assert(key@.take(k + 1) =~= key@.take(k as int).push(key@[k as int]));
        k = k + 1;
    }
    assert(t@.take(9) =~= font_size_key());
    let rest = slice_chars(&t, 9, t.len());
    assert(rest@ =~= t@.skip(9));
    let mut p: usize = 0;
    while p < rest.len() && (rest[p] == ' ' || rest[p] == '=')
        invariant
            p <= rest@.len(),
            past_assign(rest@, p as int) == past_assign(rest@, 0),
        decreases rest@.len() - p,
    {
        p = p + 1;
    }
    let tail = slice_chars(&rest, p, rest.len());
    assert(tail@ =~= rest@.skip(p as int));
    Some(trim_chars(&tail))
}

/// The value texts of the `font_size` lines of `content`, in file order;
/// the first that parses as a number is the setting.
pub fn font_size_values(content: &str) -> (r: Vec<String>)
    ensures
        texts(r@) == values_from(content@, 0),
{
    let cs = chars_of(content);
    let n = cs.len();
    let mut out: Vec<String> = Vec::new();
    let mut pos: usize = 0;
    loop
        invariant
            cs@ == content@,
            n == cs@.len(),
            pos <= n,
            texts(out@) + values_from(cs@, pos as int) == values_from(cs@, 0),
        decreases n - pos,
    {
        let mut e = pos;
        while e < n && cs[e] != '\n'
            invariant
                pos <= e <= n,
                n == cs@.len(),
                line_end(cs@, e as int) == line_end(cs@, pos as int),
            decreases n - e,
        {
            e = e + 1;
        }
        let line = slice_chars(&cs, pos, e);
        let ghost before = out@;
        match line_value(&line) {
            Some(v) => {
                let s = string_of(&v);
                out.push(s);
                assert(texts(out@) =~= texts(before).push(s@));
            },
            None => {},
        }
        proof {
            lemma_line_end(cs@, pos as int);
        }
        if e >= n {
            assert(texts(out@) =~= values_from(cs@, 0)) by {
                assert(texts(before) + values_from(cs@, pos as int) == values_from(cs@, 0));
            }
            return out;
        }
        pos = e + 1;
    }
}

} // verus!
