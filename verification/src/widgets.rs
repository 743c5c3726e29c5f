//! Content of the UI widgets: which styled spans each strip shows for a
//! given width. Drawing the spans into a terminal buffer is left to the
//! caller.
use vstd::prelude::*;
use crate::editor::InputEditor;
use crate::grid::{Attrs, Color, ATTR_BOLD, ATTR_DIM, ATTR_REVERSED};
use vstd::string::StringExecFns;
use crate::utf8_text::{chars_of, string_push};

verus! {

broadcast use vstd::seq::group_seq_axioms, vstd::seq_lib::group_seq_properties;

/// Foreground colour (if set) and added attribute bits of a span.
#[derive(Debug, Clone, Copy, PartialEq, Eq)]
pub struct TextStyle {
    pub fg: Option<Color>,
    pub add_modifier: Attrs,
}

/// A run of text in one style.
#[derive(Debug, Clone)]
pub struct StyledSpan {
    pub content: String,
    pub style: TextStyle,
}

/// Abstract value of a span: its characters and style.
pub open spec fn span_of(s: StyledSpan) -> (Seq<char>, TextStyle) {
    (s.content@, s.style)
}

pub open spec fn spans_of(v: Seq<StyledSpan>) -> Seq<(Seq<char>, TextStyle)> {
    v.map_values(|s: StyledSpan| span_of(s))
}

pub open spec fn plain() -> TextStyle {
    TextStyle { fg: None, add_modifier: 0 }
}

/// Display width of a sequence of spans, one column per character.
pub open spec fn width(spans: Seq<(Seq<char>, TextStyle)>) -> int
    decreases spans.len(),
{
    if spans.len() == 0 {
        0
    } else {
        width(spans.drop_last()) + spans.last().0.len()
    }
}

/// `s` cut to at most `max` characters; an over-long text keeps its first
/// `max - 1` characters followed by an ellipsis.
pub open spec fn truncated(s: Seq<char>, max: int) -> Seq<char> {
    if max == 0 {
        seq![]
    } else if s.len() <= max {
        s
    } else if max == 1 {
        seq!['…']
    } else {
        s.take(max - 1).push('…')
    }
}

/// Cuts `s` to at most `max_cols` characters, marking a cut with `…`.
pub fn truncate_to_width(s: &str, max_cols: usize) -> (r: String)
    ensures
        r@ == truncated(s@, max_cols as int),
{
    if max_cols == 0 {
        return String::new();
    }
    let total = s.unicode_len();
    if total <= max_cols {
        return s.to_owned();
    }
    let mut out = String::new();
    if max_cols == 1 {
        string_push(&mut out, '…');
        assert(out@ =~= seq!['…']);
        return out;
    }
    let take = max_cols - 1;
    let cs = chars_of(s);
    let mut i: usize = 0;
    while i < take
        invariant
            take < cs@.len(),
            cs@ == s@,
            i <= take,
            out@ == s@.take(i as int),
        decreases take - i,
    {
        string_push(&mut out, cs[i]);
        assert(s@.take(i + 1) =~= s@.take(i as int).push(s@[i as int]));
        i = i + 1;
    }
    string_push(&mut out, '…');
    out
}

/// Decimal digits of `n`.
pub open spec fn decimal(n: nat) -> Seq<char>
    decreases n,
{
    if n < 10 {
        seq![digit_char(n)]
    } else {
        decimal(n / 10).push(digit_char(n % 10))
    }
}

pub open spec fn digit_char(d: nat) -> char {
    if d == 0 {
        '0'
    } else if d == 1 {
        '1'
    } else if d == 2 {
        '2'
    } else if d == 3 {
        '3'
    } else if d == 4 {
        '4'
    } else if d == 5 {
        '5'
    } else if d == 6 {
        '6'
    } else if d == 7 {
        '7'
    } else if d == 8 {
        '8'
    } else {
        '9'
    }
}

fn digit(d: u64) -> (c: char)
    requires
        d < 10,
    ensures
        c == digit_char(d as nat),
{
    if d == 0 {
        '0'
    } else if d == 1 {
        '1'
    } else if d == 2 {
        '2'
    } else if d == 3 {
        '3'
    } else if d == 4 {
        '4'
    } else if d == 5 {
        '5'
    } else if d == 6 {
        '6'
    } else if d == 7 {
        '7'
    } else if d == 8 {
        '8'
    } else {
        '9'
    }
}

/// Appends the decimal digits of `n` to `out`.
pub(crate) fn push_decimal(out: &mut String, n: u64)
    ensures
        final(out)@ == old(out)@ + decimal(n as nat),
    decreases n,
{
    if n < 10 {
        string_push(out, digit(n));
        assert(old(out)@.push(digit_char(n as nat)) =~= old(out)@ + decimal(n as nat));
    } else {
        push_decimal(out, n / 10);
        string_push(out, digit(n % 10));
        assert(old(out)@ + decimal((n / 10) as nat) + seq![digit_char((n % 10) as nat)] =~= old(
            out,
        )@ + decimal(n as nat));
    }
}

/// A span of `content` in `style`.
fn span(content: String, style: TextStyle) -> (r: StyledSpan)
    ensures
        span_of(r) == (content@, style),
{
    StyledSpan { content, style }
}

/// Concatenation of `a` and `b` as a new `String`.
fn concat(a: &str, b: &str) -> (r: String)
    ensures
        r@ == a@ + b@,
{
    let mut s = a.to_owned();
    s.append(b);
    s
}

/// Number of characters of a span's text.
fn span_width(s: &StyledSpan) -> (r: usize)
    ensures
        r == s.content@.len(),
{
    s.content.as_str().unicode_len()
}

/// The spans of the first `n` groups, in order.
pub open spec fn flatten(groups: Seq<Seq<(Seq<char>, TextStyle)>>, n: int) -> Seq<
    (Seq<char>, TextStyle),
>
    decreases n,
{
    if n <= 0 {
        seq![]
    } else {
        flatten(groups, n - 1) + groups[n - 1]
    }
}

/// How many leading groups fit in `max` columns, given `used` columns taken
/// by groups before `i`.
pub open spec fn fit_count(
    groups: Seq<Seq<(Seq<char>, TextStyle)>>,
    max: int,
    i: int,
    used: int,
) -> int
    decreases groups.len() - i,
{
    if i < 0 || i >= groups.len() || used + width(groups[i]) > max {
        i
    } else {
        fit_count(groups, max, i + 1, used + width(groups[i]))
    }
}

/// Drops trailing spans until `extra` more columns fit in `max`.
pub open spec fn trim(spans: Seq<(Seq<char>, TextStyle)>, max: int, extra: int) -> Seq<
    (Seq<char>, TextStyle),
>
    decreases spans.len(),
{
    if spans.len() > 0 && width(spans) + extra > max {
        trim(spans.drop_last(), max, extra)
    } else {
        spans
    }
}

/// Lays out groups of spans on one line of `max` columns: as many leading
/// groups as fit; if some did not fit, trailing spans are dropped until
/// `suffix` fits too and `suffix` is appended — or a lone `…` when nothing
/// is left.
pub open spec fn fit_line(
    groups: Seq<Seq<(Seq<char>, TextStyle)>>,
    max: int,
    suffix: Seq<char>,
) -> Seq<(Seq<char>, TextStyle)> {
    let n = fit_count(groups, max, 0, 0);
    if n >= groups.len() {
        flatten(groups, groups.len() as int)
    } else {
        let kept = trim(flatten(groups, n), max, suffix.len() as int);
        if width(kept) > 0 {
            kept.push((suffix, plain()))
        } else {
            kept.push((seq!['…'], plain()))
        }
    }
}

proof fn lemma_width_push(s: Seq<(Seq<char>, TextStyle)>, x: (Seq<char>, TextStyle))
    ensures
        width(s.push(x)) == width(s) + x.0.len(),
{
    assert(s.push(x).drop_last() =~= s);
}

proof fn lemma_width_concat(a: Seq<(Seq<char>, TextStyle)>, b: Seq<(Seq<char>, TextStyle)>)
    ensures
        width(a + b) == width(a) + width(b),
    decreases b.len(),
{
    if b.len() == 0 {
        assert(a + b =~= a);
    } else {
        lemma_width_concat(a, b.drop_last());
        assert((a + b).drop_last() =~= a + b.drop_last());
    }
}

proof fn lemma_width_nonneg(s: Seq<(Seq<char>, TextStyle)>)
    ensures
        width(s) >= 0,
    decreases s.len(),
{
    if s.len() > 0 {
        lemma_width_nonneg(s.drop_last());
    }
}

proof fn lemma_map_push<A, B>(s: Seq<A>, x: A, f: spec_fn(A) -> B)
    ensures
        s.push(x).map_values(f) == s.map_values(f).push(f(x)),
{
    assert(s.push(x).map_values(f) =~= s.map_values(f).push(f(x)));
}

pub open spec fn groups_of(v: Seq<Vec<StyledSpan>>) -> Seq<Seq<(Seq<char>, TextStyle)>> {
    v.map_values(|g: Vec<StyledSpan>| spans_of(g@))
}

/// A copy of a span.
fn copy_span(s: &StyledSpan) -> (r: StyledSpan)
    ensures
        span_of(r) == span_of(*s),
{
    StyledSpan { content: s.content.clone(), style: s.style }
}

/// Appends copies of `src` to `out`.
fn extend_spans(out: &mut Vec<StyledSpan>, src: &Vec<StyledSpan>)
    ensures
        spans_of(final(out)@) == spans_of(old(out)@) + spans_of(src@),
{
    let mut k: usize = 0;
    while k < src.len()
        invariant
            k <= src@.len(),
            spans_of(out@) == spans_of(old(out)@) + spans_of(src@).take(k as int),
        decreases src@.len() - k,
    {
        let ghost before = out@;
        let s = copy_span(&src[k]);
        out.push(s);
        proof {
            lemma_map_push(before, s, |x: StyledSpan| span_of(x));
            assert(spans_of(src@).take(k + 1) =~= spans_of(src@).take(k as int).push(span_of(src@[k as int])));
            assert(spans_of(old(out)@) + spans_of(src@).take(k + 1) =~= (spans_of(old(out)@) + spans_of(src@).take(k as int)).push(span_of(src@[k as int])));
        }
        k = k + 1;
    }
    assert(spans_of(src@).take(src@.len() as int) =~= spans_of(src@));
}

/// Total width of a group.
fn group_width(group: &Vec<StyledSpan>) -> (w: u128)
    ensures
        w == width(spans_of(group@)),
        w <= (usize::MAX as int) * (usize::MAX as int),
{
    let mut w: u128 = 0;
    let mut k: usize = 0;
    while k < group.len()
        invariant
            k <= group@.len(),
            w == width(spans_of(group@).take(k as int)),
            w <= k * (usize::MAX as int),
        decreases group@.len() - k,
    {
        proof {
            assert(spans_of(group@).take(k + 1) =~= spans_of(group@).take(k as int).push(
                span_of(group@[k as int]),
            ));
            lemma_width_push(spans_of(group@).take(k as int), span_of(group@[k as int]));
        }
        let sw = span_width(&group[k]);
        proof {
            assert(k * (usize::MAX as int) + usize::MAX as int <= (usize::MAX as int) * (usize::MAX as int)) by (nonlinear_arith)
                requires
                    k < usize::MAX,
            ;
            assert((usize::MAX as int) * (usize::MAX as int) < u128::MAX) by (nonlinear_arith);
            assert((k + 1) * (usize::MAX as int) == k * (usize::MAX as int) + usize::MAX as int) by (nonlinear_arith);
        }
        w = w + sw as u128;
        k = k + 1;
    }
    assert(spans_of(group@).take(group@.len() as int) =~= spans_of(group@));
    assert(group@.len() * (usize::MAX as int) <= (usize::MAX as int) * (usize::MAX as int)) by (nonlinear_arith)
        requires
            group@.len() <= usize::MAX,
    ;
    w
}

/// Lays out `groups` on a line of `max_cols` columns; see [`fit_line`].
fn fit_groups(groups: &Vec<Vec<StyledSpan>>, max_cols: usize, suffix: &str) -> (r: Vec<StyledSpan>)
    ensures
        spans_of(r@) == fit_line(groups_of(groups@), max_cols as int, suffix@),
{
    let ghost gs = groups_of(groups@);
    let ghost max = max_cols as int;
    let n = groups.len();
    let mut out: Vec<StyledSpan> = Vec::new();
    let mut used: usize = 0;
    let mut truncated = false;
    let mut i: usize = 0;
    proof {
        assert(spans_of(out@) =~= flatten(gs, 0));
    }
    while i < n
        invariant_except_break
            n == gs.len(),
            gs == groups_of(groups@),
            max == max_cols as int,
            i <= n,
            used <= max_cols,
            spans_of(out@) == flatten(gs, i as int),
            width(flatten(gs, i as int)) == used,
            fit_count(gs, max, 0, 0) == fit_count(gs, max, i as int, used as int),
            !truncated,
        ensures
            n == gs.len(),
            i <= n,
            used <= max_cols,
            spans_of(out@) == flatten(gs, i as int),
            width(flatten(gs, i as int)) == used,
            fit_count(gs, max, 0, 0) == i,
            truncated == (i < n),
        decreases n - i,
    {
        let group = &groups[i];
        assert(spans_of(group@) == gs[i as int]);
        let w = group_width(group);
        proof {
            assert((usize::MAX as int) * (usize::MAX as int) + usize::MAX as int <= u128::MAX) by (nonlinear_arith);
        }
        if used as u128 + w > max_cols as u128 {
            assert(fit_count(gs, max, i as int, used as int) == i as int);
            truncated = true;
            break;
        }
        let ghost before = out@;
        extend_spans(&mut out, group);
        proof {
            lemma_width_concat(flatten(gs, i as int), gs[i as int]);
        }
        used = used + w as usize;
        i = i + 1;
    }
    if !truncated {
        return out;
    }
    let sw = suffix.unicode_len();
    let ghost target = trim(flatten(gs, i as int), max, sw as int);
    loop
        invariant
            used == width(spans_of(out@)),
            used <= max_cols,
            max == max_cols as int,
            sw == suffix@.len(),
            trim(spans_of(out@), max, sw as int) == target,
        ensures
            spans_of(out@) == target,
            used == width(spans_of(out@)),
        decreases out@.len(),
    {
        if !((sw > max_cols || used > max_cols - sw) && out.len() > 0) {
            assert(trim(spans_of(out@), max, sw as int) == spans_of(out@));
            break;
        }
        let ghost before = out@;
        let last = out.pop().unwrap();
        let lw = span_width(&last);
        proof {
            assert(spans_of(out@) =~= spans_of(before).drop_last());
            assert(spans_of(before).last() == span_of(last));
            lemma_width_nonneg(spans_of(out@));
            assert(trim(spans_of(before), max, sw as int) == trim(spans_of(out@), max, sw as int));
        }
        used = used - lw;
    }
    if used > 0 {
        let ghost before = out@;
        let sp = span(suffix.to_owned(), TextStyle { fg: None, add_modifier: 0 });
        out.push(sp);
        proof {
            lemma_map_push(before, sp, |x: StyledSpan| span_of(x));
        }
    } else {
        let mut e = String::new();
        string_push(&mut e, '…');
        let ghost before = out@;
        let sp = span(e, TextStyle { fg: None, add_modifier: 0 });
        out.push(sp);
        proof {
            lemma_map_push(before, sp, |x: StyledSpan| span_of(x));
            assert(e@ =~= seq!['…']);
        }
    }
    out
}


proof fn lemma_fit_count(groups: Seq<Seq<(Seq<char>, TextStyle)>>, max: int, i: int, used: int)
    requires
        0 <= i <= groups.len(),
        used == width(flatten(groups, i)),
        used <= max,
    ensures
        i <= fit_count(groups, max, i, used) <= groups.len(),
        width(flatten(groups, fit_count(groups, max, i, used))) <= max,
    decreases groups.len() - i,
{
    if i < groups.len() && used + width(groups[i]) <= max {
        lemma_width_concat(flatten(groups, i), groups[i]);
        lemma_fit_count(groups, max, i + 1, used + width(groups[i]));
    }
}

proof fn lemma_trim(spans: Seq<(Seq<char>, TextStyle)>, max: int, extra: int)
    ensures
        trim(spans, max, extra).len() == 0 || width(trim(spans, max, extra)) + extra <= max,
    decreases spans.len(),
{
    if spans.len() > 0 && width(spans) + extra > max {
        lemma_trim(spans.drop_last(), max, extra);
    }
}

/// A laid-out line never takes more columns than it was given (at least
/// one, room for the lone ellipsis).
pub proof fn law_line_fits(
    groups: Seq<Seq<(Seq<char>, TextStyle)>>,
    max: int,
    suffix: Seq<char>,
)
    requires
        max >= 1,
    ensures
        width(fit_line(groups, max, suffix)) <= max,
{
    assert(flatten(groups, 0) =~= Seq::<(Seq<char>, TextStyle)>::empty());
    lemma_fit_count(groups, max, 0, 0);
    let n = fit_count(groups, max, 0, 0);
    if n < groups.len() {
        let kept = trim(flatten(groups, n), max, suffix.len() as int);
        lemma_trim(flatten(groups, n), max, suffix.len() as int);
        lemma_width_nonneg(kept);
        if width(kept) > 0 {
            lemma_width_push(kept, (suffix, plain()));
        } else {
            lemma_width_push(kept, (seq!['…'], plain()));
        }
    }
}

/// Style of a legend key: bold cyan.
pub open spec fn key_style() -> TextStyle {
    TextStyle { fg: Some(Color::Cyan), add_modifier: ATTR_BOLD }
}

pub open spec fn bold() -> TextStyle {
    TextStyle { fg: None, add_modifier: ATTR_BOLD }
}

/// Spans of legend entry `i`: a two-space separator (except before the
/// first entry), the keys in bold cyan, then a space and the action.
pub open spec fn legend_group(entries: Seq<(String, String)>, i: int) -> Seq<(Seq<char>, TextStyle)> {
    (if i > 0 {
        seq![("  "@, plain())]
    } else {
        seq![]
    }) + seq![(entries[i].0@, key_style()), (seq![' '] + entries[i].1@, plain())]
}

pub open spec fn legend_groups(entries: Seq<(String, String)>) -> Seq<Seq<(Seq<char>, TextStyle)>> {
    Seq::new(entries.len(), |i: int| legend_group(entries, i))
}

/// The hotkey legend for a row of `max_cols` columns: `keys action` pairs
/// separated by two spaces, as many as fit, with `  …` (or `…`) marking
/// that some were left out.
pub fn legend_spans(entries: &Vec<(String, String)>, max_cols: usize) -> (r: Vec<StyledSpan>)
    ensures
        spans_of(r@) == if max_cols == 0 || entries@.len() == 0 {
            seq![]
        } else {
            fit_line(legend_groups(entries@), max_cols as int, "  …"@)
        },
{
    if max_cols == 0 || entries.len() == 0 {
        return Vec::new();
    }
    let mut groups: Vec<Vec<StyledSpan>> = Vec::new();
    let mut i: usize = 0;
    while i < entries.len()
        invariant
            i <= entries@.len(),
            groups_of(groups@) == legend_groups(entries@).take(i as int),
        decreases entries@.len() - i,
    {
        let mut g: Vec<StyledSpan> = Vec::new();
        if i > 0 {
            g.push(span("  ".to_owned(), TextStyle { fg: None, add_modifier: 0 }));
        }
        g.push(span(entries[i].0.clone(), TextStyle { fg: Some(Color::Cyan), add_modifier: ATTR_BOLD }));
        g.push(span(concat(" ", entries[i].1.as_str()), TextStyle { fg: None, add_modifier: 0 }));
        proof {
            reveal_strlit(" ");
            assert(" "@ =~= seq![' ']);
            assert(spans_of(g@) =~= legend_group(entries@, i as int));
        }
        let ghost before = groups@;
        groups.push(g);
        proof {
            lemma_map_push(before, g, |x: Vec<StyledSpan>| spans_of(x@));
            assert(legend_groups(entries@).take(i + 1) =~= legend_groups(entries@).take(i as int).push(legend_group(entries@, i as int)));
        }
        i = i + 1;
    }
    assert(legend_groups(entries@).take(entries@.len() as int) =~= legend_groups(entries@));
    fit_groups(&groups, max_cols, "  …")
}

/// Status of a workspace tab.
#[derive(Debug, Clone, Copy, PartialEq, Eq)]
pub enum TabStatus {
    Active,
    Attention,
    Idle,
}

/// One workspace tab.
#[derive(Debug, Clone)]
pub struct TabCell {
    pub project: String,
    pub trigger: String,
    pub status: TabStatus,
}

pub open spec fn is_lit(s: TabStatus) -> bool {
    s is Active || s is Attention
}

/// Spans of tab `i`: ` > ` before an active (or attention) tab and ` - `
/// before an idle one (none before the first), the project in brackets —
/// bold unless idle — then the trigger in parentheses.
pub open spec fn tab_group(tabs: Seq<TabCell>, i: int) -> Seq<(Seq<char>, TextStyle)> {
    let t = tabs[i];
    (if i == 0 {
        seq![]
    } else if is_lit(t.status) {
        seq![(" > "@, plain())]
    } else {
        seq![(" - "@, plain())]
    }) + seq![
        (seq!['['] + t.project@ + seq![']'], if is_lit(t.status) { bold() } else { plain() }),
        (seq![' ', '('] + t.trigger@ + seq![')'], plain()),
    ]
}

pub open spec fn tab_groups(tabs: Seq<TabCell>) -> Seq<Seq<(Seq<char>, TextStyle)>> {
    Seq::new(tabs.len(), |i: int| tab_group(tabs, i))
}

/// The tab strip for `max_cols` columns: as many tabs as fit, with ` …`
/// (or `…`) marking that the rightmost ones were left out.
pub fn build_tabs_line(tabs: &Vec<TabCell>, max_cols: usize) -> (r: Vec<StyledSpan>)
    ensures
        spans_of(r@) == fit_line(tab_groups(tabs@), max_cols as int, " …"@),
{
    let mut groups: Vec<Vec<StyledSpan>> = Vec::new();
    let mut i: usize = 0;
    while i < tabs.len()
        invariant
            i <= tabs@.len(),
            groups_of(groups@) == tab_groups(tabs@).take(i as int),
        decreases tabs@.len() - i,
    {
        let t = &tabs[i];
        let lit = match t.status {
            TabStatus::Active | TabStatus::Attention => true,
            TabStatus::Idle => false,
        };
        let mut g: Vec<StyledSpan> = Vec::new();
        if i > 0 {
            if lit {
                g.push(span(" > ".to_owned(), TextStyle { fg: None, add_modifier: 0 }));
            } else {
                g.push(span(" - ".to_owned(), TextStyle { fg: None, add_modifier: 0 }));
            }
        }
        let project = concat(concat("[", t.project.as_str()).as_str(), "]");
        let style = if lit {
            TextStyle { fg: None, add_modifier: ATTR_BOLD }
        } else {
            TextStyle { fg: None, add_modifier: 0 }
        };
        g.push(span(project, style));
        g.push(span(concat(concat(" (", t.trigger.as_str()).as_str(), ")"), TextStyle { fg: None, add_modifier: 0 }));
        proof {
            reveal_strlit("[");
            reveal_strlit("]");
            reveal_strlit(" (");
            reveal_strlit(")");
            assert("["@ =~= seq!['[']);
            assert("]"@ =~= seq![']']);
            assert(" ("@ =~= seq![' ', '(']);
            assert(")"@ =~= seq![')']);
            assert(spans_of(g@) =~= tab_group(tabs@, i as int));
        }
        let ghost before = groups@;
        groups.push(g);
        proof {
            lemma_map_push(before, g, |x: Vec<StyledSpan>| spans_of(x@));
            assert(tab_groups(tabs@).take(i + 1) =~= tab_groups(tabs@).take(i as int).push(tab_group(tabs@, i as int)));
        }
        i = i + 1;
    }
    assert(tab_groups(tabs@).take(tabs@.len() as int) =~= tab_groups(tabs@));
    fit_groups(&groups, max_cols, " …")
}


/// Each tab is drawn as `[project]` — bold exactly when the tab is Active
/// or needs Attention, never coloured — then ` (trigger)` in the plain
/// style; every tab but the first is preceded by ` > ` when it is Active or
/// needs Attention and by ` - ` when it is Idle.
pub proof fn law_tab_spans(tabs: Seq<TabCell>, i: int)
    requires
        0 <= i < tabs.len(),
    ensures
        ({
            let g = tab_groups(tabs)[i];
            let t = tabs[i];
            let lit = t.status == TabStatus::Active || t.status == TabStatus::Attention;
            let p = if i == 0 { 0int } else { 1int };
            &&& g.len() == p + 2
            &&& g[p].0 == seq!['['] + t.project@ + seq![']']
            &&& g[p].1.fg is None
            &&& (g[p].1.add_modifier == ATTR_BOLD) == lit
            &&& !lit ==> g[p].1.add_modifier == 0
            &&& g[p + 1] == (seq![' ', '('] + t.trigger@ + seq![')'], TextStyle { fg: None, add_modifier: 0 })
            &&& i > 0 && lit ==> g[0] == (seq![' ', '>', ' '], TextStyle { fg: None, add_modifier: 0 })
            &&& i > 0 && !lit ==> g[0] == (seq![' ', '-', ' '], TextStyle { fg: None, add_modifier: 0 })
        }),
{
    reveal_strlit(" > ");
    reveal_strlit(" - ");
    assert(" > "@ =~= seq![' ', '>', ' ']);
    assert(" - "@ =~= seq![' ', '-', ' ']);
}

/// Each legend entry is drawn as its keys in bold cyan, then a space and
/// its action in the plain style; every entry but the first is preceded by
/// two plain spaces.
pub proof fn law_legend_spans(entries: Seq<(String, String)>, i: int)
    requires
        0 <= i < entries.len(),
    ensures
        ({
            let g = legend_groups(entries)[i];
            let p = if i == 0 { 0int } else { 1int };
            &&& g.len() == p + 2
            &&& g[p] == (entries[i].0@, TextStyle { fg: Some(Color::Cyan), add_modifier: ATTR_BOLD })
            &&& g[p + 1] == (seq![' '] + entries[i].1@, TextStyle { fg: None, add_modifier: 0 })
            &&& i > 0 ==> g[0] == (seq![' ', ' '], TextStyle { fg: None, add_modifier: 0 })
        }),
{
    reveal_strlit("  ");
    assert("  "@ =~= seq![' ', ' ']);
}

proof fn lemma_flatten_width_mono(groups: Seq<Seq<(Seq<char>, TextStyle)>>, i: int, j: int)
    requires
        0 <= i <= j <= groups.len(),
    ensures
        width(flatten(groups, i)) <= width(flatten(groups, j)),
    decreases j - i,
{
    if i < j {
        lemma_flatten_width_mono(groups, i, j - 1);
        lemma_width_concat(flatten(groups, j - 1), groups[j - 1]);
        lemma_width_nonneg(groups[j - 1]);
    }
}

proof fn lemma_fit_all(groups: Seq<Seq<(Seq<char>, TextStyle)>>, max: int, i: int)
    requires
        0 <= i <= groups.len(),
        width(flatten(groups, groups.len() as int)) <= max,
    ensures
        fit_count(groups, max, i, width(flatten(groups, i))) == groups.len(),
    decreases groups.len() - i,
{
    if i < groups.len() {
        lemma_width_concat(flatten(groups, i), groups[i]);
        lemma_flatten_width_mono(groups, i + 1, groups.len() as int);
        lemma_fit_all(groups, max, i + 1);
    }
}

/// When every group fits, the line is all the groups in order, with no
/// ellipsis.
pub proof fn law_line_keeps_all_that_fits(
    groups: Seq<Seq<(Seq<char>, TextStyle)>>,
    max: int,
    suffix: Seq<char>,
)
    requires
        width(flatten(groups, groups.len() as int)) <= max,
    ensures
        fit_line(groups, max, suffix) == flatten(groups, groups.len() as int),
{
    assert(flatten(groups, 0) =~= Seq::<(Seq<char>, TextStyle)>::empty());
    lemma_fit_all(groups, max, 0);
}

proof fn lemma_trim_prefix(spans: Seq<(Seq<char>, TextStyle)>, max: int, extra: int)
    ensures
        trim(spans, max, extra).len() <= spans.len(),
        trim(spans, max, extra) == spans.take(trim(spans, max, extra).len() as int),
    decreases spans.len(),
{
    if spans.len() > 0 && width(spans) + extra > max {
        lemma_trim_prefix(spans.drop_last(), max, extra);
        let t = trim(spans.drop_last(), max, extra);
        assert(spans.drop_last().take(t.len() as int) =~= spans.take(t.len() as int));
    } else {
        assert(spans.take(spans.len() as int) =~= spans);
    }
}

proof fn lemma_flatten_prefix(groups: Seq<Seq<(Seq<char>, TextStyle)>>, i: int, j: int)
    requires
        0 <= i <= j <= groups.len(),
    ensures
        flatten(groups, i).len() <= flatten(groups, j).len(),
        flatten(groups, i) == flatten(groups, j).take(flatten(groups, i).len() as int),
    decreases j - i,
{
    if i < j {
        lemma_flatten_prefix(groups, i, j - 1);
        let a = flatten(groups, j - 1);
        assert(flatten(groups, j) == a + groups[j - 1]);
        assert((a + groups[j - 1]).take(a.len() as int) =~= a);
        assert(a.take(flatten(groups, i).len() as int) =~= (a + groups[j - 1]).take(
            flatten(groups, i).len() as int,
        ));
    } else {
        assert(flatten(groups, i).take(flatten(groups, i).len() as int) =~= flatten(groups, i));
    }
}

/// When the groups do not all fit, the line is a leading part of them
/// followed by one marker span: `suffix`, or a lone `…` when nothing of the
/// groups is left to show.
pub proof fn law_line_truncates(
    groups: Seq<Seq<(Seq<char>, TextStyle)>>,
    max: int,
    suffix: Seq<char>,
)
    requires
        max >= 0,
        width(flatten(groups, groups.len() as int)) > max,
    ensures
        ({
            let r = fit_line(groups, max, suffix);
            let all = flatten(groups, groups.len() as int);
            &&& r.len() >= 1
            &&& r.drop_last() == all.take(r.len() - 1)
            &&& r.last() == (suffix, plain()) || r.last() == (seq!['…'], plain())
        }),
{
    assert(flatten(groups, 0) =~= Seq::<(Seq<char>, TextStyle)>::empty());
    lemma_fit_count(groups, max, 0, 0);
    let n = fit_count(groups, max, 0, 0);
    assert(n < groups.len());
    let f = flatten(groups, n);
    let kept = trim(f, max, suffix.len() as int);
    lemma_trim_prefix(f, max, suffix.len() as int);
    lemma_flatten_prefix(groups, n, groups.len() as int);
    let all = flatten(groups, groups.len() as int);
    assert(kept =~= all.take(kept.len() as int));
    let r = fit_line(groups, max, suffix);
    assert(r.drop_last() =~= kept);
}

/// Contents of the status bar.
#[derive(Debug, Clone)]
pub struct StatusBar {
    pub model: String,
    pub ctx_pct: u8,
    pub pr: Option<u32>,
    pub branch: String,
}

/// Status bar spans before the branch: the model in bold, `ctx:N%`, the
/// PR badge `PR #N` in magenta when there is one, each followed by ` · `.
pub open spec fn status_prefix(model: Seq<char>, ctx_pct: u8, pr: Option<u32>) -> Seq<(Seq<char>, TextStyle)> {
    seq![(model, bold()), (" · "@, plain()), ("ctx:"@ + decimal(ctx_pct as nat) + "%"@, plain())]
        + match pr {
        Some(n) => seq![(" · "@, plain()), ("PR #"@ + decimal(n as nat), TextStyle { fg: Some(Color::Magenta), add_modifier: 0 })],
        None => seq![],
    } + seq![(" · "@, plain())]
}

/// The status bar for `max_cols` columns: the prefix, then the branch, dim,
/// cut to the columns left (empty when none are left).
pub open spec fn status_spans(status: StatusBar, max_cols: int) -> Seq<(Seq<char>, TextStyle)> {
    let prefix = status_prefix(status.model@, status.ctx_pct, status.pr);
    let used = width(prefix);
    prefix.push(
        (
            if used >= max_cols {
                seq![]
            } else {
                truncated(status.branch@, max_cols - used)
            },
            TextStyle { fg: None, add_modifier: ATTR_DIM },
        ),
    )
}

proof fn lemma_truncated_len(s: Seq<char>, max: int)
    requires
        max >= 0,
    ensures
        truncated(s, max).len() <= max,
        truncated(s, max).len() <= s.len() || s.len() > max,
{
}

/// While the fixed part of the status bar fits its row, the whole bar does:
/// the branch gets at most the columns left.
pub proof fn law_status_bar_fits(status: StatusBar, max_cols: int)
    requires
        width(status_prefix(status.model@, status.ctx_pct, status.pr)) < max_cols,
    ensures
        width(status_spans(status, max_cols)) <= max_cols,
{
    let prefix = status_prefix(status.model@, status.ctx_pct, status.pr);
    let used = width(prefix);
    lemma_truncated_len(status.branch@, max_cols - used);
    lemma_width_push(prefix, (truncated(status.branch@, max_cols - used), TextStyle { fg: None, add_modifier: ATTR_DIM }));
}

/// The status bar shows the model in bold, ` · `, `ctx:N%`, then — when
/// there is a PR — ` · ` and `PR #N` in magenta, then ` · ` and the branch,
/// dim, cut to the columns left.
pub proof fn law_status_spans(status: StatusBar, max_cols: int)
    ensures
        ({
            let r = status_spans(status, max_cols);
            let sep = (seq![' ', '·', ' '], TextStyle { fg: None, add_modifier: 0 });
            let ctx = seq!['c', 't', 'x', ':'] + decimal(status.ctx_pct as nat) + seq!['%'];
            &&& r[0] == (status.model@, TextStyle { fg: None, add_modifier: ATTR_BOLD })
            &&& r[1] == sep
            &&& r[2] == (ctx, TextStyle { fg: None, add_modifier: 0 })
            &&& r[3] == sep
            &&& status.pr is None ==> r.len() == 5
            &&& (status.pr matches Some(n) ==> r.len() == 7 && r[4] == (
                seq!['P', 'R', ' ', '#'] + decimal(n as nat),
                TextStyle { fg: Some(Color::Magenta), add_modifier: 0 },
            ) && r[5] == sep)
            &&& r.last().1 == TextStyle { fg: None, add_modifier: ATTR_DIM }
            &&& r.last().0.len() <= status.branch@.len()
        }),
{
    reveal_strlit(" · ");
    reveal_strlit("ctx:");
    reveal_strlit("%");
    reveal_strlit("PR #");
    assert(" · "@ =~= seq![' ', '·', ' ']);
    assert("ctx:"@ =~= seq!['c', 't', 'x', ':']);
    assert("%"@ =~= seq!['%']);
    assert("PR #"@ =~= seq!['P', 'R', ' ', '#']);
}

/// Appends `sp` to `out`, keeping the running width.
fn push_span(out: &mut Vec<StyledSpan>, used: &mut u128, sp: StyledSpan)
    requires
        *old(used) == width(spans_of(old(out)@)),
        *old(used) <= 8 * (usize::MAX as int),
    ensures
        spans_of(final(out)@) == spans_of(old(out)@).push(span_of(sp)),
        *final(used) == width(spans_of(final(out)@)),
        *final(used) <= *old(used) + usize::MAX,
{
    let w = span_width(&sp);
    let ghost before = out@;
    out.push(sp);
    proof {
        lemma_map_push(before, sp, |x: StyledSpan| span_of(x));
        lemma_width_push(spans_of(before), span_of(sp));
    }
    *used = *used + w as u128;
}

/// The status bar spans for a row of `max_cols` columns.
pub fn status_bar_spans(status: &StatusBar, max_cols: usize) -> (r: Vec<StyledSpan>)
    ensures
        spans_of(r@) == status_spans(*status, max_cols as int),
{
    let mut out: Vec<StyledSpan> = Vec::new();
    let mut used: u128 = 0;
    proof {
        assert(spans_of(out@) =~= Seq::<(Seq<char>, TextStyle)>::empty());
    }
    push_span(&mut out, &mut used, span(status.model.clone(), TextStyle { fg: None, add_modifier: ATTR_BOLD }));
    push_span(&mut out, &mut used, span(" · ".to_owned(), TextStyle { fg: None, add_modifier: 0 }));
    let mut ctx = "ctx:".to_owned();
    push_decimal(&mut ctx, status.ctx_pct as u64);
    ctx.append("%");
    push_span(&mut out, &mut used, span(ctx, TextStyle { fg: None, add_modifier: 0 }));
    match status.pr {
        Some(n) => {
            push_span(&mut out, &mut used, span(" · ".to_owned(), TextStyle { fg: None, add_modifier: 0 }));
            let mut pr = "PR #".to_owned();
            push_decimal(&mut pr, n as u64);
            push_span(&mut out, &mut used, span(pr, TextStyle { fg: Some(Color::Magenta), add_modifier: 0 }));
        },
        None => {},
    }
    push_span(&mut out, &mut used, span(" · ".to_owned(), TextStyle { fg: None, add_modifier: 0 }));
    proof {
        assert(spans_of(out@) =~= status_prefix(status.model@, status.ctx_pct, status.pr));
    }
    let branch = if used >= max_cols as u128 {
        String::new()
    } else {
        truncate_to_width(status.branch.as_str(), max_cols - used as usize)
    };
    let ghost before = out@;
    let sp = span(branch, TextStyle { fg: None, add_modifier: ATTR_DIM });
    out.push(sp);
    proof {
        lemma_map_push(before, sp, |x: StyledSpan| span_of(x));
    }
    out
}

/// The input bar line: `> ` and the text, then a reversed-video space as
/// the cursor when it is in its visible phase.
pub open spec fn input_spans(text: Seq<char>, cursor_visible: bool) -> Seq<(Seq<char>, TextStyle)> {
    seq![("> "@ + text, plain())] + if cursor_visible {
        seq![(" "@, TextStyle { fg: None, add_modifier: ATTR_REVERSED })]
    } else {
        seq![]
    }
}

/// The input bar line for `text`.
pub fn input_line(text: &str, cursor_visible: bool) -> (r: Vec<StyledSpan>)
    ensures
        spans_of(r@) == input_spans(text@, cursor_visible),
{
    let mut out: Vec<StyledSpan> = Vec::new();
    let first = span(concat("> ", text), TextStyle { fg: None, add_modifier: 0 });
    out.push(first);
    if cursor_visible {
        out.push(span(" ".to_owned(), TextStyle { fg: None, add_modifier: ATTR_REVERSED }));
    }
    assert(spans_of(out@) =~= input_spans(text@, cursor_visible));
    out
}

/// The conversation header line: the title in bold, cut to `max_cols`.
pub fn header_title(title: &str, max_cols: usize) -> (r: StyledSpan)
    ensures
        span_of(r) == (truncated(title@, max_cols as int), bold()),
{
    span(truncate_to_width(title, max_cols), TextStyle { fg: None, add_modifier: ATTR_BOLD })
}

/// Application state passed into every render call.
pub struct AppState {
    pub editor: InputEditor,
    /// Whether the cursor is in its "on" phase of the blink cycle.
    pub cursor_visible: bool,
}

impl Default for AppState {
    /// An empty editor with the cursor shown.
    fn default() -> (r: AppState)
        ensures
            r.editor@ == crate::editor::EditorModel::empty(),
            r.editor@.wf(),
            r.cursor_visible,
    {
        AppState { editor: InputEditor::default(), cursor_visible: true }
    }
}

} // verus!
