//! Line-level regular-expression search over the Markdown source.

use vstd::prelude::*;

use crate::events::{chars_of, string_of};
use crate::input::SearchAction;
use crate::modes::{
    line_number, line_offset, match_msg, match_text, visual_line_offset, Effect, LastSearch,
    SearchMatch, SearchState, ViewerMode,
};
use crate::source::{md_lines, split_lines, views};
use crate::tile::VisualLine;
use crate::text::decimal;
use crate::url::{regex_compiles, regex_matches, slice_str, Pattern};
use vstd::string::StringSliceAdditionalSpecFns;
use vstd::utf8::{encode_utf8, is_char_boundary};

verus! {

/// Whether `c` is an uppercase letter (Unicode `Uppercase`).
pub uninterp spec fn is_upper(c: char) -> bool;

/// Relies on char::is_uppercase: a property of the character alone.
#[verifier::external_body]
fn char_is_uppercase(c: char) -> (r: bool)
    ensures
        r == is_upper(c),
{
    c.is_uppercase()
}

/// Smartcase: a query without uppercase letters matches case-insensitively.
pub open spec fn caseless_query(q: Seq<char>) -> bool {
    forall|i: int| 0 <= i < q.len() ==> !is_upper(#[trigger] q[i])
}

/// Index of the first visual line whose line range holds `md_line`.
pub open spec fn first_visual_line(vls: Seq<VisualLine>, md_line: usize) -> Option<usize>
    decreases vls.len(),
{
    if vls.len() == 0 {
        None
    } else {
        match first_visual_line(vls.drop_last(), md_line) {
            Some(i) => Some(i),
            None => match vls.last().md_line_range {
                Some((s, e)) => if s <= md_line && md_line <= e {
                    Some((vls.len() - 1) as usize)
                } else {
                    None
                },
                None => None,
            },
        }
    }
}

/// Find the first visual line mapped to 1-based Markdown line `md_line`.
pub fn find_visual_line(visual_lines: &Vec<VisualLine>, md_line: usize) -> (r: Option<usize>)
    ensures
        r == first_visual_line(visual_lines@, md_line),
{
    let mut i: usize = 0;
    while i < visual_lines.len()
        invariant
            i <= visual_lines@.len(),
            first_visual_line(visual_lines@.take(i as int), md_line) is None,
        decreases visual_lines@.len() - i,
    {
        assert(visual_lines@.take(i as int + 1).drop_last() =~= visual_lines@.take(i as int));
        match visual_lines[i].md_line_range {
            Some((s, e)) => {
                if s <= md_line && md_line <= e {
                    proof {
                        lemma_first_prefix(visual_lines@, i as int + 1, md_line);
                    }
                    return Some(i);
                }
            },
            None => {},
        }
        i = i + 1;
    }
    assert(visual_lines@.take(i as int) =~= visual_lines@);
    None
}

proof fn lemma_first_prefix(vls: Seq<VisualLine>, k: int, md_line: usize)
    requires
        0 < k <= vls.len(),
        first_visual_line(vls.take(k), md_line) is Some,
    ensures
        first_visual_line(vls, md_line) == first_visual_line(vls.take(k), md_line),
    decreases vls.len() - k,
{
    if k < vls.len() {
        assert(vls.take(k + 1).drop_last() =~= vls.take(k));
        lemma_first_prefix(vls, k + 1, md_line);
    } else {
        assert(vls.take(k) =~= vls);
    }
}

/// One search hit: 1-based line, visual line, line text, match span.
pub type Hit = (usize, usize, Seq<char>, usize, usize);

/// Hits among the first `n` lines: each line with a match and a visual line.
pub open spec fn hits(q: Seq<char>, ci: bool, lines: Seq<Seq<char>>, vls: Seq<VisualLine>, n: int) -> Seq<
    Hit,
>
    decreases n,
{
    if n <= 0 {
        Seq::empty()
    } else {
        let prev = hits(q, ci, lines, vls, n - 1);
        let m = regex_matches(q, ci, lines[n - 1]);
        match first_visual_line(vls, n as usize) {
            Some(v) => if m.len() > 0 {
                prev.push((n as usize, v, lines[n - 1], m[0].0, m[0].1))
            } else {
                prev
            },
            None => prev,
        }
    }
}

/// Search results: the hits, and whether the pattern was valid.
pub open spec fn grep_spec(q: Seq<char>, md: Seq<char>, vls: Seq<VisualLine>) -> (Seq<Hit>, bool) {
    if q.len() == 0 {
        (Seq::empty(), true)
    } else if !regex_compiles(q, caseless_query(q)) {
        (Seq::empty(), false)
    } else {
        let lines = md_lines(md);
        (hits(q, caseless_query(q), lines, vls, lines.len() as int), true)
    }
}

pub open spec fn match_views(v: Seq<SearchMatch>) -> Seq<Hit> {
    v.map_values(|m: SearchMatch| (m.md_line, m.visual_line_idx, m.context@, m.col_start, m.col_end))
}

/// Grep the Markdown lines for a regular expression (case-insensitive when
/// the query has no uppercase letter), mapping each matching line to its
/// first visual line. An invalid pattern gives no matches and `false`.
pub fn grep_markdown(query_text: &str, markdown: &str, visual_lines: &Vec<VisualLine>) -> (r: (
    Vec<SearchMatch>,
    bool,
))
    ensures
        (match_views(r.0@), r.1) == grep_spec(query_text@, markdown@, visual_lines@),
{
    let query = chars_of(query_text);
    if query.len() == 0 {
        assert(match_views(Seq::<SearchMatch>::empty()) =~= Seq::empty());
        return (Vec::new(), true);
    }
    let mut ci = true;
    let mut k: usize = 0;
    while k < query.len()
        invariant
            k <= query@.len(),
            ci == forall|i: int| 0 <= i < k ==> !is_upper(#[trigger] query@[i]),
        decreases query@.len() - k,
    {
        if char_is_uppercase(query[k]) {
            ci = false;
        }
        k = k + 1;
    }
    let p = match Pattern::new(query_text, ci) {
        None => {
            assert(match_views(Seq::<SearchMatch>::empty()) =~= Seq::empty());
            return (Vec::new(), false);
        },
        Some(p) => p,
    };
    let lines = split_lines(&chars_of(markdown));
    let ghost ls = md_lines(markdown@);
    let mut out: Vec<SearchMatch> = Vec::new();
    let mut i: usize = 0;
    while i < lines.len()
        invariant
            i <= lines@.len(),
            views(lines@) == ls,
            p.source() == query@,
            p.caseless() == caseless_query(query@),
            match_views(out@) == hits(query@, caseless_query(query@), ls, visual_lines@, i as int),
        decreases lines@.len() - i,
    {
        let text = string_of(&lines[i]);
        assert(text@ == ls[i as int]);
        let found = p.find_all(text.as_str());
        if found.len() > 0 {
            let line_no: usize = i + 1;
            match find_visual_line(visual_lines, line_no) {
                Some(v) => {
                    let ghost before = out@;
                    let (s, e) = found[0];
                    out.push(
                        SearchMatch {
                            md_line: line_no,
                            visual_line_idx: v,
                            context: text,
                            col_start: s,
                            col_end: e,
                        },
                    );
                    assert(match_views(out@) =~= match_views(before).push(
                        (line_no, v, ls[i as int], s, e),
                    ));
                },
                None => {},
            }
        }
        i = i + 1;
    }
    (out, true)
}

/// Re-run the search for the current query and reset the selection.
fn re_grep(ss: &mut SearchState, markdown: &str, visual_lines: &Vec<VisualLine>)
    ensures
        (match_views(final(ss).matches@), final(ss).pattern_valid) == grep_spec(
            final(ss).query@,
            markdown@,
            visual_lines@,
        ),
        final(ss).query == old(ss).query,
        final(ss).selected == 0,
        final(ss).scroll_offset == 0,
{
    let q = string_of(&ss.query);
    let (m, valid) = grep_markdown(q.as_str(), markdown, visual_lines);
    ss.matches = m;
    ss.pattern_valid = valid;
    ss.selected = 0;
    ss.scroll_offset = 0;
}

/// Handle a search-mode action. `list_rows` is the height of the result list.
pub fn handle_search(
    action: SearchAction,
    ss: &mut SearchState,
    markdown: &str,
    visual_lines: &Vec<VisualLine>,
    max_scroll: u32,
    list_rows: usize,
    y_offset: u32,
) -> (r: Vec<Effect>)
    ensures
        action matches SearchAction::Type(c) ==> final(ss).query@ == old(ss).query@.push(c)
            && (match_views(final(ss).matches@), final(ss).pattern_valid) == grep_spec(
            final(ss).query@,
            markdown@,
            visual_lines@,
        ) && r@ == seq![Effect::RedrawSearch],
        action == SearchAction::Backspace ==> final(ss).query@ == (if old(ss).query@.len() > 0 {
            old(ss).query@.drop_last()
        } else {
            old(ss).query@
        }) && (match_views(final(ss).matches@), final(ss).pattern_valid) == grep_spec(
            final(ss).query@,
            markdown@,
            visual_lines@,
        ) && r@ == seq![Effect::RedrawSearch],
        action == SearchAction::SelectPrev ==> final(ss).selected == (if old(ss).matches@.len()
            == 0 {
            old(ss).selected as int
        } else if old(ss).selected == 0 {
            0
        } else {
            old(ss).selected - 1
        }),
        action == SearchAction::SelectNext ==> final(ss).selected == (if old(ss).matches@.len()
            == 0 {
            old(ss).selected as int
        } else if old(ss).selected + 1 <= old(ss).matches@.len() - 1 {
            old(ss).selected + 1
        } else {
            old(ss).matches@.len() - 1
        }),
        action == SearchAction::Confirm && old(ss).selected < old(ss).matches@.len() ==> r@.len()
            == 4 && (r@[0] matches Effect::SetLastSearch(ls) && ls.current_idx == old(ss).selected
            && ls.visual_line_idxs@.len() == old(ss).matches@.len() && forall|i: int|
            0 <= i < old(ss).matches@.len() ==> ls.visual_line_idxs@[i] == (
            #[trigger] old(ss).matches@[i]).visual_line_idx) && (r@[2] matches Effect::Flash(m) && m@
            == match_msg((old(ss).selected + 1) as nat, old(ss).matches@.len())) && r@[1] == Effect::ScrollTo(
            line_offset(
                visual_lines@,
                max_scroll,
                line_number(old(ss).matches@[old(ss).selected as int].visual_line_idx),
                y_offset,
            ),
        ) && r@[3] == Effect::SetMode(ViewerMode::Normal),
        action == SearchAction::Cancel ==> r@ == seq![
            Effect::SetMode(ViewerMode::Normal),
            Effect::MarkDirty,
        ],
        forall|i: int|
            0 <= i < r@.len() ==> (#[trigger] r@[i] matches Effect::ScrollTo(t) ==> t <= max_scroll
                || y_offset > max_scroll),
{
    match action {
        SearchAction::Type(c) => {
            ss.query.push(c);
            re_grep(ss, markdown, visual_lines);
            let mut r: Vec<Effect> = Vec::new();
            r.push(Effect::RedrawSearch);
            assert(r@ =~= seq![Effect::RedrawSearch]);
            r
        },
        SearchAction::Backspace => {
            ss.query.pop();
            re_grep(ss, markdown, visual_lines);
            let mut r: Vec<Effect> = Vec::new();
            r.push(Effect::RedrawSearch);
            assert(r@ =~= seq![Effect::RedrawSearch]);
            r
        },
        SearchAction::SelectNext => {
            let n = ss.matches.len();
            if n > 0 {
                ss.selected = if ss.selected < n - 1 {
                    ss.selected + 1
                } else {
                    n - 1
                };
                if ss.scroll_offset <= usize::MAX - list_rows && ss.selected >= ss.scroll_offset
                    + list_rows {
                    ss.scroll_offset = ss.selected - list_rows + 1;
                }
            }
            let mut r: Vec<Effect> = Vec::new();
            r.push(Effect::RedrawSearch);
            r
        },
        SearchAction::SelectPrev => {
            if ss.matches.len() > 0 {
                ss.selected = if ss.selected > 0 {
                    ss.selected - 1
                } else {
                    0
                };
                if ss.selected < ss.scroll_offset {
                    ss.scroll_offset = ss.selected;
                }
            }
            let mut r: Vec<Effect> = Vec::new();
            r.push(Effect::RedrawSearch);
            r
        },
        SearchAction::Confirm => {
            let mut r: Vec<Effect> = Vec::new();
            if ss.selected >= ss.matches.len() {
                r.push(Effect::SetMode(ViewerMode::Normal));
                r.push(Effect::MarkDirty);
                return r;
            }
            let vl = ss.matches[ss.selected].visual_line_idx;
            let line: u32 = if vl < u32::MAX as usize {
                (vl + 1) as u32
            } else {
                u32::MAX
            };
            let y = visual_line_offset(visual_lines, max_scroll, line, y_offset);
            let total = ss.matches.len();
            let cur = ss.selected + 1;
            let last = LastSearch::from_search_state(ss);
            let msg = match_text(cur, total);
            r.push(Effect::SetLastSearch(last));
            r.push(Effect::ScrollTo(y));
            r.push(Effect::Flash(msg));
            r.push(Effect::SetMode(ViewerMode::Normal));
            r
        },
        SearchAction::Cancel => {
            let mut r: Vec<Effect> = Vec::new();
            r.push(Effect::SetMode(ViewerMode::Normal));
            r.push(Effect::MarkDirty);
            assert(r@ =~= seq![Effect::SetMode(ViewerMode::Normal), Effect::MarkDirty]);
            r
        },
    }
}


/// The greatest character boundary of `bytes` at or below `i`.
pub open spec fn floor_boundary(bytes: Seq<u8>, i: int) -> int
    decreases i,
{
    if i <= 0 || is_char_boundary(bytes, i) {
        if i <= 0 { 0 } else { i }
    } else {
        floor_boundary(bytes, i - 1)
    }
}

fn floor_char_boundary(text: &str, i: usize) -> (r: usize)
    requires
        i <= text.spec_bytes().len(),
    ensures
        r == floor_boundary(text.spec_bytes(), i as int),
        r <= i,
        is_char_boundary(text.spec_bytes(), r as int),
{
    proof {
        vstd::utf8::encode_utf8_valid_utf8(text@);
        vstd::utf8::is_char_boundary_start_end_of_seq(text.spec_bytes());
    }
    let mut j = i;
    while j > 0 && !text.is_char_boundary(j)
        invariant
            j <= i,
            floor_boundary(text.spec_bytes(), j as int) == floor_boundary(text.spec_bytes(), i as int),
        decreases j,
    {
        j = j - 1;
    }
    j
}

/// `s` right-aligned in `width` characters.
pub open spec fn pad_left(s: Seq<char>, width: nat) -> Seq<char> {
    if s.len() >= width {
        s
    } else {
        Seq::new((width - s.len()) as nat, |i: int| ' ') + s
    }
}

/// The pieces of one result row: the line-number prefix, and the line
/// text cut to the rest of `width` bytes on a character boundary, split
/// into the parts before, inside and after the match.
pub open spec fn search_row_spec(md_line: usize, context: Seq<char>, col_start: usize, col_end: usize, width: usize) -> (Seq<char>, Seq<u8>, Seq<u8>, Seq<u8>) {
    let prefix = "  "@ + pad_left(decimal(md_line as nat), 4) + ": "@;
    let max = if width >= prefix.len() { width - prefix.len() } else { 0 };
    let bytes = encode_utf8(context);
    let cut = if bytes.len() <= max { bytes.len() as int } else { floor_boundary(bytes, max as int) };
    let ctx = bytes.subrange(0, cut);
    let cs = floor_boundary(ctx, if col_start <= cut { col_start as int } else { cut });
    let ce0 = floor_boundary(ctx, if col_end <= cut { col_end as int } else { cut });
    let ce = if ce0 >= cs { ce0 } else { cs };
    (prefix, ctx.subrange(0, cs), ctx.subrange(cs, ce), ctx.subrange(ce, cut))
}

/// One row of the search result list: prefix, text before the match, the
/// match, and the text after it.
pub fn search_row(md_line: usize, context: &str, col_start: usize, col_end: usize, width: usize) -> (r: (
    String,
    String,
    String,
    String,
))
    ensures
        ({
            let (p, b, h, a) = search_row_spec(md_line, context@, col_start, col_end, width);
            &&& r.0@ == p
            &&& encode_utf8(r.1@) == b
            &&& encode_utf8(r.2@) == h
            &&& encode_utf8(r.3@) == a
        }),
{
    let digits = crate::text::decimal_chars(md_line as u64);
    let mut prefix = chars_of("  ");
    let ghost base = prefix@;
    let mut k: usize = digits.len();
    while k < 4
        invariant
            digits.len() <= k <= 4 || (k == digits.len() && k >= 4),
            prefix@ == base + Seq::new((k - digits.len()) as nat, |i: int| ' '),
        decreases 4 - k,
    {
        prefix.push(' ');
        k = k + 1;
        assert(prefix@ =~= base + Seq::new((k - digits.len()) as nat, |i: int| ' '));
    }
    let ghost padded = Seq::new((k - digits.len()) as nat, |i: int| ' ');
    let mut i: usize = 0;
    let ghost mid = prefix@;
    while i < digits.len()
        invariant
            i <= digits@.len(),
            prefix@ == mid + digits@.take(i as int),
        decreases digits@.len() - i,
    {
        prefix.push(digits[i]);
        i = i + 1;
        assert(prefix@ =~= mid + digits@.take(i as int));
    }
    assert(digits@.take(i as int) =~= digits@);
    prefix.push(':');
    prefix.push(' ');
    proof {
        reveal_strlit("  ");
        reveal_strlit(": ");
        assert(padded + digits@ =~= pad_left(decimal(md_line as nat), 4));
        assert(prefix@ =~= "  "@ + pad_left(decimal(md_line as nat), 4) + ": "@);
    }
    let plen = prefix.len();
    let max = if width >= plen { width - plen } else { 0 };
    let n = context.as_bytes().len();
    proof {
        vstd::utf8::encode_utf8_valid_utf8(context@);
        vstd::utf8::is_char_boundary_start_end_of_seq(context.spec_bytes());
    }
    let cut = if n <= max { n } else { floor_char_boundary(context, max) };
    let ctx = slice_str(context, 0, cut).unwrap();
    let ghost cb = context.spec_bytes().subrange(0, cut as int);
    let cx = ctx.as_str();
    proof {
        assert(cx.spec_bytes() == cb);
    }
    let cl = cut;
    let cs = floor_char_boundary(cx, if col_start <= cl { col_start } else { cl });
    let ce0 = floor_char_boundary(cx, if col_end <= cl { col_end } else { cl });
    let ce = if ce0 >= cs { ce0 } else { cs };
    proof {
        vstd::utf8::encode_utf8_valid_utf8(ctx@);
        vstd::utf8::is_char_boundary_start_end_of_seq(cb);
    }
    let before = slice_str(cx, 0, cs).unwrap();
    let hl = slice_str(cx, cs, ce).unwrap();
    let after = slice_str(cx, ce, cl).unwrap();
    (string_of(&prefix), before, hl, after)
}

} // verus!
