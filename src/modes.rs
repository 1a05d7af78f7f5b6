//! Mode handlers: pure functions from an action and its context to a list of
//! effects. The caller's apply loop performs every effect's I/O.

use vstd::prelude::*;

use crate::events::{chars_of, string_of};
use crate::input::{Action, CommandAction, UrlAction};
use crate::source::{split_lines, yank_exact, yank_exact_spec, yank_lines, yank_spec};
use crate::convert::{is_white, is_whitespace};
use crate::text::{decimal, decimal_chars};
use crate::tile::VisualLine;
use crate::source::md_lines;
use crate::url::{block_of_lines, entry_views, extract_urls_from_lines, urls_of, UrlEntry};

verus! {

/// Why the inner event loop ended.
#[derive(Clone, Copy, Debug, PartialEq, Eq, Structural)]
pub enum ExitReason {
    Quit,
    Resize { new_cols: u16, new_rows: u16 },
    /// The watched file changed.
    Reload,
    /// The user asked for the configuration to be read again.
    ConfigReload,
}

/// One line of Markdown that matched a search.
pub struct SearchMatch {
    /// 1-based Markdown line.
    pub md_line: usize,
    /// Index of the first visual line showing that line.
    pub visual_line_idx: usize,
    pub context: String,
    /// Byte span of the match within the line.
    pub col_start: usize,
    pub col_end: usize,
}

/// Search mode state: the query, its matches and the picker's selection.
pub struct SearchState {
    pub query: Vec<char>,
    pub matches: Vec<SearchMatch>,
    pub selected: usize,
    pub scroll_offset: usize,
    pub pattern_valid: bool,
}

impl SearchState {
    pub fn new() -> (r: Self)
        ensures
            r.query@.len() == 0,
            r.matches@.len() == 0,
            r.selected == 0,
            r.scroll_offset == 0,
            r.pattern_valid,
    {
        SearchState {
            query: Vec::new(),
            matches: Vec::new(),
            selected: 0,
            scroll_offset: 0,
            pattern_valid: true,
        }
    }
}

/// The matches of the last confirmed search, for `n` / `N`.
pub struct LastSearch {
    pub visual_line_idxs: Vec<usize>,
    pub current_idx: usize,
}

impl LastSearch {
    /// Keeps the visual lines of a search's matches and its selection.
    pub fn from_search_state(ss: &SearchState) -> (r: Self)
        ensures
            r.visual_line_idxs@.len() == ss.matches@.len(),
            forall|i: int|
                0 <= i < ss.matches@.len() ==> r.visual_line_idxs@[i] == (
                #[trigger] ss.matches@[i]).visual_line_idx,
            r.current_idx == ss.selected,
    {
        let mut v: Vec<usize> = Vec::new();
        let mut i: usize = 0;
        while i < ss.matches.len()
            invariant
                i <= ss.matches@.len(),
                v@.len() == i,
                forall|k: int| 0 <= k < i ==> v@[k] == (#[trigger] ss.matches@[k]).visual_line_idx,
            decreases ss.matches@.len() - i,
        {
            v.push(ss.matches[i].visual_line_idx);
            i = i + 1;
        }
        LastSearch { visual_line_idxs: v, current_idx: ss.selected }
    }

    /// Next match, wrapping to the first.
    pub fn advance_next(&mut self)
        ensures
            final(self).visual_line_idxs == old(self).visual_line_idxs,
            final(self).current_idx == (if old(self).visual_line_idxs@.len() == 0 {
                old(self).current_idx as int
            } else {
                (old(self).current_idx as int + 1) % (old(self).visual_line_idxs@.len() as int)
            }),
    {
        let n = self.visual_line_idxs.len();
        if n > 0 {
            self.current_idx = ((self.current_idx as u128 + 1) % (n as u128)) as usize;
        }
    }

    /// Previous match, wrapping to the last.
    pub fn advance_prev(&mut self)
        ensures
            final(self).visual_line_idxs == old(self).visual_line_idxs,
            final(self).current_idx == (if old(self).visual_line_idxs@.len() == 0 {
                old(self).current_idx as int
            } else if old(self).current_idx == 0 {
                old(self).visual_line_idxs@.len() - 1
            } else {
                old(self).current_idx - 1
            }),
    {
        let n = self.visual_line_idxs.len();
        if n > 0 {
            if self.current_idx == 0 {
                self.current_idx = n - 1;
            } else {
                self.current_idx = self.current_idx - 1;
            }
        }
    }

    /// Visual line of the current match.
    pub fn current_visual_line_idx(&self) -> (r: Option<usize>)
        ensures
            r == (if self.current_idx < self.visual_line_idxs@.len() {
                Some(self.visual_line_idxs@[self.current_idx as int])
            } else {
                None
            }),
    {
        if self.current_idx < self.visual_line_idxs.len() {
            Some(self.visual_line_idxs[self.current_idx])
        } else {
            None
        }
    }
}

/// Command mode state: the text typed after `:`.
pub struct CommandState {
    pub input: Vec<char>,
}

/// A URL in the picker, with the visual line it was found on.
pub struct UrlPickerEntry {
    pub url: String,
    pub text: String,
    /// 1-based visual line number.
    pub visual_line: usize,
}

/// URL picker state.
pub struct UrlPickerState {
    pub entries: Vec<UrlPickerEntry>,
    pub selected: usize,
    pub scroll_offset: usize,
}

impl UrlPickerState {
    pub fn new(entries: Vec<UrlPickerEntry>) -> (r: Self)
        ensures
            r.entries@ == entries@,
            r.selected == 0,
            r.scroll_offset == 0,
    {
        UrlPickerState { entries, selected: 0, scroll_offset: 0 }
    }
}

/// The viewer's mode.
pub enum ViewerMode {
    Normal,
    Search(SearchState),
    Command(CommandState),
    UrlPicker(UrlPickerState),
}

/// What a handler asks the apply loop to do.
pub enum Effect {
    ScrollTo(u32),
    MarkDirty,
    Flash(String),
    RedrawStatusBar,
    Yank(String),
    SetMode(ViewerMode),
    SetLastSearch(LastSearch),
    DeletePlacements,
    OpenUrl(String),
    RedrawUrlPicker,
    RedrawSearch,
    RedrawCommandBar,
    Exit(ExitReason),
}

fn append(dst: &mut Vec<char>, src: &Vec<char>)
    ensures
        final(dst)@ == old(dst)@ + src@,
{
    let mut i: usize = 0;
    while i < src.len()
        invariant
            i <= src@.len(),
            dst@ == old(dst)@ + src@.take(i as int),
        decreases src@.len() - i,
    {
        dst.push(src[i]);
        i = i + 1;
        assert(dst@ =~= old(dst)@ + src@.take(i as int));
    }
    assert(src@.take(i as int) =~= src@);
}

fn text2(a: &str, n: usize, b: &str) -> (r: String)
    ensures
        r@ == a@ + decimal(n as nat) + b@,
{
    let mut v = chars_of(a);
    append(&mut v, &decimal_chars(n as u64));
    append(&mut v, &chars_of(b));
    string_of(&v)
}

fn text_with(a: &str, s: &String) -> (r: String)
    ensures
        r@ == a@ + s@,
{
    let mut v = chars_of(a);
    append(&mut v, &chars_of(s.as_str()));
    string_of(&v)
}

/// The flash after moving to match `cur` of `total`.
pub open spec fn match_msg(cur: nat, total: nat) -> Seq<char> {
    "match "@ + decimal(cur) + "/"@ + decimal(total)
}

pub fn match_text(cur: usize, total: usize) -> (r: String)
    ensures
        r@ == match_msg(cur as nat, total as nat),
{
    let mut v = chars_of("match ");
    append(&mut v, &decimal_chars(cur as u64));
    append(&mut v, &chars_of("/"));
    append(&mut v, &decimal_chars(total as u64));
    string_of(&v)
}

/// 1-based line number of visual line `idx`, saturating.
pub open spec fn line_number(idx: usize) -> u32 {
    if idx < u32::MAX {
        (idx + 1) as u32
    } else {
        u32::MAX
    }
}

fn flash(msg: String) -> (r: Vec<Effect>)
    ensures
        r@.len() == 2,
        r@[0] == Effect::Flash(msg),
        r@[1] == Effect::RedrawStatusBar,
{
    let mut r: Vec<Effect> = Vec::new();
    r.push(Effect::Flash(msg));
    r.push(Effect::RedrawStatusBar);
    r
}

fn one(e: Effect) -> (r: Vec<Effect>)
    ensures
        r@ == seq![e],
{
    let mut r: Vec<Effect> = Vec::new();
    r.push(e);
    assert(r@ =~= seq![e]);
    r
}

fn two(a: Effect, b: Effect) -> (r: Vec<Effect>)
    ensures
        r@ == seq![a, b],
{
    let mut r: Vec<Effect> = Vec::new();
    r.push(a);
    r.push(b);
    assert(r@ =~= seq![a, b]);
    r
}

/// Scroll offset that puts 1-based visual line `n` at the top, clamped to
/// `max_scroll`; `y` unchanged when there is no such line.
pub open spec fn line_offset(vls: Seq<VisualLine>, max_scroll: u32, n: u32, y: u32) -> u32 {
    let idx = if n >= 1 {
        n - 1
    } else {
        0
    };
    if idx < vls.len() {
        if vls[idx].y_px <= max_scroll {
            vls[idx].y_px
        } else {
            max_scroll
        }
    } else {
        y
    }
}

/// Scroll offset that puts 1-based visual line `n` near the top of the viewport.
pub fn visual_line_offset(visual_lines: &Vec<VisualLine>, max_scroll: u32, line_num: u32, y: u32) -> (r:
    u32)
    ensures
        r == line_offset(visual_lines@, max_scroll, line_num, y),
{
    let idx: usize = if line_num >= 1 {
        (line_num - 1) as usize
    } else {
        0
    };
    if idx < visual_lines.len() {
        let t = visual_lines[idx].y_px;
        if t <= max_scroll {
            t
        } else {
            max_scroll
        }
    } else {
        y
    }
}

/// What normal mode reads.
pub struct NormalCtx<'a> {
    pub y_offset: u32,
    pub visual_lines: &'a Vec<VisualLine>,
    pub max_scroll: u32,
    pub scroll_step: u32,
    pub half_page: u32,
    pub markdown: &'a str,
}

/// The offset a scrolling action moves to, if the action scrolls.
pub open spec fn scroll_target(a: Action, y: u32, max: u32, step: u32, half: u32, vls: Seq<
    VisualLine,
>) -> Option<u32> {
    match a {
        Action::ScrollDown(n) => Some(
            if y + n * step <= max {
                (y + n * step) as u32
            } else {
                max
            },
        ),
        Action::ScrollUp(n) => Some(
            if y >= n * step {
                (y - n * step) as u32
            } else {
                0
            },
        ),
        Action::HalfPageDown(n) => Some(
            if y + n * half <= max {
                (y + n * half) as u32
            } else {
                max
            },
        ),
        Action::HalfPageUp(n) => Some(
            if y >= n * half {
                (y - n * half) as u32
            } else {
                0
            },
        ),
        Action::JumpToTop => Some(0),
        Action::JumpToBottom => Some(max),
        Action::JumpToLine(n) => Some(line_offset(vls, max, n, y)),
        _ => None,
    }
}

proof fn lemma_mul_bound(a: u32, b: u32)
    ensures
        (a as int) * (b as int) <= 0xFFFF_FFFE_0000_0001,
{
    assert((a as int) * (b as int) <= 0xFFFF_FFFF * 0xFFFF_FFFF) by (nonlinear_arith)
        requires
            a <= 0xFFFF_FFFF,
            b <= 0xFFFF_FFFF,
    ;
}

fn down(y: u32, n: u32, step: u32, max: u32) -> (r: u32)
    ensures
        r == (if y + n * step <= max {
            (y + n * step) as u32
        } else {
            max
        }),
{
    proof {
        lemma_mul_bound(n, step);
    }
    let t: u64 = y as u64 + (n as u64) * (step as u64);
    if t <= max as u64 {
        t as u32
    } else {
        max
    }
}

fn up(y: u32, n: u32, step: u32) -> (r: u32)
    ensures
        r == (if y >= n * step {
            (y - n * step) as u32
        } else {
            0
        }),
{
    proof {
        lemma_mul_bound(n, step);
    }
    let t: u64 = (n as u64) * (step as u64);
    if (y as u64) >= t {
        (y as u64 - t) as u32
    } else {
        0
    }
}

/// Handle a normal-mode action.
pub fn handle_normal(action: Action, ctx: &NormalCtx, last_search: &mut Option<LastSearch>) -> (r:
    Vec<Effect>)
    ensures
        scroll_target(
            action,
            ctx.y_offset,
            ctx.max_scroll,
            ctx.scroll_step,
            ctx.half_page,
            ctx.visual_lines@,
        ) matches Some(t) ==> r@ == seq![Effect::ScrollTo(t)],
        action == Action::Quit ==> r@ == seq![Effect::Exit(ExitReason::Quit)],
        (action == Action::CancelInput || action == Action::Digit) ==> r@ == seq![
            Effect::RedrawStatusBar,
        ],
        action == Action::EnterCommand ==> r@.len() == 1 && r@[0] matches Effect::SetMode(
            ViewerMode::Command(_),
        ),
        action == Action::EnterSearch ==> r@.len() == 2 && r@[0] == Effect::DeletePlacements
            && r@[1] matches Effect::SetMode(ViewerMode::Search(_)),
        action matches Action::YankExact(n) ==> yank_result(
            r@,
            n,
            ctx.visual_lines@.len(),
            yank_exact_spec(ctx.markdown@, ctx.visual_lines@, if n >= 1 { n - 1 } else { 0 }),
        ),
        action matches Action::YankBlock(n) ==> ({
            let i = if n >= 1 {
                n - 1
            } else {
                0
            };
            yank_result(r@, n, ctx.visual_lines@.len(), yank_spec(ctx.markdown@, ctx.visual_lines@, i as int, i as int))
        }),
        action == Action::SearchNextMatch ==> nav_result(
            r@,
            *old(last_search),
            *final(last_search),
            true,
            ctx.visual_lines@,
            ctx.max_scroll,
            ctx.y_offset,
        ),
        action == Action::SearchPrevMatch ==> nav_result(
            r@,
            *old(last_search),
            *final(last_search),
            false,
            ctx.visual_lines@,
            ctx.max_scroll,
            ctx.y_offset,
        ),
        action matches Action::OpenUrl(n) ==> open_url_result(r@, n, ctx.markdown@, ctx.visual_lines@),
        action == Action::EnterUrlPicker ==> ({
            let found = picker_scan(ctx.markdown@, ctx.visual_lines@, ctx.visual_lines@.len() as int).1;
            if found.len() == 0 {
                r@.len() == 2 && r@[0] is Flash && r@[1] == Effect::RedrawStatusBar
            } else {
                r@.len() == 2 && r@[0] == Effect::DeletePlacements && (r@[1] matches Effect::SetMode(
                    ViewerMode::UrlPicker(st),
                ) && picker_views(st.entries@) == found && st.selected == 0)
            }
        }),
        (action != Action::SearchNextMatch && action != Action::SearchPrevMatch)
            ==> *final(last_search) == *old(last_search),
        forall|i: int|
            0 <= i < r@.len() ==> (#[trigger] r@[i] matches Effect::ScrollTo(t) ==> t
                <= ctx.max_scroll || ctx.y_offset > ctx.max_scroll),
{
    match action {
        Action::Quit => one(Effect::Exit(ExitReason::Quit)),
        Action::CancelInput | Action::Digit => one(Effect::RedrawStatusBar),
        Action::ScrollDown(n) => one(
            Effect::ScrollTo(down(ctx.y_offset, n, ctx.scroll_step, ctx.max_scroll)),
        ),
        Action::ScrollUp(n) => one(Effect::ScrollTo(up(ctx.y_offset, n, ctx.scroll_step))),
        Action::HalfPageDown(n) => one(
            Effect::ScrollTo(down(ctx.y_offset, n, ctx.half_page, ctx.max_scroll)),
        ),
        Action::HalfPageUp(n) => one(Effect::ScrollTo(up(ctx.y_offset, n, ctx.half_page))),
        Action::JumpToTop => one(Effect::ScrollTo(0)),
        Action::JumpToBottom => one(Effect::ScrollTo(ctx.max_scroll)),
        Action::JumpToLine(n) => one(
            Effect::ScrollTo(
                visual_line_offset(ctx.visual_lines, ctx.max_scroll, n, ctx.y_offset),
            ),
        ),
        Action::EnterSearch => two(
            Effect::DeletePlacements,
            Effect::SetMode(ViewerMode::Search(SearchState::new())),
        ),
        Action::EnterCommand => one(
            Effect::SetMode(ViewerMode::Command(CommandState { input: Vec::new() })),
        ),
        Action::SearchNextMatch => navigate_search(ctx, last_search, true),
        Action::SearchPrevMatch => navigate_search(ctx, last_search, false),
        Action::YankExactPrompt => flash(string_of(&chars_of("Type Ny to yank line N"))),
        Action::YankExact(n) => {
            let idx: usize = if n >= 1 {
                (n - 1) as usize
            } else {
                0
            };
            if idx >= ctx.visual_lines.len() {
                out_of_range(n, ctx.visual_lines.len())
            } else {
                let t = yank_exact(ctx.markdown, ctx.visual_lines, idx);
                yank_effects(n, t, true)
            }
        },
        Action::YankBlockPrompt => flash(string_of(&chars_of("Type NY to yank block N"))),
        Action::YankBlock(n) => {
            let idx: usize = if n >= 1 {
                (n - 1) as usize
            } else {
                0
            };
            if idx >= ctx.visual_lines.len() {
                out_of_range(n, ctx.visual_lines.len())
            } else {
                let t = yank_lines(ctx.markdown, ctx.visual_lines, idx, idx);
                yank_effects(n, t, false)
            }
        },
        Action::OpenUrl(n) => open_url(ctx, n),
        Action::EnterUrlPicker => {
            let entries = collect_all_url_entries(ctx.markdown, ctx.visual_lines);
            if entries.len() == 0 {
                flash(string_of(&chars_of("No URLs in document")))
            } else {
                two(
                    Effect::DeletePlacements,
                    Effect::SetMode(ViewerMode::UrlPicker(UrlPickerState::new(entries))),
                )
            }
        },
    }
}

/// The effects of yanking visual line `n` of `n_lines`, whose text is `t`:
/// out of range or empty gives a flash only, else the yank and a flash.
pub open spec fn yank_result(r: Seq<Effect>, n: u32, n_lines: nat, t: Seq<char>) -> bool {
    let idx = if n >= 1 {
        n - 1
    } else {
        0
    };
    if idx >= n_lines || t.len() == 0 {
        r.len() == 2 && r[0] is Flash && r[1] == Effect::RedrawStatusBar
    } else {
        r.len() == 3 && (r[0] matches Effect::Yank(y) && y@ == t) && r[1] is Flash && r[2]
            == Effect::RedrawStatusBar
    }
}

fn out_of_range(n: u32, len: usize) -> (r: Vec<Effect>)
    ensures
        r@.len() == 2,
        r@[0] is Flash,
        r@[1] == Effect::RedrawStatusBar,
{
    let mut v = chars_of("Line ");
    let mut m = text2("", n as usize, " out of range (max ");
    let tail = text2("", len, ")");
    let a = chars_of(m.as_str());
    let b = chars_of(tail.as_str());
    let mut i: usize = 0;
    while i < a.len()
        decreases a@.len() - i,
    {
        v.push(a[i]);
        i = i + 1;
    }
    let mut j: usize = 0;
    while j < b.len()
        decreases b@.len() - j,
    {
        v.push(b[j]);
        j = j + 1;
    }
    m = string_of(&v);
    flash(m)
}

fn yank_effects(n: u32, t: String, exact: bool) -> (r: Vec<Effect>)
    ensures
        t@.len() == 0 ==> r@.len() == 2 && r@[0] is Flash && r@[1] == Effect::RedrawStatusBar,
        t@.len() > 0 ==> r@.len() == 3 && r@[0] == Effect::Yank(t) && r@[1] is Flash && r@[2]
            == Effect::RedrawStatusBar,
{
    let chars = chars_of(t.as_str());
    if chars.len() == 0 {
        return flash(text2("L", n as usize, ": no source mapping"));
    }
    let lc = split_lines(&chars).len();
    let msg = if exact {
        if lc > 1 {
            text_with(&text2("Yanked L", n as usize, " ("), &text2("", lc, " lines)"))
        } else {
            text_with(&text2("Yanked L", n as usize, " ("), &text2("", lc, " line)"))
        }
    } else {
        text_with(&text2("Yanked L", n as usize, " block ("), &text2("", lc, " lines)"))
    };
    let mut r: Vec<Effect> = Vec::new();
    r.push(Effect::Yank(t));
    r.push(Effect::Flash(msg));
    r.push(Effect::RedrawStatusBar);
    r
}

/// The match index after `n` (next, wrapping to the first) or `N`.
pub open spec fn advanced(cur: usize, len: nat, next: bool) -> usize {
    if len == 0 {
        cur
    } else if next {
        ((cur + 1) % (len as int)) as usize
    } else if cur == 0 {
        (len - 1) as usize
    } else {
        (cur - 1) as usize
    }
}

/// The effects of `n` / `N`: without a previous search a flash; else the
/// search advances and, when the current match exists, the view scrolls to
/// its visual line with a flash of its position.
pub open spec fn nav_result(
    r: Seq<Effect>,
    before: Option<LastSearch>,
    after: Option<LastSearch>,
    next: bool,
    vls: Seq<VisualLine>,
    max: u32,
    y: u32,
) -> bool {
    match before {
        None => after is None && r.len() == 2 && (r[0] matches Effect::Flash(m) && m@
            == "No search results"@) && r[1] == Effect::RedrawStatusBar,
        Some(ls) => {
            let len = ls.visual_line_idxs@.len();
            let cur = advanced(ls.current_idx, len, next);
            &&& after matches Some(nl) && nl.visual_line_idxs == ls.visual_line_idxs
                && nl.current_idx == cur
            &&& if cur < len {
                let vl = ls.visual_line_idxs@[cur as int];
                r.len() == 2 && r[0] == Effect::ScrollTo(line_offset(vls, max, line_number(vl), y))
                    && (r[1] matches Effect::Flash(m) && m@ == match_msg(
                    if cur < usize::MAX {
                        (cur + 1) as nat
                    } else {
                        cur as nat
                    },
                    len,
                ))
            } else {
                r.len() == 0
            }
        },
    }
}

fn navigate_search(ctx: &NormalCtx, last_search: &mut Option<LastSearch>, next: bool) -> (r: Vec<
    Effect,
>)
    ensures
        nav_result(
            r@,
            *old(last_search),
            *final(last_search),
            next,
            ctx.visual_lines@,
            ctx.max_scroll,
            ctx.y_offset,
        ),
        forall|i: int|
            0 <= i < r@.len() ==> (#[trigger] r@[i] matches Effect::ScrollTo(t) ==> t
                <= ctx.max_scroll || ctx.y_offset > ctx.max_scroll),
{
    match last_search {
        None => flash(string_of(&chars_of("No search results"))),
        Some(ls) => {
            if next {
                ls.advance_next();
            } else {
                ls.advance_prev();
            }
            match ls.current_visual_line_idx() {
                None => Vec::new(),
                Some(vl_idx) => {
                    let line: u32 = if vl_idx < u32::MAX as usize {
                        (vl_idx + 1) as u32
                    } else {
                        u32::MAX
                    };
                    let y = visual_line_offset(ctx.visual_lines, ctx.max_scroll, line, ctx.y_offset);
                    let cur = if ls.current_idx < usize::MAX {
                        ls.current_idx + 1
                    } else {
                        ls.current_idx
                    };
                    let msg = match_text(cur, ls.visual_line_idxs.len());
                    two(Effect::ScrollTo(y), Effect::Flash(msg))
                },
            }
        },
    }
}

/// URLs on visual line `n`: one opens directly, several open the picker.
fn open_url(ctx: &NormalCtx, n: u32) -> (r: Vec<Effect>)
    ensures
        forall|i: int| 0 <= i < r@.len() ==> !(#[trigger] r@[i] is ScrollTo),
        open_url_result(r@, n, ctx.markdown@, ctx.visual_lines@),
{
    let idx: usize = if n >= 1 {
        (n - 1) as usize
    } else {
        0
    };
    if idx >= ctx.visual_lines.len() {
        return out_of_range(n, ctx.visual_lines.len());
    }
    let (s, e) = match ctx.visual_lines[idx].md_line_range {
        None => {
            return flash(text2("L", n as usize, ": no source mapping"));
        },
        Some(range) => range,
    };
    let mut urls = extract_urls_from_lines(ctx.markdown, s, e);
    if urls.len() == 0 {
        return flash(text2("L", n as usize, ": no URL found"));
    }
    if urls.len() == 1 {
        let ghost all = entry_views(urls@);
        let u = urls.pop().unwrap();
        assert((u.url@, u.text@) == all[0]);
        let msg = text_with("Opening ", &u.url);
        let mut r: Vec<Effect> = Vec::new();
        r.push(Effect::OpenUrl(u.url));
        r.push(Effect::Flash(msg));
        r.push(Effect::RedrawStatusBar);
        assert(!(r@[0] is ScrollTo) && !(r@[1] is ScrollTo) && !(r@[2] is ScrollTo));
        return r;
    }
    let entries = tag_entries(urls, n as usize);
    two(Effect::DeletePlacements, Effect::SetMode(ViewerMode::UrlPicker(UrlPickerState::new(entries))))
}

/// The effects of `No`: a flash when line `n` is out of range, unmapped or
/// has no URL; its URL opened when there is one; else the picker over them.
pub open spec fn open_url_result(r: Seq<Effect>, n: u32, md: Seq<char>, vls: Seq<VisualLine>) -> bool {
    let idx = if n >= 1 {
        n - 1
    } else {
        0
    };
    if idx >= vls.len() || vls[idx].md_line_range is None {
        r.len() == 2 && r[0] is Flash && r[1] == Effect::RedrawStatusBar
    } else {
        let (s, e) = vls[idx].md_line_range->0;
        let urls = urls_for(md, s, e);
        if urls.len() == 0 {
            r.len() == 2 && r[0] is Flash && r[1] == Effect::RedrawStatusBar
        } else if urls.len() == 1 {
            r.len() == 3 && (r[0] matches Effect::OpenUrl(u) && u@ == urls[0].0) && r[1] is Flash
        } else {
            r.len() == 2 && r[0] == Effect::DeletePlacements && (r[1] matches Effect::SetMode(
                ViewerMode::UrlPicker(st),
            ) && picker_views(st.entries@) == tagged(urls, n as usize) && st.selected == 0)
        }
    }
}

/// Picker entries for `urls`, all on visual line `line`.
fn tag_entries(urls: Vec<UrlEntry>, line: usize) -> (r: Vec<UrlPickerEntry>)
    ensures
        picker_views(r@) == tagged(entry_views(urls@), line),
{
    let ghost all = entry_views(urls@);
    let mut urls = urls;
    let mut entries: Vec<UrlPickerEntry> = Vec::new();
    let mut taken: usize = 0;
    let n0 = urls.len();
    assert(all.subrange(0, all.len() as int) =~= all);
    assert(picker_views(entries@) =~= tagged(all.take(0), line));
    while urls.len() > 0
        invariant
            all.len() == n0,
            taken + urls@.len() == all.len(),
            entry_views(urls@) == all.subrange(taken as int, all.len() as int),
            picker_views(entries@) == tagged(all.take(taken as int), line),
        decreases urls@.len(),
    {
        let ghost before = picker_views(entries@);
        let ghost first = entry_views(urls@)[0];
        let ghost old_urls = urls@;
        let u = urls.remove(0);
        assert(urls@ =~= old_urls.subrange(1, old_urls.len() as int));
        assert(entry_views(urls@) =~= entry_views(old_urls).subrange(1, old_urls.len() as int));
        assert(entry_views(urls@) =~= all.subrange(taken as int + 1, all.len() as int));
        assert((u.url@, u.text@) == first);
        entries.push(UrlPickerEntry { url: u.url, text: u.text, visual_line: line });
        assert(first == all[taken as int]);
        assert(all.take(taken as int + 1) =~= all.take(taken as int).push(first));
        assert(tagged(all.take(taken as int + 1), line) =~= tagged(all.take(taken as int), line).push(
            (first.0, first.1, line),
        ));
        assert(picker_views(entries@) =~= before.push((first.0, first.1, line)));
        taken = taken + 1;
    }
    assert(all.take(taken as int) =~= all);
    entries
}

/// URLs of Markdown lines `s..=e`, as `extract_urls_from_lines` gives them.
pub open spec fn urls_for(md: Seq<char>, s: usize, e: usize) -> Seq<(Seq<char>, Seq<char>)> {
    if (if s >= 1 {
        s - 1
    } else {
        0
    }) >= md_lines(md).len() {
        Seq::empty()
    } else {
        urls_of(block_of_lines(md, s, e))
    }
}

/// URLs tagged with 1-based visual line `n`.
pub open spec fn tagged(urls: Seq<(Seq<char>, Seq<char>)>, n: usize) -> Seq<(Seq<char>, Seq<char>, usize)> {
    urls.map_values(|u: (Seq<char>, Seq<char>)| (u.0, u.1, n))
}

/// The line ranges scanned and the entries found among the first `n`
/// visual lines: each distinct range is scanned once, at its first line.
pub open spec fn picker_scan(md: Seq<char>, vls: Seq<VisualLine>, n: int) -> (Seq<(usize, usize)>, Seq<
    (Seq<char>, Seq<char>, usize),
>)
    decreases n,
{
    if n <= 0 {
        (Seq::empty(), Seq::empty())
    } else {
        let (seen, es) = picker_scan(md, vls, n - 1);
        match vls[n - 1].md_line_range {
            None => (seen, es),
            Some((s, e)) => if seen.contains((s, e)) {
                (seen, es)
            } else {
                (seen.push((s, e)), es + tagged(urls_for(md, s, e), n as usize))
            },
        }
    }
}

pub open spec fn picker_views(v: Seq<UrlPickerEntry>) -> Seq<(Seq<char>, Seq<char>, usize)> {
    v.map_values(|e: UrlPickerEntry| (e.url@, e.text@, e.visual_line))
}

/// Every URL in the document, tagged with the first visual line of its
/// block; each distinct line range is scanned once.
pub fn collect_all_url_entries(md_source: &str, visual_lines: &Vec<VisualLine>) -> (r: Vec<
    UrlPickerEntry,
>)
    ensures
        picker_views(r@) == picker_scan(md_source@, visual_lines@, visual_lines@.len() as int).1,
{
    let mut entries: Vec<UrlPickerEntry> = Vec::new();
    let mut seen: Vec<(usize, usize)> = Vec::new();
    let mut i: usize = 0;
    while i < visual_lines.len()
        invariant
            i <= visual_lines.len(),
            seen@ == picker_scan(md_source@, visual_lines@, i as int).0,
            picker_views(entries@) == picker_scan(md_source@, visual_lines@, i as int).1,
        decreases visual_lines@.len() - i,
    {
        match visual_lines[i].md_line_range {
            None => {},
            Some((s, e)) => {
                let mut dup = false;
                let mut j: usize = 0;
                while j < seen.len()
                    invariant
                        j <= seen@.len(),
                        dup == exists|k: int| 0 <= k < j && seen@[k] == (s, e),
                    decreases seen@.len() - j,
                {
                    if seen[j].0 == s && seen[j].1 == e {
                        dup = true;
                    }
                    j = j + 1;
                }
                proof {
                    if seen@.contains((s, e)) {
                        let k = choose|k: int| 0 <= k < seen@.len() && seen@[k] == (s, e);
                        assert(exists|k: int| 0 <= k < j && seen@[k] == (s, e));
                    }
                }
                if !dup {
                    seen.push((s, e));
                    let mut urls = extract_urls_from_lines(md_source, s, e);
                    let ghost base = picker_views(entries@);
                    let ghost all = urls_for(md_source@, s, e);
                    let ghost line = (i + 1) as usize;
                    let mut taken: usize = 0;
                    let n0 = urls.len();
                    assert(all.subrange(0, all.len() as int) =~= all);
                    assert(tagged(all.take(0), line) =~= Seq::empty());
                    assert(base + tagged(all.take(0), line) =~= base);
                    while urls.len() > 0
                        invariant
                            i < visual_lines.len(),
                            all.len() == n0,
                            line == i + 1,
                            taken + urls@.len() == all.len(),
                            entry_views(urls@) == all.subrange(taken as int, all.len() as int),
                            picker_views(entries@) == base + tagged(all.take(taken as int), line),
                        decreases urls@.len(),
                    {
                        let ghost before = picker_views(entries@);
                        let ghost first = entry_views(urls@)[0];
                        let ghost old_urls = urls@;
                        let u = urls.remove(0);
                        assert(urls@ =~= old_urls.subrange(1, old_urls.len() as int));
                        assert(entry_views(urls@) =~= entry_views(old_urls).subrange(
                            1,
                            old_urls.len() as int,
                        ));
                        assert(entry_views(urls@) =~= all.subrange(taken as int + 1, all.len() as int));
                        assert((u.url@, u.text@) == first);
                        entries.push(UrlPickerEntry { url: u.url, text: u.text, visual_line: i + 1 });
                        assert(first == all[taken as int]);
                        assert(all.take(taken as int + 1) =~= all.take(taken as int).push(first));
                        assert(tagged(all.take(taken as int + 1), line) =~= tagged(all.take(taken as int), line).push((first.0, first.1, line)));
                        assert(picker_views(entries@) =~= before.push((first.0, first.1, line)));
                        taken = taken + 1;
                    }
                    assert(all.take(taken as int) =~= all);
                }
            },
        }
        i = i + 1;
    }
    entries
}

/// Rows of the picker list that the selection is kept within.
pub const URL_LIST_ROWS: usize = 20;

/// Handle a URL picker action.
pub fn handle_url(action: UrlAction, state: &mut UrlPickerState) -> (r: Vec<Effect>)
    ensures
        final(state).entries@ == old(state).entries@,
        action == UrlAction::SelectNext ==> final(state).selected == (if old(state).entries@.len()
            == 0 {
            old(state).selected as int
        } else if old(state).selected + 1 <= old(state).entries@.len() - 1 {
            old(state).selected + 1
        } else {
            old(state).entries@.len() - 1
        }) && r@ == seq![Effect::RedrawUrlPicker],
        action == UrlAction::SelectPrev ==> final(state).selected == (if old(state).entries@.len()
            == 0 || old(state).selected == 0 {
            if old(state).entries@.len() == 0 {
                old(state).selected as int
            } else {
                0
            }
        } else {
            old(state).selected - 1
        }) && r@ == seq![Effect::RedrawUrlPicker],
        action == UrlAction::Confirm && old(state).selected < old(state).entries@.len() ==> r@.len()
            == 3 && r@[0] == Effect::OpenUrl(old(state).entries@[old(state).selected as int].url)
            && r@[2] == Effect::SetMode(ViewerMode::Normal),
        action == UrlAction::Confirm && old(state).selected >= old(state).entries@.len() ==> r@
            == seq![Effect::SetMode(ViewerMode::Normal), Effect::MarkDirty],
        action == UrlAction::Cancel ==> r@ == seq![
            Effect::SetMode(ViewerMode::Normal),
            Effect::MarkDirty,
        ],
{
    match action {
        UrlAction::SelectNext => {
            let n = state.entries.len();
            if n > 0 {
                state.selected = if state.selected < n - 1 {
                    state.selected + 1
                } else {
                    n - 1
                };
                if state.scroll_offset <= usize::MAX - URL_LIST_ROWS && state.selected
                    >= state.scroll_offset + URL_LIST_ROWS {
                    state.scroll_offset = state.selected - URL_LIST_ROWS + 1;
                }
            }
            one(Effect::RedrawUrlPicker)
        },
        UrlAction::SelectPrev => {
            if state.entries.len() > 0 {
                state.selected = if state.selected > 0 {
                    state.selected - 1
                } else {
                    0
                };
                if state.selected < state.scroll_offset {
                    state.scroll_offset = state.selected;
                }
            }
            one(Effect::RedrawUrlPicker)
        },
        UrlAction::Confirm => {
            if state.selected >= state.entries.len() {
                return two(Effect::SetMode(ViewerMode::Normal), Effect::MarkDirty);
            }
            let url = state.entries[state.selected].url.clone();
            let msg = text_with("Opening ", &url);
            let mut r: Vec<Effect> = Vec::new();
            r.push(Effect::OpenUrl(url));
            r.push(Effect::Flash(msg));
            r.push(Effect::SetMode(ViewerMode::Normal));
            r
        },
        UrlAction::Cancel => two(Effect::SetMode(ViewerMode::Normal), Effect::MarkDirty),
    }
}

/// Unicode white space, as `str::trim` removes it.
pub open spec fn is_space(c: char) -> bool {
    is_white(c)
}

/// Leading and trailing spaces removed.
pub open spec fn trim_spaces(s: Seq<char>) -> Seq<char>
    decreases s.len(),
{
    if s.len() > 0 && is_space(s[0]) {
        trim_spaces(s.drop_first())
    } else if s.len() > 0 && is_space(s.last()) {
        trim_spaces(s.drop_last())
    } else {
        s
    }
}

fn trim(s: &Vec<char>) -> (r: Vec<char>)
    ensures
        r@ == trim_spaces(s@),
{
    let mut a: usize = 0;
    let mut b: usize = s.len();
    assert(s@.subrange(0, b as int) =~= s@);
    while a < b && is_whitespace(s[a])
        invariant
            a <= b <= s@.len(),
            b == s@.len(),
            trim_spaces(s@) == trim_spaces(s@.subrange(a as int, b as int)),
        decreases b - a,
    {
        assert(s@.subrange(a as int, b as int).drop_first() =~= s@.subrange(a as int + 1, b as int));
        a = a + 1;
    }
    while a < b && is_whitespace(s[b - 1])
        invariant
            a <= b <= s@.len(),
            a == b || !is_space(s@[a as int]),
            trim_spaces(s@) == trim_spaces(s@.subrange(a as int, b as int)),
        decreases b - a,
    {
        assert(s@.subrange(a as int, b as int).drop_last() =~= s@.subrange(a as int, b as int - 1));
        b = b - 1;
    }
    let mut r: Vec<char> = Vec::new();
    let mut i: usize = a;
    while i < b
        invariant
            a <= i <= b <= s@.len(),
            r@ == s@.subrange(a as int, i as int),
        decreases b - i,
    {
        r.push(s[i]);
        i = i + 1;
        assert(r@ =~= s@.subrange(a as int, i as int));
    }
    proof {
        let t = s@.subrange(a as int, b as int);
        if t.len() > 0 {
            assert(t[0] == s@[a as int]);
            assert(t.last() == s@[b - 1]);
        }
    }
    r
}

fn same(a: &Vec<char>, b: &str) -> (r: bool)
    ensures
        r == (a@ == b@),
{
    let t = chars_of(b);
    if a.len() != t.len() {
        assert(a@.len() != b@.len());
        return false;
    }
    let mut i: usize = 0;
    while i < a.len()
        invariant
            i <= a@.len(),
            a@.len() == t@.len(),
            t@ == b@,
            forall|k: int| 0 <= k < i ==> a@[k] == t@[k],
        decreases a@.len() - i,
    {
        if a[i] != t[i] {
            assert(a@[i as int] != b@[i as int]);
            return false;
        }
        i = i + 1;
    }
    assert(a@ =~= t@);
    true
}

/// Handle a command-mode action.
pub fn handle_command(action: CommandAction, cs: &mut CommandState) -> (r: Vec<Effect>)
    ensures
        action matches CommandAction::Type(c) ==> final(cs).input@ == old(cs).input@.push(c) && r@
            == seq![Effect::RedrawCommandBar],
        action == CommandAction::Backspace ==> (if old(cs).input@.len() == 0 {
            r@ == seq![Effect::SetMode(ViewerMode::Normal), Effect::MarkDirty]
        } else {
            final(cs).input@ == old(cs).input@.drop_last() && r@ == seq![Effect::RedrawCommandBar]
        }),
        action == CommandAction::Execute ==> {
            let t = trim_spaces(old(cs).input@);
            if t.len() == 0 {
                r@ == seq![Effect::SetMode(ViewerMode::Normal), Effect::MarkDirty]
            } else if t == "reload"@ || t == "rel"@ {
                r@ == seq![Effect::Exit(ExitReason::ConfigReload)]
            } else if t == "q"@ || t == "quit"@ {
                r@ == seq![Effect::Exit(ExitReason::Quit)]
            } else {
                r@.len() == 3 && r@[0] == Effect::SetMode(ViewerMode::Normal) && (r@[1] matches Effect::Flash(m)
                    && m@ == "Unknown command: "@ + t) && r@[2] == Effect::MarkDirty
            }
        },
        action == CommandAction::Cancel ==> r@ == seq![
            Effect::SetMode(ViewerMode::Normal),
            Effect::MarkDirty,
        ],
{
    match action {
        CommandAction::Type(c) => {
            cs.input.push(c);
            one(Effect::RedrawCommandBar)
        },
        CommandAction::Backspace => {
            if cs.input.len() == 0 {
                two(Effect::SetMode(ViewerMode::Normal), Effect::MarkDirty)
            } else {
                cs.input.pop();
                one(Effect::RedrawCommandBar)
            }
        },
        CommandAction::Execute => {
            let cmd = trim(&cs.input);
            if cmd.len() == 0 {
                two(Effect::SetMode(ViewerMode::Normal), Effect::MarkDirty)
            } else if same(&cmd, "reload") || same(&cmd, "rel") {
                one(Effect::Exit(ExitReason::ConfigReload))
            } else if same(&cmd, "q") || same(&cmd, "quit") {
                one(Effect::Exit(ExitReason::Quit))
            } else {
                let shown = string_of(&cmd);
                let msg = text_with("Unknown command: ", &shown);
                let mut r: Vec<Effect> = Vec::new();
                r.push(Effect::SetMode(ViewerMode::Normal));
                r.push(Effect::Flash(msg));
                r.push(Effect::MarkDirty);
                r
            }
        },
        CommandAction::Cancel => two(Effect::SetMode(ViewerMode::Normal), Effect::MarkDirty),
    }
}

/// Every scroll a normal-mode action asks for stays within `0..=max` when
/// the offset starts there.
pub open spec fn scroll_after(y: u32, a: Action, max: u32, step: u32, half: u32, vls: Seq<VisualLine>) -> u32 {
    match scroll_target(a, y, max, step, half, vls) {
        Some(t) => t,
        None => y,
    }
}

/// The offset after a sequence of actions.
pub open spec fn scroll_run(y: u32, actions: Seq<Action>, max: u32, step: u32, half: u32, vls: Seq<
    VisualLine,
>) -> u32
    decreases actions.len(),
{
    if actions.len() == 0 {
        y
    } else {
        scroll_after(scroll_run(y, actions.drop_last(), max, step, half, vls), actions.last(), max, step, half, vls)
    }
}

/// For every sequence of scroll actions from an offset within `0..=max`, the
/// offset stays within `0..=max`.
pub proof fn lemma_scroll_clamped(y: u32, actions: Seq<Action>, max: u32, step: u32, half: u32, vls: Seq<VisualLine>)
    requires
        y <= max,
    ensures
        scroll_run(y, actions, max, step, half, vls) <= max,
    decreases actions.len(),
{
    if actions.len() > 0 {
        lemma_scroll_clamped(y, actions.drop_last(), max, step, half, vls);
    }
}


/// `s` padded on the right with spaces to `width` characters.
pub open spec fn pad_right(s: Seq<char>, width: nat) -> Seq<char> {
    if s.len() >= width {
        s
    } else {
        s + Seq::new((width - s.len()) as nat, |i: int| ' ')
    }
}

/// One row of the URL picker: a marker for the selection, the visual line,
/// the link text in brackets when there is one, and the URL, cut to `width`
/// characters.
pub open spec fn url_row_spec(selected: bool, line: usize, text: Seq<char>, url: Seq<char>, width: usize) -> Seq<char> {
    let marker = if selected { " > "@ } else { "   "@ };
    let full = marker + "L"@ + pad_right(decimal(line as nat), 4) + if text.len() == 0 {
        " "@ + url
    } else {
        " ["@ + text + "] "@ + url
    };
    if full.len() <= width { full } else { full.take(width as int) }
}

pub fn url_row(selected: bool, line: usize, text: &str, url: &str, width: usize) -> (r: String)
    ensures
        r@ == url_row_spec(selected, line, text@, url@, width),
{
    let mut v = if selected { chars_of(" > ") } else { chars_of("   ") };
    append(&mut v, &chars_of("L"));
    let digits = decimal_chars(line as u64);
    append(&mut v, &digits);
    let ghost base = v@;
    let mut k: usize = digits.len();
    while k < 4
        invariant
            digits.len() <= k <= 4 || (k == digits.len() && k >= 4),
            v@ == base + Seq::new((k - digits.len()) as nat, |i: int| ' '),
        decreases 4 - k,
    {
        v.push(' ');
        k = k + 1;
        assert(v@ =~= base + Seq::new((k - digits.len()) as nat, |i: int| ' '));
    }
    let t = chars_of(text);
    if t.len() == 0 {
        append(&mut v, &chars_of(" "));
    } else {
        append(&mut v, &chars_of(" ["));
        append(&mut v, &t);
        append(&mut v, &chars_of("] "));
    }
    append(&mut v, &chars_of(url));
    let ghost full = v@;
    proof {
        let marker = if selected { " > "@ } else { "   "@ };
        assert(full =~= marker + "L"@ + pad_right(decimal(line as nat), 4) + if text@.len() == 0 {
            " "@ + url@
        } else {
            " ["@ + text@ + "] "@ + url@
        });
    }
    if v.len() > width {
        v.truncate(width);
    }
    string_of(&v)
}

} // verus!
