//! Markdown to Typst conversion with a block-level source map.
//!
//! The conversion is a state machine over the parser's events. `step` states
//! what one event does to the state; `Converter` carries it out and is
//! proved to agree with `step` event by event.

use std::ops::Range;
use vstd::prelude::*;

use crate::events::{
    chars_of, event_views, markdown_events, parse_events, string_of, EventV, MdEvent, MdTag,
    MdTagEnd, SrcEvent, SrcEventV, TagV,
};
use crate::text::{
    backtick_run, blen, char_width, decimal, decimal_chars, escape_chars, escape_spec,
    fill_blank_chars, fill_spec, lemma_blen_drop_last, lemma_encode_push, max_run_spec, push_utf8,
};
use vstd::utf8::encode_utf8;

verus! {

/// Markdown source byte range and Typst output byte range of one top-level block.
pub struct BlockMapping {
    /// Byte range within the Typst output.
    pub typst_byte_range: Range<usize>,
    /// Byte range within the Markdown source.
    pub md_byte_range: Range<usize>,
}

/// Mapping from Typst output positions back to Markdown source positions.
pub struct SourceMap {
    /// Block mappings, in output order.
    pub blocks: Vec<BlockMapping>,
}

/// Every range is well formed and lies within its text (output of `out_len`
/// bytes, Markdown of `md_len` bytes).
pub open spec fn map_in_bounds(blocks: Seq<BlockMapping>, out_len: int, md_len: int) -> bool {
    forall|i: int|
        0 <= i < blocks.len() ==> {
            &&& (#[trigger] blocks[i]).typst_byte_range.start <= blocks[i].typst_byte_range.end
            &&& blocks[i].typst_byte_range.end <= out_len
            &&& blocks[i].md_byte_range.start <= blocks[i].md_byte_range.end
            &&& blocks[i].md_byte_range.end <= md_len
        }
}

/// Output ranges of consecutive blocks do not overlap.
pub open spec fn map_ordered(blocks: Seq<BlockMapping>) -> bool {
    forall|i: int|
        0 <= i && i + 1 < blocks.len() ==> (#[trigger] blocks[i]).typst_byte_range.end
            <= blocks[i + 1].typst_byte_range.start
}

/// `blocks[i]` covers output offset `off`.
pub open spec fn covers(b: BlockMapping, off: int) -> bool {
    b.typst_byte_range.start <= off < b.typst_byte_range.end
}

impl SourceMap {
    /// Find the block whose Typst byte range contains `typst_offset`.
    pub fn find_by_typst_offset(&self, typst_offset: usize) -> (r: Option<&BlockMapping>)
        requires
            map_ordered(self.blocks@),
            forall|i: int|
                0 <= i < self.blocks@.len() ==> (#[trigger] self.blocks@[i]).typst_byte_range.start
                    <= self.blocks@[i].typst_byte_range.end,
        ensures
            r is None <==> forall|i: int|
                0 <= i < self.blocks@.len() ==> !covers(#[trigger] self.blocks@[i], typst_offset as int),
            r matches Some(b) ==> exists|i: int|
                0 <= i < self.blocks@.len() && self.blocks@[i] == *b && covers(
                    #[trigger] self.blocks@[i],
                    typst_offset as int,
                ),
    {
        let mut lo: usize = 0;
        let mut hi: usize = self.blocks.len();
        while lo < hi
            invariant
                lo <= hi <= self.blocks@.len(),
                map_ordered(self.blocks@),
                forall|i: int|
                    0 <= i < self.blocks@.len() ==> (#[trigger] self.blocks@[i]).typst_byte_range.start
                        <= self.blocks@[i].typst_byte_range.end,
                forall|i: int|
                    (0 <= i < lo || hi <= i < self.blocks@.len()) ==> !covers(
                        #[trigger] self.blocks@[i],
                        typst_offset as int,
                    ),
            decreases hi - lo,
        {
            let mid = lo + (hi - lo) / 2;
            let b = &self.blocks[mid];
            if typst_offset < b.typst_byte_range.start {
                proof {
                    assert forall|i: int| mid <= i < self.blocks@.len() implies !covers(
                        #[trigger] self.blocks@[i],
                        typst_offset as int,
                    ) by {
                        lemma_starts_grow(self.blocks@, mid as int, i);
                    }
                }
                hi = mid;
            } else if typst_offset >= b.typst_byte_range.end {
                proof {
                    assert forall|i: int| 0 <= i <= mid implies !covers(
                        #[trigger] self.blocks@[i],
                        typst_offset as int,
                    ) by {
                        lemma_ends_grow(self.blocks@, i, mid as int);
                    }
                }
                lo = mid + 1;
            } else {
                return Some(b);
            }
        }
        None
    }
}

proof fn lemma_starts_grow(blocks: Seq<BlockMapping>, i: int, j: int)
    requires
        map_ordered(blocks),
        forall|k: int|
            0 <= k < blocks.len() ==> (#[trigger] blocks[k]).typst_byte_range.start
                <= blocks[k].typst_byte_range.end,
        0 <= i <= j < blocks.len(),
    ensures
        blocks[i].typst_byte_range.start <= blocks[j].typst_byte_range.start,
    decreases j - i,
{
    if i < j {
        lemma_starts_grow(blocks, i + 1, j);
        assert(blocks[i].typst_byte_range.end <= blocks[i + 1].typst_byte_range.start);
    }
}

proof fn lemma_ends_grow(blocks: Seq<BlockMapping>, i: int, j: int)
    requires
        map_ordered(blocks),
        forall|k: int|
            0 <= k < blocks.len() ==> (#[trigger] blocks[k]).typst_byte_range.start
                <= blocks[k].typst_byte_range.end,
        0 <= i <= j < blocks.len(),
    ensures
        blocks[i].typst_byte_range.end <= blocks[j].typst_byte_range.end,
    decreases j - i,
{
    if i < j {
        lemma_ends_grow(blocks, i + 1, j);
        assert(blocks[i].typst_byte_range.end <= blocks[i + 1].typst_byte_range.start);
    }
}


/// An open container, innermost last.
#[derive(Clone, Copy, PartialEq, Eq, Structural)]
pub enum Container {
    Heading,
    Strong,
    Emphasis,
    Strikethrough,
    /// A link; `true` when it has a destination (and so a closing bracket).
    Link(bool),
    BlockQuote,
    /// A block quote nested past the cap: content kept, no wrapper.
    BlockQuoteCapped,
    /// A list; `true` when ordered.
    List(bool),
    Item,
    CodeBlock,
    Table,
    TableHead,
    TableRow,
    TableCell,
}

/// A top-level block that has started and not yet ended.
#[derive(Clone, Copy)]
pub struct Pending {
    pub typst_start: usize,
    pub md_start: usize,
    pub md_end: usize,
}

/// Block quotes nested deeper than this keep their content but lose the wrapper.
pub const MAX_BLOCKQUOTE_DEPTH: usize = 10;

/// The converter's state, as a value.
pub struct ConvState {
    pub out: Seq<char>,
    pub stack: Seq<Container>,
    pub in_code: bool,
    pub code_buf: Seq<char>,
    pub code_lang: Seq<char>,
    pub cell: Option<Seq<char>>,
    pub cells: Seq<Seq<char>>,
    pub cols: usize,
    pub blocks: Seq<BlockMapping>,
    pub pending: Option<Pending>,
    pub depth: usize,
}

pub open spec fn initial_state() -> ConvState {
    ConvState {
        out: Seq::empty(),
        stack: Seq::empty(),
        in_code: false,
        code_buf: Seq::empty(),
        code_lang: Seq::empty(),
        cell: None,
        cells: Seq::empty(),
        cols: 0,
        blocks: Seq::empty(),
        pending: None,
        depth: 0,
    }
}

/// Current output position in bytes.
pub open spec fn pos(s: ConvState) -> usize {
    blen(s.out) as usize
}

pub open spec fn ends_nl(out: Seq<char>) -> bool {
    out.len() > 0 && out.last() == '\n'
}

/// Text goes to the open table cell if there is one, else to the output.
#[verifier::opaque]
pub open spec fn emit(s: ConvState, p: Seq<char>) -> ConvState {
    match s.cell {
        Some(b) => ConvState { cell: Some(b + p), ..s },
        None => ConvState { out: s.out + p, ..s },
    }
}

#[verifier::opaque]
pub open spec fn emit_out(s: ConvState, p: Seq<char>) -> ConvState {
    ConvState { out: s.out + p, ..s }
}

#[verifier::opaque]
pub open spec fn ensure_nl(s: ConvState) -> ConvState {
    if ends_nl(s.out) {
        s
    } else {
        emit_out(s, seq!['\n'])
    }
}

/// A blank line before a block, unless the output is empty.
#[verifier::opaque]
pub open spec fn separate(s: ConvState) -> ConvState {
    if s.out.len() == 0 {
        s
    } else if ends_nl(s.out) {
        emit_out(s, seq!['\n'])
    } else {
        emit_out(s, seq!['\n', '\n'])
    }
}

#[verifier::opaque]
pub open spec fn push_stack(s: ConvState, c: Container) -> ConvState {
    ConvState { stack: s.stack.push(c), ..s }
}

#[verifier::opaque]
pub open spec fn pop_stack(s: ConvState) -> ConvState {
    if s.stack.len() == 0 {
        s
    } else {
        ConvState { stack: s.stack.drop_last(), ..s }
    }
}

pub open spec fn top(stack: Seq<Container>) -> Option<Container> {
    if stack.len() == 0 {
        None
    } else {
        Some(stack.last())
    }
}

pub open spec fn inc(d: usize) -> usize {
    if d < usize::MAX {
        (d + 1) as usize
    } else {
        d
    }
}

pub open spec fn dec(d: usize) -> usize {
    if d > 0 {
        (d - 1) as usize
    } else {
        0
    }
}

/// A block starts: a top-level one is remembered with its output position.
#[verifier::opaque]
pub open spec fn open_block(s: ConvState, e: SrcEventV) -> ConvState {
    let s1 = if s.depth == 0 {
        ConvState {
            pending: Some(Pending { typst_start: pos(s), md_start: e.start, md_end: e.end }),
            ..s
        }
    } else {
        s
    };
    separate(ConvState { depth: inc(s1.depth), ..s1 })
}

pub open spec fn last_end(s: ConvState) -> usize {
    if s.blocks.len() == 0 {
        0
    } else {
        s.blocks.last().typst_byte_range.end
    }
}

pub open spec fn max_usize(a: usize, b: usize) -> usize {
    if a >= b {
        a
    } else {
        b
    }
}

/// A block ends: when it was top-level, its mapping is recorded, starting at
/// `from` if given, else where the block started.
#[verifier::opaque]
pub open spec fn close_block_from(s: ConvState, from: Option<usize>) -> ConvState {
    let s1 = ConvState { depth: dec(s.depth), ..s };
    if s1.depth == 0 && s1.pending is Some {
        let p = s1.pending->0;
        let start = match from {
            Some(f) => f,
            None => p.typst_start,
        };
        let m = BlockMapping {
            typst_byte_range: Range { start: max_usize(start, last_end(s1)), end: pos(s1) },
            md_byte_range: Range { start: p.md_start, end: p.md_end },
        };
        ConvState { pending: None, blocks: s1.blocks.push(m), ..s1 }
    } else {
        s1
    }
}

#[verifier::opaque]
pub open spec fn close_block(s: ConvState) -> ConvState {
    close_block_from(s, None)
}

/// Number of block quotes (capped or not) among the open containers.
pub open spec fn quote_depth(stack: Seq<Container>) -> nat
    decreases stack.len(),
{
    if stack.len() == 0 {
        0
    } else {
        let rest = quote_depth(stack.drop_last());
        match stack.last() {
            Container::BlockQuote | Container::BlockQuoteCapped => rest + 1,
            _ => rest,
        }
    }
}

/// Item marker from the innermost enclosing list.
pub open spec fn list_marker(stack: Seq<Container>) -> Seq<char>
    decreases stack.len(),
{
    if stack.len() == 0 {
        seq!['-', ' ']
    } else {
        match stack.last() {
            Container::List(true) => seq!['+', ' '],
            Container::List(false) => seq!['-', ' '],
            _ => list_marker(stack.drop_last()),
        }
    }
}

pub open spec fn is_white(c: char) -> bool {
    c == '\t' || c == '\n' || c == '\x0B' || c == '\x0C' || c == '\r' || c == ' ' || c
        == '\u{85}' || c == '\u{A0}' || c == '\u{1680}' || ('\u{2000}' <= c && c <= '\u{200A}')
        || c == '\u{2028}' || c == '\u{2029}' || c == '\u{202F}' || c == '\u{205F}' || c
        == '\u{3000}'
}

/// Trailing whitespace removed, never cutting below byte `floor`.
pub open spec fn trim_ws(out: Seq<char>, floor: int) -> Seq<char>
    decreases out.len(),
{
    if out.len() > 0 && is_white(out.last()) && blen(out.drop_last()) >= floor {
        trim_ws(out.drop_last(), floor)
    } else {
        out
    }
}

/// The lowest output byte that belongs to no recorded or open top-level block.
pub open spec fn floor(s: ConvState) -> usize {
    match s.pending {
        Some(p) => max_usize(last_end(s), p.typst_start),
        None => last_end(s),
    }
}

pub open spec fn repeat(c: char, n: nat) -> Seq<char> {
    Seq::new(n, |i: int| c)
}

/// One more than the longest backtick run, at least three.
pub open spec fn fence_len(code: Seq<char>) -> nat {
    let m = max_run_spec(code);
    if m > 2 {
        if m < usize::MAX {
            m + 1
        } else {
            m
        }
    } else {
        3
    }
}

pub open spec fn has_backtick(s: Seq<char>) -> bool {
    exists|i: int| 0 <= i < s.len() && s[i] == '`'
}

/// Backslashes and double quotes escaped for a Typst string literal.
pub open spec fn quote_spec(s: Seq<char>) -> Seq<char>
    decreases s.len(),
{
    if s.len() == 0 {
        Seq::empty()
    } else if s.last() == '\\' || s.last() == '"' {
        quote_spec(s.drop_last()) + seq!['\\', s.last()]
    } else {
        quote_spec(s.drop_last()).push(s.last())
    }
}

/// Inline code: backtick-delimited, or a `#raw` call when it holds a backtick.
pub open spec fn code_spec(code: Seq<char>) -> Seq<char> {
    if has_backtick(code) {
        "#raw(\""@ + quote_spec(code) + "\")"@
    } else {
        "`"@ + code + "`"@
    }
}

pub open spec fn cells_text(cells: Seq<Seq<char>>) -> Seq<char>
    decreases cells.len(),
{
    if cells.len() == 0 {
        Seq::empty()
    } else {
        cells_text(cells.drop_last()) + "  ["@ + cells.last() + "],\n"@
    }
}

pub open spec fn table_text(cols: usize, cells: Seq<Seq<char>>) -> Seq<char> {
    "#table(columns: "@ + decimal(cols as nat) + ",\n"@ + cells_text(cells) + ")\n"@
}

#[verifier::opaque]
pub open spec fn start_spec(s: ConvState, t: TagV, e: SrcEventV) -> ConvState {
    match t {
        TagV::Paragraph => open_block(s, e),
        TagV::Heading(level) => push_stack(
            emit_out(open_block(s, e), repeat('=', level as nat).push(' ')),
            Container::Heading,
        ),
        TagV::BlockQuote => {
            let s1 = open_block(s, e);
            if quote_depth(s1.stack) < MAX_BLOCKQUOTE_DEPTH {
                push_stack(emit_out(s1, "#quote(block: true)["@), Container::BlockQuote)
            } else {
                push_stack(s1, Container::BlockQuoteCapped)
            }
        },
        TagV::CodeBlock(lang) => {
            let s1 = open_block(s, e);
            push_stack(
                ConvState { in_code: true, code_buf: Seq::empty(), code_lang: lang, ..s1 },
                Container::CodeBlock,
            )
        },
        TagV::List(ordered) => push_stack(open_block(s, e), Container::List(ordered)),
        TagV::Item => {
            let s1 = if s.out.len() > 0 && !ends_nl(s.out) {
                emit_out(s, seq!['\n'])
            } else {
                s
            };
            push_stack(emit_out(s1, list_marker(s1.stack)), Container::Item)
        },
        TagV::Table(n) => {
            let s1 = open_block(s, e);
            push_stack(ConvState { cols: n, cells: Seq::empty(), ..s1 }, Container::Table)
        },
        TagV::TableHead => push_stack(s, Container::TableHead),
        TagV::TableRow => push_stack(s, Container::TableRow),
        TagV::TableCell => push_stack(
            ConvState { cell: Some(Seq::empty()), ..s },
            Container::TableCell,
        ),
        TagV::Emphasis => push_stack(emit(s, "#emph["@), Container::Emphasis),
        TagV::Strong => push_stack(emit(s, "#strong["@), Container::Strong),
        TagV::Strikethrough => push_stack(emit(s, "#strike["@), Container::Strikethrough),
        TagV::Link(url) => {
            let has = url.len() > 0;
            let s1 = if has {
                emit(s, "#link(\""@ + url + "\")["@)
            } else {
                s
            };
            push_stack(s1, Container::Link(has))
        },
        TagV::Other => s,
    }
}

/// End of a code block: the buffered content inside a fence longer than any
/// backtick run in it.
#[verifier::opaque]
pub open spec fn code_block_end(s: ConvState) -> ConvState {
    let fence = repeat('`', fence_len(s.code_buf));
    let s1 = emit(
        emit(emit(emit(ConvState { in_code: false, ..s }, fence), s.code_lang), seq!['\n']),
        s.code_buf,
    );
    let s2 = if ends_nl(s.code_buf) {
        s1
    } else {
        emit(s1, seq!['\n'])
    };
    let s3 = emit(emit(s2, fence), seq!['\n']);
    close_block(pop_stack(ConvState { code_buf: Seq::empty(), code_lang: Seq::empty(), ..s3 }))
}

#[verifier::opaque]
pub open spec fn quote_end(s: ConvState) -> ConvState {
    let s1 = pop_stack(s);
    let s2 = match top(s.stack) {
        Some(Container::BlockQuote) => emit_out(
            ConvState { out: trim_ws(s1.out, floor(s1) as int), ..s1 },
            "]\n"@,
        ),
        _ => s1,
    };
    close_block(s2)
}

#[verifier::opaque]
pub open spec fn table_end(s: ConvState) -> ConvState {
    let s1 = emit_out(s, table_text(s.cols, s.cells));
    close_block_from(pop_stack(ConvState { cells: Seq::empty(), ..s1 }), Some(pos(s)))
}

#[verifier::opaque]
pub open spec fn end_spec(s: ConvState, t: MdTagEnd) -> ConvState {
    match t {
        MdTagEnd::Paragraph => close_block(ensure_nl(s)),
        MdTagEnd::Heading => close_block(pop_stack(ensure_nl(s))),
        MdTagEnd::BlockQuote => quote_end(s),
        MdTagEnd::CodeBlock => code_block_end(s),
        MdTagEnd::List => close_block(pop_stack(s)),
        MdTagEnd::Item => pop_stack(ensure_nl(s)),
        MdTagEnd::Table => table_end(s),
        MdTagEnd::TableHead | MdTagEnd::TableRow => pop_stack(s),
        MdTagEnd::TableCell => {
            let s1 = match s.cell {
                Some(b) => ConvState { cells: s.cells.push(b), cell: None, ..s },
                None => s,
            };
            pop_stack(s1)
        },
        MdTagEnd::Emphasis | MdTagEnd::Strong | MdTagEnd::Strikethrough => pop_stack(
            emit(s, seq![']']),
        ),
        MdTagEnd::Link => {
            let s1 = match top(s.stack) {
                Some(Container::Link(true)) => emit(s, seq![']']),
                _ => s,
            };
            pop_stack(s1)
        },
        MdTagEnd::Other => s,
    }
}

#[verifier::opaque]
pub open spec fn rule_spec(s: ConvState, e: SrcEventV) -> ConvState {
    let s1 = emit_out(separate(s), "#line(length: 100%)\n"@);
    if s.depth == 0 {
        let m = BlockMapping {
            typst_byte_range: Range { start: pos(s), end: pos(s1) },
            md_byte_range: Range { start: e.start, end: e.end },
        };
        ConvState { blocks: s1.blocks.push(m), ..s1 }
    } else {
        s1
    }
}

/// What one event does to the converter's state.
#[verifier::opaque]
pub open spec fn step(s: ConvState, e: SrcEventV) -> ConvState {
    match e.event {
        EventV::Start(t) => start_spec(s, t, e),
        EventV::End(t) => end_spec(s, t),
        EventV::Text(x) => if s.in_code {
            ConvState { code_buf: s.code_buf + fill_spec(x), ..s }
        } else {
            emit(s, escape_spec(x))
        },
        EventV::Code(x) => emit(s, code_spec(x)),
        EventV::SoftBreak => if s.in_code {
            ConvState { code_buf: s.code_buf.push('\n'), ..s }
        } else {
            emit(s, seq!['\n'])
        },
        EventV::HardBreak => emit(s, "\\ \n"@),
        EventV::Rule => rule_spec(s, e),
        EventV::Other => s,
    }
}

/// The state after a sequence of events.
pub open spec fn run(events: Seq<SrcEventV>) -> ConvState
    decreases events.len(),
{
    if events.len() == 0 {
        initial_state()
    } else {
        step(run(events.drop_last()), events.last())
    }
}

/// The output: the final state's text, ending in a newline unless empty.
pub open spec fn finish(s: ConvState) -> Seq<char> {
    if s.out.len() > 0 && !ends_nl(s.out) {
        s.out.push('\n')
    } else {
        s.out
    }
}

/// Typst markup for a Markdown text.
pub open spec fn typst_of(md: Seq<char>) -> Seq<char> {
    finish(run(markdown_events(md, true)))
}

/// Block mappings for a Markdown text.
pub open spec fn source_map_of(md: Seq<char>) -> Seq<BlockMapping> {
    run(markdown_events(md, true)).blocks
}


proof fn lemma_in_bounds_to(blocks: Seq<BlockMapping>, a: int, b: int, md: int)
    requires
        map_in_bounds(blocks, a, md),
        map_ordered(blocks),
        blocks.len() > 0 ==> blocks.last().typst_byte_range.end <= b,
    ensures
        map_in_bounds(blocks, b, md),
{
    assert forall|i: int| 0 <= i < blocks.len() implies (#[trigger] blocks[i]).typst_byte_range.end
        <= b by {
        lemma_ends_grow(blocks, i, blocks.len() - 1);
    }
}

/// Appends `p` to the output text and its UTF-8 bytes.
fn append_encoded(out: &mut Vec<char>, bytes: &mut Vec<u8>, p: &Vec<char>)
    requires
        old(bytes)@ == encode_utf8(old(out)@),
    ensures
        final(out)@ == old(out)@ + p@,
        final(bytes)@ == encode_utf8(final(out)@),
        final(bytes)@.len() >= old(bytes)@.len(),
{
    let mut i: usize = 0;
    while i < p.len()
        invariant
            i <= p@.len(),
            out@ == old(out)@ + p@.take(i as int),
            bytes@ == encode_utf8(out@),
            bytes@.len() >= old(bytes)@.len(),
        decreases p@.len() - i,
    {
        let c = p[i];
        proof {
            lemma_encode_push(out@, c);
        }
        out.push(c);
        push_utf8(bytes, c);
        i = i + 1;
        assert(out@ =~= old(out)@ + p@.take(i as int));
    }
    assert(p@.take(i as int) =~= p@);
}

/// Appends `src` to `dst`.
fn extend(dst: &mut Vec<char>, src: &Vec<char>)
    ensures
        final(dst)@ == old(dst)@ + src@,
{
    let mut i: usize = 0;
    while i < src.len()
        invariant
            i <= src@.len(),
            dst@ == old(dst)@ + src@.take(i as int),
        decreases src@.len() - i,
    {
        dst.push(src[i]);
        i = i + 1;
        assert(dst@ =~= old(dst)@ + src@.take(i as int));
    }
    assert(src@.take(i as int) =~= src@);
}

/// `n` copies of `c`.
fn repeat_char(c: char, n: usize) -> (r: Vec<char>)
    ensures
        r@ == repeat(c, n as nat),
{
    let mut r: Vec<char> = Vec::new();
    let mut i: usize = 0;
    while i < n
        invariant
            i <= n,
            r@ == repeat(c, i as nat),
        decreases n - i,
    {
        r.push(c);
        i = i + 1;
        assert(r@ =~= repeat(c, i as nat));
    }
    r
}

fn contains_backtick(s: &Vec<char>) -> (r: bool)
    ensures
        r == has_backtick(s@),
{
    let mut i: usize = 0;
    while i < s.len()
        invariant
            i <= s@.len(),
            forall|j: int| 0 <= j < i ==> s@[j] != '`',
        decreases s@.len() - i,
    {
        if s[i] == '`' {
            return true;
        }
        i = i + 1;
    }
    false
}

fn quote_chars(s: &Vec<char>) -> (r: Vec<char>)
    ensures
        r@ == quote_spec(s@),
{
    let mut r: Vec<char> = Vec::new();
    let mut i: usize = 0;
    while i < s.len()
        invariant
            i <= s@.len(),
            r@ == quote_spec(s@.take(i as int)),
        decreases s@.len() - i,
    {
        let c = s[i];
        assert(s@.take(i as int + 1).drop_last() =~= s@.take(i as int));
        if c == '\\' || c == '"' {
            r.push('\\');
        }
        r.push(c);
        i = i + 1;
        assert(r@ =~= quote_spec(s@.take(i as int)));
    }
    assert(s@.take(i as int) =~= s@);
    r
}

/// Inline code as Typst markup.
fn code_markup(code: &Vec<char>) -> (r: Vec<char>)
    ensures
        r@ == code_spec(code@),
{
    let mut r: Vec<char>;
    if contains_backtick(code) {
        r = chars_of("#raw(\"");
        extend(&mut r, &quote_chars(code));
        extend(&mut r, &chars_of("\")"));
    } else {
        r = chars_of("`");
        extend(&mut r, code);
        extend(&mut r, &chars_of("`"));
    }
    r
}

pub open spec fn views(v: Seq<Vec<char>>) -> Seq<Seq<char>> {
    v.map_values(|x: Vec<char>| x@)
}

/// The `#table(..)` call for buffered cells.
fn table_markup(cols: usize, cells: &Vec<Vec<char>>) -> (r: Vec<char>)
    ensures
        r@ == table_text(cols, views(cells@)),
{
    let mut body: Vec<char> = Vec::new();
    let mut i: usize = 0;
    while i < cells.len()
        invariant
            i <= cells@.len(),
            body@ == cells_text(views(cells@).take(i as int)),
        decreases cells@.len() - i,
    {
        assert(views(cells@).take(i as int + 1).drop_last() =~= views(cells@).take(i as int));
        extend(&mut body, &chars_of("  ["));
        extend(&mut body, &cells[i]);
        extend(&mut body, &chars_of("],\n"));
        i = i + 1;
        assert(body@ =~= cells_text(views(cells@).take(i as int)));
    }
    assert(views(cells@).take(i as int) =~= views(cells@));
    let mut r = chars_of("#table(columns: ");
    extend(&mut r, &decimal_chars(cols as u64));
    extend(&mut r, &chars_of(",\n"));
    extend(&mut r, &body);
    extend(&mut r, &chars_of(")\n"));
    r
}

pub(crate) fn is_whitespace(c: char) -> (r: bool)
    ensures
        r == is_white(c),
{
    c == '\t' || c == '\n' || c == '\x0B' || c == '\x0C' || c == '\r' || c == ' ' || c == '\u{85}'
        || c == '\u{A0}' || c == '\u{1680}' || ('\u{2000}' <= c && c <= '\u{200A}') || c
        == '\u{2028}' || c == '\u{2029}' || c == '\u{202F}' || c == '\u{205F}' || c == '\u{3000}'
}

#[verifier::opaque]
spec fn blocks_ok(blocks: Seq<BlockMapping>, out_len: nat, md_len: usize) -> bool {
    &&& map_in_bounds(blocks, out_len as int, md_len as int)
    &&& map_ordered(blocks)
}

fn one(c: char) -> (r: Vec<char>)
    ensures
        r@ == seq![c],
{
    let mut r: Vec<char> = Vec::new();
    r.push(c);
    assert(r@ =~= seq![c]);
    r
}

fn two(a: char, b: char) -> (r: Vec<char>)
    ensures
        r@ == seq![a, b],
{
    let mut r: Vec<char> = Vec::new();
    r.push(a);
    r.push(b);
    assert(r@ =~= seq![a, b]);
    r
}

/// The converter's working state.
struct Converter {
    out: Vec<char>,
    /// UTF-8 encoding of `out`; its length is the output position in bytes.
    out_bytes: Vec<u8>,
    stack: Vec<Container>,
    in_code: bool,
    code_buf: Vec<char>,
    code_lang: Vec<char>,
    cell: Option<Vec<char>>,
    cells: Vec<Vec<char>>,
    cols: usize,
    blocks: Vec<BlockMapping>,
    pending: Option<Pending>,
    depth: usize,
    md_len: usize,
}

impl View for Converter {
    type V = ConvState;

    closed spec fn view(&self) -> ConvState {
        ConvState {
            out: self.out@,
            stack: self.stack@,
            in_code: self.in_code,
            code_buf: self.code_buf@,
            code_lang: self.code_lang@,
            cell: match self.cell {
                Some(b) => Some(b@),
                None => None,
            },
            cells: views(self.cells@),
            cols: self.cols,
            blocks: self.blocks@,
            pending: self.pending,
            depth: self.depth,
        }
    }
}

impl Converter {
    spec fn inv(&self) -> bool {
        &&& self.out_bytes@ == encode_utf8(self.out@)
        &&& blocks_ok(self.blocks@, self.out_bytes@.len(), self.md_len)
        &&& self.pending matches Some(p) ==> {
            &&& p.typst_start <= self.out_bytes@.len()
            &&& p.md_start <= p.md_end <= self.md_len
        }
    }

    proof fn lemma_pos(&self)
        requires
            self.inv(),
        ensures
            pos(self@) == self.out_bytes@.len(),
            self.out_bytes@.len() <= usize::MAX,
    {
        assert(self.out_bytes.len() == self.out_bytes@.len());
    }

    fn new(md_len: usize) -> (r: Converter)
        ensures
            r.inv(),
            r@ == initial_state(),
            r.md_len == md_len,
    {
        let r = Converter {
            out: Vec::new(),
            out_bytes: Vec::new(),
            stack: Vec::new(),
            in_code: false,
            code_buf: Vec::new(),
            code_lang: Vec::new(),
            cell: None,
            cells: Vec::new(),
            cols: 0,
            blocks: Vec::new(),
            pending: None,
            depth: 0,
            md_len,
        };
        assert(r@.cells =~= Seq::<Seq<char>>::empty());
        assert(encode_utf8(r.out@) =~= Seq::<u8>::empty());
        proof {
            reveal(blocks_ok);
        }
        r
    }

    fn push_out(&mut self, p: &Vec<char>)
        requires
            old(self).inv(),
        ensures
            final(self).inv(),
            final(self).md_len == old(self).md_len,
            final(self)@ == emit_out(old(self)@, p@),
            final(self).blocks@ == old(self).blocks@,
            final(self).pending == old(self).pending,
            final(self).depth == old(self).depth,
            final(self).out_bytes@.len() >= old(self).out_bytes@.len(),
    {
        proof {
            reveal(emit_out);
            reveal(blocks_ok);
        }
        append_encoded(&mut self.out, &mut self.out_bytes, p);
        proof {
            if self.blocks@.len() > 0 {
                assert(self.blocks@[self.blocks@.len() - 1].typst_byte_range.end
                    <= old(self).out_bytes@.len());
            }
            lemma_in_bounds_to(
                self.blocks@,
                old(self).out_bytes@.len() as int,
                self.out_bytes@.len() as int,
                self.md_len as int,
            );
        }
    }

    fn emit(&mut self, p: &Vec<char>)
        requires
            old(self).inv(),
        ensures
            final(self).inv(),
            final(self).md_len == old(self).md_len,
            final(self)@ == emit(old(self)@, p@),
            final(self).blocks@ == old(self).blocks@,
            final(self).pending == old(self).pending,
            final(self).depth == old(self).depth,
            final(self).out_bytes@.len() >= old(self).out_bytes@.len(),
    {
        proof {
            reveal(emit);
            reveal(emit_out);
        }
        if self.cell.is_some() {
            let mut b = self.cell.take().unwrap();
            extend(&mut b, p);
            self.cell = Some(b);
        } else {
            self.push_out(p);
        }
    }

    fn ends_nl(&self) -> (r: bool)
        ensures
            r == ends_nl(self.out@),
    {
        self.out.len() > 0 && self.out[self.out.len() - 1] == '\n'
    }

    fn ensure_nl(&mut self)
        requires
            old(self).inv(),
        ensures
            final(self).inv(),
            final(self).md_len == old(self).md_len,
            final(self)@ == ensure_nl(old(self)@),
            final(self).blocks@ == old(self).blocks@,
            final(self).pending == old(self).pending,
            final(self).depth == old(self).depth,
            final(self).out_bytes@.len() >= old(self).out_bytes@.len(),
    {
        proof {
            reveal(ensure_nl);
        }
        if !self.ends_nl() {
            self.push_out(&one('\n'));
        }
    }

    fn separate(&mut self)
        requires
            old(self).inv(),
        ensures
            final(self).inv(),
            final(self).md_len == old(self).md_len,
            final(self)@ == separate(old(self)@),
            final(self).blocks@ == old(self).blocks@,
            final(self).pending == old(self).pending,
            final(self).depth == old(self).depth,
            final(self).out_bytes@.len() >= old(self).out_bytes@.len(),
    {
        proof {
            reveal(separate);
        }
        if self.out.len() == 0 {
        } else if self.ends_nl() {
            self.push_out(&one('\n'));
        } else {
            self.push_out(&two('\n', '\n'));
        }
    }

    fn push_stack(&mut self, c: Container)
        requires
            old(self).inv(),
        ensures
            final(self).inv(),
            final(self).md_len == old(self).md_len,
            final(self)@ == push_stack(old(self)@, c),
            final(self).blocks@ == old(self).blocks@,
            final(self).pending == old(self).pending,
            final(self).depth == old(self).depth,
            final(self).out_bytes@ == old(self).out_bytes@,
    {
        proof {
            reveal(push_stack);
        }
        self.stack.push(c);
    }

    fn pop_stack(&mut self)
        requires
            old(self).inv(),
        ensures
            final(self).inv(),
            final(self).md_len == old(self).md_len,
            final(self)@ == pop_stack(old(self)@),
            final(self).blocks@ == old(self).blocks@,
            final(self).pending == old(self).pending,
            final(self).depth == old(self).depth,
            final(self).out_bytes@ == old(self).out_bytes@,
    {
        proof {
            reveal(pop_stack);
        }
        self.stack.pop();
        assert(final(self)@.stack =~= pop_stack(old(self)@).stack);
    }

    fn top(&self) -> (r: Option<Container>)
        ensures
            r == top(self.stack@),
    {
        if self.stack.len() == 0 {
            None
        } else {
            Some(self.stack[self.stack.len() - 1])
        }
    }

    fn open_block(&mut self, e: &SrcEvent)
        requires
            old(self).inv(),
            e.start <= e.end <= old(self).md_len,
        ensures
            final(self).inv(),
            final(self).md_len == old(self).md_len,
            final(self)@ == open_block(old(self)@, e@),
    {
        proof {
            reveal(open_block);
        }
        proof {
            self.lemma_pos();
        }
        if self.depth == 0 {
            self.pending = Some(
                Pending { typst_start: self.out_bytes.len(), md_start: e.start, md_end: e.end },
            );
        }
        if self.depth < usize::MAX {
            self.depth = self.depth + 1;
        }
        self.separate();
    }

    fn last_end(&self) -> (r: usize)
        ensures
            r == last_end(self@),
    {
        if self.blocks.len() == 0 {
            0
        } else {
            self.blocks[self.blocks.len() - 1].typst_byte_range.end
        }
    }

    fn close_block_from(&mut self, from: Option<usize>)
        requires
            old(self).inv(),
            from matches Some(f) ==> f <= old(self).out_bytes@.len(),
        ensures
            final(self).inv(),
            final(self).md_len == old(self).md_len,
            final(self)@ == close_block_from(old(self)@, from),
    {
        proof {
            reveal(blocks_ok);
            reveal(close_block_from);
        }
        proof {
            self.lemma_pos();
        }
        self.depth = if self.depth > 0 {
            self.depth - 1
        } else {
            0
        };
        if self.depth == 0 && self.pending.is_some() {
            let p = self.pending.unwrap();
            let start = match from {
                Some(f) => f,
                None => p.typst_start,
            };
            let le = self.last_end();
            let st = if start >= le {
                start
            } else {
                le
            };
            let m = BlockMapping {
                typst_byte_range: Range { start: st, end: self.out_bytes.len() },
                md_byte_range: Range { start: p.md_start, end: p.md_end },
            };
            proof {
                if self.blocks@.len() > 0 {
                    assert(map_in_bounds(self.blocks@, self.out_bytes@.len() as int, self.md_len as int));
                    let k = self.blocks@.len() - 1;
                    assert(self.blocks@[k].typst_byte_range.end <= self.out_bytes@.len());
                }
            }
            self.blocks.push(m);
            self.pending = None;
            proof {
                let b = self.blocks@;
                assert forall|i: int| 0 <= i && i + 1 < b.len() implies (#[trigger] b[i]).typst_byte_range.end
                    <= b[i + 1].typst_byte_range.start by {
                    if i + 2 < b.len() {
                        assert(b[i] == old(self).blocks@[i]);
                        assert(b[i + 1] == old(self).blocks@[i + 1]);
                    }
                }
            }
        }
    }

    fn quote_depth(&self) -> (r: usize)
        ensures
            r == quote_depth(self.stack@),
    {
        let mut n: usize = 0;
        let mut i: usize = 0;
        while i < self.stack.len()
            invariant
                i <= self.stack@.len(),
                n == quote_depth(self.stack@.take(i as int)),
                n <= i,
            decreases self.stack@.len() - i,
        {
            assert(self.stack@.take(i as int + 1).drop_last() =~= self.stack@.take(i as int));
            match self.stack[i] {
                Container::BlockQuote | Container::BlockQuoteCapped => {
                    n = n + 1;
                },
                _ => {},
            }
            i = i + 1;
        }
        assert(self.stack@.take(i as int) =~= self.stack@);
        n
    }

    fn list_marker(&self) -> (r: Vec<char>)
        ensures
            r@ == list_marker(self.stack@),
    {
        let mut i: usize = self.stack.len();
        assert(self.stack@.take(i as int) =~= self.stack@);
        while i > 0
            invariant
                i <= self.stack@.len(),
                list_marker(self.stack@) == list_marker(self.stack@.take(i as int)),
            decreases i,
        {
            assert(self.stack@.take(i as int).drop_last() =~= self.stack@.take(i - 1));
            match self.stack[i - 1] {
                Container::List(true) => {
                    return two('+', ' ');
                },
                Container::List(false) => {
                    return two('-', ' ');
                },
                _ => {},
            }
            i = i - 1;
        }
        two('-', ' ')
    }

    /// Removes trailing whitespace, never below the floor.
    fn trim_end(&mut self)
        requires
            old(self).inv(),
        ensures
            final(self).inv(),
            final(self).md_len == old(self).md_len,
            final(self)@ == (ConvState {
                out: trim_ws(old(self)@.out, floor(old(self)@) as int),
                ..old(self)@
            }),
    {
        proof {
            reveal(blocks_ok);
            self.lemma_pos();
            if self.blocks@.len() > 0 {
                assert(self.blocks@[self.blocks@.len() - 1].typst_byte_range.end <= self.out_bytes@.len());
            }
        }
        let le = self.last_end();
        let fl = match self.pending {
            Some(p) => if le >= p.typst_start {
                le
            } else {
                p.typst_start
            },
            None => le,
        };
        let mut done = false;
        while !done && self.out.len() > 0
            invariant
                self.inv(),
                self.md_len == old(self).md_len,
                fl == floor(old(self)@),
                fl <= self.out_bytes@.len(),
                self@ == (ConvState { out: self@.out, ..old(self)@ }),
                trim_ws(self.out@, fl as int) == trim_ws(old(self)@.out, fl as int),
                done ==> trim_ws(self.out@, fl as int) == self.out@,
            decreases self.out@.len() + (if done { 0int } else { 1int }),
        {
            let c = self.out[self.out.len() - 1];
            let w = char_width(c);
            proof {
                lemma_blen_drop_last(self.out@);
                assert(self.out@.last() == c);
            }
            if is_whitespace(c) && self.out_bytes.len() - w >= fl {
                let n = self.out_bytes.len() - w;
                proof {
                    lemma_encode_push(self.out@.drop_last(), c);
                    assert(self.out@.drop_last().push(c) =~= self.out@);
                }
                let ghost before = self.out_bytes@.len();
                self.out.pop();
                self.out_bytes.truncate(n);
                assert(self.out_bytes@ =~= encode_utf8(self.out@));
                proof {
                    reveal(blocks_ok);
                    lemma_in_bounds_to(self.blocks@, before as int, n as int, self.md_len as int);
                }
            } else {
                done = true;
            }
        }
    }

    fn start_tag(&mut self, t: &MdTag, e: &SrcEvent)
        requires
            old(self).inv(),
            e.start <= e.end <= old(self).md_len,
        ensures
            final(self).inv(),
            final(self).md_len == old(self).md_len,
            final(self)@ == start_spec(old(self)@, t@, e@),
    {
        proof {
            reveal(start_spec);
        }
        match t {
            MdTag::Paragraph => {
                self.open_block(e);
            },
            MdTag::Heading(level) => {
                self.open_block(e);
                let mut p = repeat_char('=', *level as usize);
                p.push(' ');
                self.push_out(&p);
                self.push_stack(Container::Heading);
            },
            MdTag::BlockQuote => {
                self.open_block(e);
                if self.quote_depth() < MAX_BLOCKQUOTE_DEPTH {
                    self.push_out(&chars_of("#quote(block: true)["));
                    self.push_stack(Container::BlockQuote);
                } else {
                    self.push_stack(Container::BlockQuoteCapped);
                }
            },
            MdTag::CodeBlock(lang) => {
                self.open_block(e);
                self.in_code = true;
                self.code_buf = Vec::new();
                let mut l: Vec<char> = Vec::new();
                extend(&mut l, lang);
                self.code_lang = l;
                self.push_stack(Container::CodeBlock);
            },
            MdTag::List(ordered) => {
                self.open_block(e);
                self.push_stack(Container::List(*ordered));
            },
            MdTag::Item => {
                if self.out.len() > 0 && !self.ends_nl() {
                    self.push_out(&one('\n'));
                }
                let m = self.list_marker();
                self.push_out(&m);
                self.push_stack(Container::Item);
            },
            MdTag::Table(n) => {
                self.open_block(e);
                self.cols = *n;
                self.cells = Vec::new();
                assert(views(self.cells@) =~= Seq::<Seq<char>>::empty());
                self.push_stack(Container::Table);
            },
            MdTag::TableHead => {
                self.push_stack(Container::TableHead);
            },
            MdTag::TableRow => {
                self.push_stack(Container::TableRow);
            },
            MdTag::TableCell => {
                self.cell = Some(Vec::new());
                self.push_stack(Container::TableCell);
            },
            MdTag::Emphasis => {
                self.emit(&chars_of("#emph["));
                self.push_stack(Container::Emphasis);
            },
            MdTag::Strong => {
                self.emit(&chars_of("#strong["));
                self.push_stack(Container::Strong);
            },
            MdTag::Strikethrough => {
                self.emit(&chars_of("#strike["));
                self.push_stack(Container::Strikethrough);
            },
            MdTag::Link(url) => {
                let has = url.len() > 0;
                if has {
                    let mut p = chars_of("#link(\"");
                    extend(&mut p, url);
                    extend(&mut p, &chars_of("\")["));
                    self.emit(&p);
                }
                self.push_stack(Container::Link(has));
            },
            MdTag::Other => {},
        }
    }

    fn end_code_block(&mut self)
        requires
            old(self).inv(),
        ensures
            final(self).inv(),
            final(self).md_len == old(self).md_len,
            final(self)@ == code_block_end(old(self)@),
    {
        proof {
            reveal(code_block_end);
            reveal(close_block);
        }
        let m = backtick_run(&self.code_buf);
        let n: usize = if m > 2 {
            if m < usize::MAX {
                m + 1
            } else {
                m
            }
        } else {
            3
        };
        let fence = repeat_char('`', n);
        let mut buf: Vec<char> = Vec::new();
        extend(&mut buf, &self.code_buf);
        let mut lang: Vec<char> = Vec::new();
        extend(&mut lang, &self.code_lang);
        self.in_code = false;
        self.emit(&fence);
        self.emit(&lang);
        self.emit(&one('\n'));
        self.emit(&buf);
        if !(buf.len() > 0 && buf[buf.len() - 1] == '\n') {
            self.emit(&one('\n'));
        }
        self.emit(&fence);
        self.emit(&one('\n'));
        self.code_buf = Vec::new();
        self.code_lang = Vec::new();
        self.pop_stack();
        self.close_block_from(None);
    }

    fn end_quote(&mut self)
        requires
            old(self).inv(),
        ensures
            final(self).inv(),
            final(self).md_len == old(self).md_len,
            final(self)@ == quote_end(old(self)@),
    {
        proof {
            reveal(quote_end);
            reveal(close_block);
        }
        let t = self.top();
        self.pop_stack();
        match t {
            Some(Container::BlockQuote) => {
                self.trim_end();
                self.push_out(&chars_of("]\n"));
            },
            _ => {},
        }
        self.close_block_from(None);
    }

    fn end_table(&mut self)
        requires
            old(self).inv(),
        ensures
            final(self).inv(),
            final(self).md_len == old(self).md_len,
            final(self)@ == table_end(old(self)@),
    {
        proof {
            reveal(table_end);
        }
        proof {
            self.lemma_pos();
        }
        let t0 = self.out_bytes.len();
        let text = table_markup(self.cols, &self.cells);
        self.push_out(&text);
        self.cells = Vec::new();
        assert(views(self.cells@) =~= Seq::<Seq<char>>::empty());
        self.pop_stack();
        self.close_block_from(Some(t0));
    }

    fn end_tag(&mut self, t: &MdTagEnd)
        requires
            old(self).inv(),
        ensures
            final(self).inv(),
            final(self).md_len == old(self).md_len,
            final(self)@ == end_spec(old(self)@, *t),
    {
        proof {
            reveal(end_spec);
            reveal(close_block);
        }
        match t {
            MdTagEnd::Paragraph => {
                self.ensure_nl();
                self.close_block_from(None);
            },
            MdTagEnd::Heading => {
                self.ensure_nl();
                self.pop_stack();
                self.close_block_from(None);
            },
            MdTagEnd::BlockQuote => {
                self.end_quote();
            },
            MdTagEnd::CodeBlock => {
                self.end_code_block();
            },
            MdTagEnd::List => {
                self.pop_stack();
                self.close_block_from(None);
            },
            MdTagEnd::Item => {
                self.ensure_nl();
                self.pop_stack();
            },
            MdTagEnd::Table => {
                self.end_table();
            },
            MdTagEnd::TableHead | MdTagEnd::TableRow => {
                self.pop_stack();
            },
            MdTagEnd::TableCell => {
                if self.cell.is_some() {
                    let b = self.cell.take().unwrap();
                    self.cells.push(b);
                    assert(views(self.cells@) =~= views(old(self).cells@).push(b@));
                }
                self.pop_stack();
            },
            MdTagEnd::Emphasis | MdTagEnd::Strong | MdTagEnd::Strikethrough => {
                self.emit(&one(']'));
                self.pop_stack();
            },
            MdTagEnd::Link => {
                match self.top() {
                    Some(Container::Link(true)) => {
                        self.emit(&one(']'));
                    },
                    _ => {},
                }
                self.pop_stack();
            },
            MdTagEnd::Other => {},
        }
    }

    fn rule(&mut self, e: &SrcEvent)
        requires
            old(self).inv(),
            e.start <= e.end <= old(self).md_len,
        ensures
            final(self).inv(),
            final(self).md_len == old(self).md_len,
            final(self)@ == rule_spec(old(self)@, e@),
    {
        proof {
            reveal(blocks_ok);
            reveal(rule_spec);
        }
        proof {
            self.lemma_pos();
        }
        let r0 = self.out_bytes.len();
        self.separate();
        self.push_out(&chars_of("#line(length: 100%)\n"));
        if self.depth == 0 {
            proof {
                self.lemma_pos();
                if self.blocks@.len() > 0 {
                    assert(map_in_bounds(old(self).blocks@, old(self).out_bytes@.len() as int, self.md_len as int));
                    let k = old(self).blocks@.len() - 1;
                    assert(old(self).blocks@[k].typst_byte_range.end <= r0);
                }
            }
            let m = BlockMapping {
                typst_byte_range: Range { start: r0, end: self.out_bytes.len() },
                md_byte_range: Range { start: e.start, end: e.end },
            };
            self.blocks.push(m);
            proof {
                let b = self.blocks@;
                assert forall|i: int| 0 <= i && i + 1 < b.len() implies (#[trigger] b[i]).typst_byte_range.end
                    <= b[i + 1].typst_byte_range.start by {
                    if i + 2 < b.len() {
                        assert(b[i] == old(self).blocks@[i]);
                        assert(b[i + 1] == old(self).blocks@[i + 1]);
                    }
                }
            }
        }
    }

    fn step(&mut self, e: &SrcEvent)
        requires
            old(self).inv(),
            e.start <= e.end <= old(self).md_len,
        ensures
            final(self).inv(),
            final(self).md_len == old(self).md_len,
            final(self)@ == step(old(self)@, e@),
    {
        proof {
            reveal(step);
        }
        match &e.event {
            MdEvent::Start(t) => self.start_tag(t, e),
            MdEvent::End(t) => self.end_tag(t),
            MdEvent::Text(x) => {
                if self.in_code {
                    extend(&mut self.code_buf, &fill_blank_chars(x));
                } else {
                    self.emit(&escape_chars(x));
                }
            },
            MdEvent::Code(x) => self.emit(&code_markup(x)),
            MdEvent::SoftBreak => {
                if self.in_code {
                    self.code_buf.push('\n');
                } else {
                    self.emit(&one('\n'));
                }
            },
            MdEvent::HardBreak => self.emit(&chars_of("\\ \n")),
            MdEvent::Rule => self.rule(e),
            MdEvent::Other => {},
        }
    }
}


/// Every event's source range is well formed and within `md_len` bytes.
pub open spec fn events_in(events: Seq<SrcEvent>, md_len: int) -> bool {
    forall|i: int|
        0 <= i < events.len() ==> (#[trigger] events[i]).start <= events[i].end && events[i].end
            <= md_len
}

/// Runs the conversion over a parsed event stream of a `md_len`-byte text.
pub fn convert_events(events: &Vec<SrcEvent>, md_len: usize) -> (r: (Vec<char>, SourceMap))
    requires
        events_in(events@, md_len as int),
    ensures
        r.0@ == finish(run(event_views(events@))),
        r.1.blocks@ == run(event_views(events@)).blocks,
        map_in_bounds(r.1.blocks@, blen(r.0@) as int, md_len as int),
        map_ordered(r.1.blocks@),
{
    let mut c = Converter::new(md_len);
    let mut i: usize = 0;
    while i < events.len()
        invariant
            i <= events@.len(),
            c.inv(),
            c.md_len == md_len,
            c@ == run(event_views(events@).take(i as int)),
            events_in(events@, md_len as int),
        decreases events@.len() - i,
    {
        assert(event_views(events@).take(i as int + 1).drop_last() =~= event_views(events@).take(
            i as int,
        ));
        assert(events@[i as int].start <= events@[i as int].end <= md_len);
        c.step(&events[i]);
        i = i + 1;
    }
    assert(event_views(events@).take(i as int) =~= event_views(events@));
    if c.out.len() > 0 && !c.ends_nl() {
        c.push_out(&one('\n'));
    }
    proof {
        reveal(emit_out);
        reveal(blocks_ok);
    }
    (c.out, SourceMap { blocks: c.blocks })
}

/// Convert Markdown text to Typst markup with source mapping.
///
/// The map ties each top-level block's Typst byte range to its Markdown byte
/// range; ranges lie within their texts and do not overlap.
pub fn markdown_to_typst_with_map(markdown: &str) -> (r: (String, SourceMap))
    ensures
        r.0@ == typst_of(markdown@),
        r.1.blocks@ == source_map_of(markdown@),
        map_in_bounds(r.1.blocks@, blen(r.0@) as int, markdown.len() as int),
        map_ordered(r.1.blocks@),
{
    let events = parse_events(markdown, true);
    let (out, map) = convert_events(&events, markdown.len());
    (string_of(&out), map)
}

/// Convert Markdown text to Typst markup.
pub fn markdown_to_typst(markdown: &str) -> (r: String)
    ensures
        r@ == typst_of(markdown@),
{
    markdown_to_typst_with_map(markdown).0
}

/// The conversion depends on the text alone: equal texts give equal markup
/// and equal source maps.
pub proof fn lemma_convert_deterministic(a: Seq<char>, b: Seq<char>)
    requires
        a == b,
    ensures
        typst_of(a) == typst_of(b),
        source_map_of(a) == source_map_of(b),
{
}


/// Escape characters that have special meaning in Typst markup.
pub fn escape_typst(text: &str) -> (r: String)
    ensures
        r@ == escape_spec(text@),
{
    string_of(&escape_chars(&chars_of(text)))
}

/// The longest run of consecutive backticks in `s`.
pub fn max_backtick_run(s: &str) -> (r: usize)
    ensures
        r == max_run_spec(s@),
{
    backtick_run(&chars_of(s))
}

/// Replace blank lines with space-only lines in code block text.
pub fn fill_blank_lines(text: &str) -> (r: String)
    ensures
        r@ == fill_spec(text@),
{
    string_of(&fill_blank_chars(&chars_of(text)))
}

} // verus!
