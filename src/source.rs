//! Markdown source lines: byte offsets to line numbers, the lines a visual
//! line maps to, and the text a yank copies.

use vstd::prelude::*;

use crate::convert::{covers, map_ordered, BlockMapping, SourceMap};
use crate::events::string_of;
use crate::tile::VisualLine;
use vstd::string::StringSliceAdditionalSpecFns;
use vstd::utf8::is_char_boundary;

verus! {

/// Number of newline bytes in `b`.
pub open spec fn count_nl(b: Seq<u8>) -> nat
    decreases b.len(),
{
    if b.len() == 0 {
        0
    } else if b.last() == 10u8 {
        count_nl(b.drop_last()) + 1
    } else {
        count_nl(b.drop_last())
    }
}

/// 1-based line number of byte `off` (clamped to the text) in `bytes`.
pub open spec fn line_of(bytes: Seq<u8>, off: int) -> nat {
    let o = if off <= bytes.len() {
        off
    } else {
        bytes.len() as int
    };
    count_nl(bytes.take(o)) + 1
}

/// Convert a byte offset within a string to a 1-based line number.
pub fn byte_offset_to_line(source: &str, offset: usize) -> (r: usize)
    ensures
        r == (if line_of(source.spec_bytes(), offset as int) <= usize::MAX {
            line_of(source.spec_bytes(), offset as int)
        } else {
            usize::MAX as nat
        }),
{
    let bytes = source.as_bytes();
    let end = if offset <= bytes.len() {
        offset
    } else {
        bytes.len()
    };
    let mut n: usize = 0;
    let mut i: usize = 0;
    while i < end
        invariant
            end <= bytes@.len(),
            bytes@ == source.spec_bytes(),
            i <= end,
            n == count_nl(bytes@.take(i as int)),
            n <= i,
        decreases end - i,
    {
        assert(bytes@.take(i as int + 1).drop_last() =~= bytes@.take(i as int));
        if bytes[i] == 10u8 {
            n = n + 1;
        }
        i = i + 1;
    }
    if n < usize::MAX {
        n + 1
    } else {
        n
    }
}

/// The pieces of `s` between newline characters (one more than the newlines).
pub open spec fn pieces(s: Seq<char>) -> Seq<Seq<char>>
    decreases s.len(),
{
    if s.len() == 0 {
        seq![Seq::empty()]
    } else {
        let p = pieces(s.drop_last());
        if s.last() == '\n' {
            p.push(Seq::empty())
        } else {
            p.update(p.len() - 1, p.last().push(s.last()))
        }
    }
}

/// A line that ended in CR LF loses its CR.
pub open spec fn strip_cr(l: Seq<char>) -> Seq<char> {
    if l.len() > 0 && l.last() == '\r' {
        l.drop_last()
    } else {
        l
    }
}

/// The lines of a text: split at `\n` or `\r\n`; a final line ending adds no
/// empty line.
pub open spec fn md_lines(s: Seq<char>) -> Seq<Seq<char>> {
    let p = pieces(s);
    let full = p.drop_last().map_values(|l: Seq<char>| strip_cr(l));
    if p.last().len() == 0 {
        full
    } else {
        full.push(p.last())
    }
}

/// Lines joined with `\n`.
pub open spec fn join_lines(ls: Seq<Seq<char>>) -> Seq<char>
    decreases ls.len(),
{
    if ls.len() == 0 {
        Seq::empty()
    } else if ls.len() == 1 {
        ls[0]
    } else {
        join_lines(ls.drop_last()).push('\n') + ls.last()
    }
}

pub open spec fn views(v: Seq<Vec<char>>) -> Seq<Seq<char>> {
    v.map_values(|x: Vec<char>| x@)
}

/// The lines of `s`, each as characters.
pub fn split_lines(s: &Vec<char>) -> (r: Vec<Vec<char>>)
    ensures
        views(r@) == md_lines(s@),
{
    let mut done: Vec<Vec<char>> = Vec::new();
    let mut cur: Vec<char> = Vec::new();
    let mut i: usize = 0;
    assert(s@.take(0) =~= Seq::<char>::empty());
    while i < s.len()
        invariant
            i <= s@.len(),
            pieces(s@.take(i as int)).len() >= 1,
            views(done@) == pieces(s@.take(i as int)).drop_last().map_values(
                |l: Seq<char>| strip_cr(l),
            ),
            cur@ == pieces(s@.take(i as int)).last(),
        decreases s@.len() - i,
    {
        let c = s[i];
        let ghost p = pieces(s@.take(i as int));
        assert(s@.take(i as int + 1).drop_last() =~= s@.take(i as int));
        assert(s@.take(i as int + 1).last() == c);
        if c == '\n' {
            let mut line = cur;
            if line.len() > 0 && line[line.len() - 1] == '\r' {
                line.pop();
            }
            assert(line@ == strip_cr(p.last()));
            let ghost old_done = done@;
            done.push(line);
            assert(views(done@) =~= views(old_done).push(strip_cr(p.last())));
            cur = Vec::new();
            proof {
                let q = pieces(s@.take(i as int + 1));
                assert(q == p.push(Seq::empty()));
                assert(q.drop_last() =~= p);
                assert(p =~= p.drop_last().push(p.last()));
                assert(p.map_values(|l: Seq<char>| strip_cr(l)) =~= p.drop_last().map_values(
                    |l: Seq<char>| strip_cr(l),
                ).push(strip_cr(p.last())));
                assert(views(done@) =~= q.drop_last().map_values(|l: Seq<char>| strip_cr(l)));
                assert(cur@ =~= q.last());
            }
        } else {
            cur.push(c);
            proof {
                let q = pieces(s@.take(i as int + 1));
                assert(q == p.update(p.len() - 1, p.last().push(c)));
                assert(q.drop_last() =~= p.drop_last());
            }
        }
        i = i + 1;
    }
    assert(s@.take(i as int) =~= s@);
    if cur.len() > 0 {
        let ghost old_done = done@;
        let ghost last = cur@;
        done.push(cur);
        assert(views(done@) =~= views(old_done).push(last));
        proof {
            let p = pieces(s@);
            assert(views(done@) =~= p.drop_last().map_values(|l: Seq<char>| strip_cr(l)).push(
                p.last(),
            ));
        }
    }
    done
}

/// Lines `lines[from..to]` joined with `\n`.
pub(crate) fn join_range(lines: &Vec<Vec<char>>, from: usize, to: usize) -> (r: Vec<char>)
    requires
        from <= to <= lines@.len(),
    ensures
        r@ == join_lines(views(lines@).subrange(from as int, to as int)),
{
    let mut r: Vec<char> = Vec::new();
    let mut i: usize = from;
    while i < to
        invariant
            from <= i <= to <= lines@.len(),
            r@ == join_lines(views(lines@).subrange(from as int, i as int)),
        decreases to - i,
    {
        let ghost before = views(lines@).subrange(from as int, i as int);
        let ghost after = views(lines@).subrange(from as int, i as int + 1);
        assert(after.drop_last() =~= before);
        assert(after.last() == lines@[i as int]@);
        if i > from {
            r.push('\n');
        }
        let line = &lines[i];
        let mut j: usize = 0;
        let ghost base = r@;
        while j < line.len()
            invariant
                j <= line@.len(),
                r@ == base + line@.take(j as int),
            decreases line@.len() - j,
        {
            r.push(line[j]);
            j = j + 1;
            assert(r@ =~= base + line@.take(j as int));
        }
        assert(line@.take(j as int) =~= line@);
        proof {
            if i == from {
                assert(after.len() == 1);
                assert(r@ =~= after[0]);
            }
        }
        i = i + 1;
    }
    r
}

/// Union of the mapped line ranges of `vls`: least first line, greatest last line.
pub open spec fn range_union(vls: Seq<VisualLine>) -> Option<(usize, usize)>
    decreases vls.len(),
{
    if vls.len() == 0 {
        None
    } else {
        let rest = range_union(vls.drop_last());
        match vls.last().md_line_range {
            None => rest,
            Some((s, e)) => match rest {
                None => Some((s, e)),
                Some((a, b)) => Some(
                    (
                        if a <= s {
                            a
                        } else {
                            s
                        },
                        if b >= e {
                            b
                        } else {
                            e
                        },
                    ),
                ),
            },
        }
    }
}

/// Markdown lines `lo..=hi` (1-based, clipped to the text) joined with `\n`.
pub open spec fn lines_text(md: Seq<char>, lo: usize, hi: usize) -> Seq<char> {
    let ls = md_lines(md);
    let si = if lo >= 1 {
        lo - 1
    } else {
        0
    };
    let ei = if hi <= ls.len() {
        hi as int
    } else {
        ls.len() as int
    };
    if si >= ls.len() || si >= ei {
        Seq::empty()
    } else {
        join_lines(ls.subrange(si, ei))
    }
}

/// The Markdown text that visual lines `start_vl..=end_vl` map to.
pub open spec fn yank_spec(md: Seq<char>, vls: Seq<VisualLine>, start_vl: int, end_vl: int) -> Seq<
    char,
> {
    let n = vls.len();
    let end = if end_vl <= n - 1 {
        end_vl
    } else {
        n - 1
    };
    if n == 0 || start_vl > end {
        Seq::empty()
    } else {
        match range_union(vls.subrange(start_vl, end + 1)) {
            None => Seq::empty(),
            Some((lo, hi)) => lines_text(md, lo, hi),
        }
    }
}

fn lines_text_exec(lines: &Vec<Vec<char>>, lo: usize, hi: usize) -> (r: Vec<char>)
    ensures
        views(lines@).len() == lines@.len(),
        r@ == ({
            let ls = views(lines@);
            let si = if lo >= 1 {
                lo - 1
            } else {
                0
            };
            let ei = if hi <= ls.len() {
                hi as int
            } else {
                ls.len() as int
            };
            if si >= ls.len() || si >= ei {
                Seq::empty()
            } else {
                join_lines(ls.subrange(si, ei))
            }
        }),
{
    let si = if lo >= 1 {
        lo - 1
    } else {
        0
    };
    let ei = if hi <= lines.len() {
        hi
    } else {
        lines.len()
    };
    if si >= lines.len() || si >= ei {
        Vec::new()
    } else {
        join_range(lines, si, ei)
    }
}

/// Extract the Markdown source lines that visual lines `start_vl..=end_vl` map to.
pub fn yank_lines(md_source: &str, visual_lines: &Vec<VisualLine>, start_vl: usize, end_vl: usize) -> (r:
    String)
    ensures
        r@ == yank_spec(md_source@, visual_lines@, start_vl as int, end_vl as int),
{
    let n = visual_lines.len();
    if n == 0 {
        return string_of(&Vec::new());
    }
    let end = if end_vl <= n - 1 {
        end_vl
    } else {
        n - 1
    };
    if start_vl > end {
        return string_of(&Vec::new());
    }
    let mut lo: usize = 0;
    let mut hi: usize = 0;
    let mut found = false;
    let mut i: usize = start_vl;
    while i <= end
        invariant
            start_vl <= i <= end + 1,
            end < n == visual_lines@.len(),
            found == range_union(visual_lines@.subrange(start_vl as int, i as int)) is Some,
            found ==> range_union(visual_lines@.subrange(start_vl as int, i as int)) == Some(
                (lo, hi),
            ),
        decreases end + 1 - i,
    {
        assert(visual_lines@.subrange(start_vl as int, i as int + 1).drop_last()
            =~= visual_lines@.subrange(start_vl as int, i as int));
        match visual_lines[i].md_line_range {
            Some((s, e)) => {
                if !found {
                    lo = s;
                    hi = e;
                    found = true;
                } else {
                    if s < lo {
                        lo = s;
                    }
                    if e > hi {
                        hi = e;
                    }
                }
            },
            None => {},
        }
        i = i + 1;
    }
    if !found {
        return string_of(&Vec::new());
    }
    let lines = split_lines(&crate::events::chars_of(md_source));
    string_of(&lines_text_exec(&lines, lo, hi))
}

/// The text a precise yank of visual line `idx` copies: the exact line for
/// code-block lines, else the whole block.
pub open spec fn yank_exact_spec(md: Seq<char>, vls: Seq<VisualLine>, idx: int) -> Seq<char> {
    if idx >= vls.len() {
        Seq::empty()
    } else {
        match vls[idx].md_line_exact {
            Some(k) => {
                let ls = md_lines(md);
                if 1 <= k && k - 1 < ls.len() {
                    ls[k - 1]
                } else {
                    Seq::empty()
                }
            },
            None => yank_spec(md, vls, idx, idx),
        }
    }
}

/// Extract the precise Markdown source line for a visual line.
pub fn yank_exact(md_source: &str, visual_lines: &Vec<VisualLine>, vl_idx: usize) -> (r: String)
    ensures
        r@ == yank_exact_spec(md_source@, visual_lines@, vl_idx as int),
{
    if vl_idx >= visual_lines.len() {
        return string_of(&Vec::new());
    }
    match visual_lines[vl_idx].md_line_exact {
        Some(k) => {
            let lines = split_lines(&crate::events::chars_of(md_source));
            if 1 <= k && k - 1 < lines.len() {
                string_of(&lines[k - 1])
            } else {
                string_of(&Vec::new())
            }
        },
        None => yank_lines(md_source, visual_lines, vl_idx, vl_idx),
    }
}


/// Markdown line information of one visual line.
#[derive(Clone, Copy, Debug)]
pub struct MdLineInfo {
    /// 1-based inclusive line range of the enclosing block.
    pub range: (usize, usize),
    /// Precise 1-based line, for code blocks.
    pub exact: Option<usize>,
}

/// Every block's output range is well formed.
pub open spec fn starts_le_ends(blocks: Seq<BlockMapping>) -> bool {
    forall|i: int|
        0 <= i < blocks.len() ==> (#[trigger] blocks[i]).typst_byte_range.start
            <= blocks[i].typst_byte_range.end
}

/// The block covering output offset `off`, if any.
pub open spec fn covering(blocks: Seq<BlockMapping>, off: int) -> Option<BlockMapping> {
    if exists|i: int| 0 <= i < blocks.len() && covers(#[trigger] blocks[i], off) {
        let i = choose|i: int| 0 <= i < blocks.len() && covers(#[trigger] blocks[i], off);
        Some(blocks[i])
    } else {
        None
    }
}

proof fn lemma_cover_unique(blocks: Seq<BlockMapping>, off: int, i: int, j: int)
    requires
        map_ordered(blocks),
        starts_le_ends(blocks),
        0 <= i < blocks.len(),
        0 <= j < blocks.len(),
        covers(blocks[i], off),
        covers(blocks[j], off),
    ensures
        i == j,
    decreases if i < j { j - i } else { i - j },
{
    if i < j {
        lemma_start_after(blocks, i, j);
    } else if j < i {
        lemma_start_after(blocks, j, i);
    }
}

proof fn lemma_start_after(blocks: Seq<BlockMapping>, i: int, j: int)
    requires
        map_ordered(blocks),
        starts_le_ends(blocks),
        0 <= i < j < blocks.len(),
    ensures
        blocks[i].typst_byte_range.end <= blocks[j].typst_byte_range.start,
    decreases j - i,
{
    if i + 1 < j {
        lemma_start_after(blocks, i + 1, j);
    }
    assert(blocks[i].typst_byte_range.end <= blocks[i + 1].typst_byte_range.start);
}

/// The Markdown block's text begins with a code fence.
pub open spec fn starts_with_fence(md: Seq<u8>, b: BlockMapping) -> bool {
    let s = b.md_byte_range.start as int;
    &&& s + 3 <= b.md_byte_range.end
    &&& b.md_byte_range.end <= md.len()
    &&& md[s] == 96u8
    &&& md[s + 1] == 96u8
    &&& md[s + 2] == 96u8
}

/// Line numbers clamped to what a `usize` holds.
pub open spec fn line_num(bytes: Seq<u8>, off: int) -> usize {
    if line_of(bytes, off) <= usize::MAX {
        line_of(bytes, off) as usize
    } else {
        usize::MAX
    }
}

/// The 1-based line inside a code block: one past the fence line plus the
/// newlines before the offset, kept between the fence lines.
pub open spec fn exact_line(start_line: int, end_line: int, newlines: int) -> int {
    let cand = start_line + 1 + newlines;
    let top = if end_line >= 1 {
        end_line - 1
    } else {
        0
    };
    let c = if cand <= top {
        cand
    } else {
        top
    };
    if c >= start_line + 1 {
        c
    } else {
        start_line + 1
    }
}

/// Where a text position of the typeset main source lands in the Markdown:
/// `main_start` is its byte offset in the main source, whose content part
/// begins at `content_offset`.
pub open spec fn resolve_spec(
    main_start: usize,
    content_offset: usize,
    blocks: Seq<BlockMapping>,
    md: Seq<u8>,
    main: Seq<u8>,
) -> Option<MdLineInfo> {
    if main_start < content_offset {
        None
    } else {
        let off = main_start - content_offset;
        match covering(blocks, off) {
            None => None,
            Some(b) => {
                let start_line = line_num(md, b.md_byte_range.start as int);
                let last = if b.md_byte_range.end >= 1 && b.md_byte_range.end - 1
                    >= b.md_byte_range.start {
                    b.md_byte_range.end - 1
                } else {
                    b.md_byte_range.start as int
                };
                let end_line = line_num(md, last);
                let a = b.typst_byte_range.start + content_offset;
                let z = b.typst_byte_range.end + content_offset;
                let exact = if starts_with_fence(md, b) && z <= usize::MAX && a <= z && z
                    <= main.len() && is_char_boundary(main, a) && is_char_boundary(main, z) {
                    let local = off - b.typst_byte_range.start;
                    let clamped = if local <= z - a {
                        local
                    } else {
                        z - a
                    };
                    Some(
                        exact_line(
                            start_line as int,
                            end_line as int,
                            count_nl(main.subrange(a, a + clamped)) as int,
                        ) as usize,
                    )
                } else {
                    None
                };
                Some(MdLineInfo { range: (start_line, end_line), exact })
            },
        }
    }
}

/// Number of newline bytes in `bytes[from..to]`.
fn count_newlines(bytes: &[u8], from: usize, to: usize) -> (r: usize)
    requires
        from <= to <= bytes@.len(),
    ensures
        r == count_nl(bytes@.subrange(from as int, to as int)),
{
    let mut nl: usize = 0;
    let mut i: usize = from;
    while i < to
        invariant
            from <= i <= to <= bytes@.len(),
            nl == count_nl(bytes@.subrange(from as int, i as int)),
            nl <= i - from,
        decreases to - i,
    {
        assert(bytes@.subrange(from as int, i as int + 1).drop_last() =~= bytes@.subrange(
            from as int,
            i as int,
        ));
        if bytes[i] == 10u8 {
            nl = nl + 1;
        }
        i = i + 1;
    }
    nl
}

fn exact_line_exec(start_line: usize, end_line: usize, nl: usize) -> (r: usize)
    ensures
        r == exact_line(start_line as int, end_line as int, nl as int) as usize,
{
    let s = start_line as u128;
    let e = end_line as u128;
    let cand = s + 1 + nl as u128;
    let top = if e >= 1 {
        e - 1
    } else {
        0
    };
    let c = if cand <= top {
        cand
    } else {
        top
    };
    let x = if c >= s + 1 {
        c
    } else {
        s + 1
    };
    x as usize
}

/// Resolve a position of the typeset main source to Markdown lines: skip
/// positions in the theme prefix, look the content offset up in the source
/// map, convert the block's byte range to lines, and for code blocks find the
/// exact line by counting newlines in the block's typeset text.
pub fn resolve_md_line_range(
    main_start: usize,
    content_offset: usize,
    source_map: &SourceMap,
    md_source: &str,
    main_text: &str,
) -> (r: Option<MdLineInfo>)
    requires
        map_ordered(source_map.blocks@),
        starts_le_ends(source_map.blocks@),
    ensures
        r == resolve_spec(
            main_start,
            content_offset,
            source_map.blocks@,
            md_source.spec_bytes(),
            main_text.spec_bytes(),
        ),
{
    if main_start < content_offset {
        return None;
    }
    let off = main_start - content_offset;
    let found = source_map.find_by_typst_offset(off);
    let b = match found {
        None => {
            return None;
        },
        Some(b) => b,
    };
    proof {
        let blocks = source_map.blocks@;
        let k = choose|k: int| 0 <= k < blocks.len() && blocks[k] == *b && covers(#[trigger] blocks[k], off as int);
        let i = choose|i: int| 0 <= i < blocks.len() && covers(#[trigger] blocks[i], off as int);
        lemma_cover_unique(blocks, off as int, i, k);
    }
    let md_start = b.md_byte_range.start;
    let md_end = b.md_byte_range.end;
    let start_line = byte_offset_to_line(md_source, md_start);
    let last = if md_end >= 1 && md_end - 1 >= md_start {
        md_end - 1
    } else {
        md_start
    };
    let end_line = byte_offset_to_line(md_source, last);
    let md = md_source.as_bytes();
    let fence = md_end >= 3 && md_start <= md_end - 3 && md_end <= md.len() && md[md_start] == 96u8
        && md[md_start + 1] == 96u8 && md[md_start + 2] == 96u8;
    let ts = b.typst_byte_range.start;
    let te = b.typst_byte_range.end;
    let main = main_text.as_bytes();
    let mut exact: Option<usize> = None;
    if fence && te <= usize::MAX - content_offset {
        let a = ts + content_offset;
        let z = te + content_offset;
        if a <= z && z <= main.len() && main_text.is_char_boundary(a) && main_text.is_char_boundary(
            z,
        ) {
            let local = off - ts;
            let clamped = if local <= z - a {
                local
            } else {
                z - a
            };
            let nl = count_newlines(main, a, a + clamped);
            exact = Some(exact_line_exec(start_line, end_line, nl));
        }
    }
    Some(MdLineInfo { range: (start_line, end_line), exact })
}


/// A block yank of a visual line whose lines were resolved through the
/// source map copies exactly the Markdown lines spanned by the source range
/// of the block that covers it.
pub proof fn lemma_yank_roundtrip(
    md: Seq<char>,
    md_bytes: Seq<u8>,
    vls: Seq<VisualLine>,
    i: int,
    main_start: usize,
    content_offset: usize,
    blocks: Seq<BlockMapping>,
    main: Seq<u8>,
)
    requires
        0 <= i < vls.len(),
        resolve_spec(main_start, content_offset, blocks, md_bytes, main) matches Some(info)
            && vls[i].md_line_range == Some(info.range),
    ensures
        ({
            let b = covering(blocks, main_start - content_offset)->0;
            let last = if b.md_byte_range.end >= 1 && b.md_byte_range.end - 1
                >= b.md_byte_range.start {
                b.md_byte_range.end - 1
            } else {
                b.md_byte_range.start as int
            };
            yank_spec(md, vls, i, i) == lines_text(
                md,
                line_num(md_bytes, b.md_byte_range.start as int),
                line_num(md_bytes, last),
            )
        }),
{
    let one = vls.subrange(i, i + 1);
    assert(one.drop_last() =~= Seq::<VisualLine>::empty());
    assert(one.last() == vls[i]);
    let info = resolve_spec(main_start, content_offset, blocks, md_bytes, main)->0;
    assert(range_union(one.drop_last()) is None);
    assert(range_union(one) == Some(info.range));
    assert(main_start >= content_offset);
}

} // verus!
