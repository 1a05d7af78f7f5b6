//! URLs in Markdown: link destinations and bare `http(s)://` URLs in text.

use regex::{Regex, RegexBuilder};
use vstd::prelude::*;

use crate::events::{
    event_views, markdown_events, parse_events, string_of, EventV, MdEvent, MdTag, MdTagEnd,
    SrcEventV, TagV,
};
use crate::source::{join_lines, join_range, md_lines, split_lines, views};
use crate::tile::VisualLine;
use vstd::string::StringSliceAdditionalSpecFns;
use vstd::utf8::{decode_utf8, encode_utf8, is_char_boundary};

verus! {

broadcast use vstd::utf8::group_utf8_lib;

/// regex's compiled expression, held opaquely.
#[verifier::external_type_specification]
#[verifier::external_body]
pub struct ExRegex(Regex);

/// Whether regex accepts `pattern` (with case folding when `caseless`).
pub uninterp spec fn regex_compiles(pattern: Seq<char>, caseless: bool) -> bool;

/// The successive non-overlapping leftmost-first matches of `pattern` in
/// `text`, as byte spans.
pub uninterp spec fn regex_matches(pattern: Seq<char>, caseless: bool, text: Seq<char>) -> Seq<
    (usize, usize),
>;

/// A compiled regular expression with the pattern it was built from.
pub struct Pattern {
    re: Regex,
    source: String,
    caseless: bool,
}

impl Pattern {
    pub closed spec fn source(&self) -> Seq<char> {
        self.source@
    }

    pub closed spec fn caseless(&self) -> bool {
        self.caseless
    }

    /// Relies on regex::RegexBuilder::new(..).case_insensitive(..).build():
    /// it succeeds exactly for the patterns regex accepts.
    #[verifier::external_body]
    pub fn new(pattern: &str, caseless: bool) -> (r: Option<Pattern>)
        ensures
            r is Some == regex_compiles(pattern@, caseless),
            r matches Some(p) ==> p.source() == pattern@ && p.caseless() == caseless,
    {
        let re = RegexBuilder::new(pattern).case_insensitive(caseless).build().ok()?;
        Some(Pattern { re, source: pattern.to_string(), caseless })
    }

    /// Relies on regex::Regex::find_iter: successive non-overlapping matches,
    /// in order, each a byte span on character boundaries of `text`.
    #[verifier::external_body]
    pub fn find_all(&self, text: &str) -> (r: Vec<(usize, usize)>)
        ensures
            r@ == regex_matches(self.source(), self.caseless(), text@),
            forall|i: int|
                0 <= i < r@.len() ==> {
                    &&& (#[trigger] r@[i]).0 <= r@[i].1 <= text.spec_bytes().len()
                    &&& is_char_boundary(text.spec_bytes(), r@[i].0 as int)
                    &&& is_char_boundary(text.spec_bytes(), r@[i].1 as int)
                },
    {
        self.re.find_iter(text).map(|m| (m.start(), m.end())).collect()
    }
}

/// The text between byte offsets `start` and `end`, or `None` unless both
/// lie on character boundaries in order.
pub(crate) fn slice_str(text: &str, start: usize, end: usize) -> (r: Option<String>)
    ensures
        r is Some <==> (start <= end <= text.spec_bytes().len() && is_char_boundary(
            text.spec_bytes(),
            start as int,
        ) && is_char_boundary(text.spec_bytes(), end as int)),
        r matches Some(s) ==> encode_utf8(s@) == text.spec_bytes().subrange(
            start as int,
            end as int,
        ),
{
    let ghost bytes = text.spec_bytes();
    let n = text.as_bytes().len();
    if !(start <= end && end <= n) {
        return None;
    }
    if !(text.is_char_boundary(start) && text.is_char_boundary(end)) {
        return None;
    }
    let (_, rest) = text.split_at(start);
    let k = end - start;
    proof {
        let rb = rest.spec_bytes();
        assert(rb =~= bytes.subrange(start as int, bytes.len() as int));
        vstd::utf8::encode_utf8_valid_utf8(rest@);
        vstd::utf8::encode_utf8_valid_utf8(text@);
        if k < rb.len() {
            vstd::utf8::is_char_boundary_iff_not_is_continuation_byte(rb, k as int);
            vstd::utf8::is_char_boundary_iff_not_is_continuation_byte(bytes, end as int);
            assert(rb[k as int] == bytes[end as int]);
        } else {
            vstd::utf8::is_char_boundary_start_end_of_seq(rb);
        }
    }
    let (piece, _) = rest.split_at(k);
    proof {
        assert(piece.spec_bytes() =~= bytes.subrange(start as int, end as int));
    }
    Some(piece.to_owned())
}

/// `http://` or `https://` followed by non-space, non-bracket characters,
/// not ending in sentence punctuation.
pub const BARE_URL_PATTERN: &'static str = r#"https?://[^\s<>\)\]\}]+[^\s<>\)\]\}.,:;!?\-'"]"#;

/// The text of each span of `text`.
pub open spec fn span_texts(text: Seq<char>, spans: Seq<(usize, usize)>) -> Seq<Seq<char>> {
    spans.map_values(|sp: (usize, usize)| decode_utf8(encode_utf8(text).subrange(sp.0 as int, sp.1 as int)))
}

/// The bare URLs of a text, in order.
pub open spec fn bare_urls(text: Seq<char>) -> Seq<Seq<char>> {
    if regex_compiles(BARE_URL_PATTERN@, false) {
        span_texts(text, regex_matches(BARE_URL_PATTERN@, false, text))
    } else {
        Seq::empty()
    }
}

pub open spec fn string_views(v: Seq<String>) -> Seq<Seq<char>> {
    v.map_values(|s: String| s@)
}

/// Extract bare URLs from plain text.
pub fn extract_bare_urls(text: &str) -> (r: Vec<String>)
    ensures
        string_views(r@) == bare_urls(text@),
{
    let p = match Pattern::new(BARE_URL_PATTERN, false) {
        Some(p) => p,
        None => {
            assert(string_views(Seq::<String>::empty()) =~= Seq::<Seq<char>>::empty());
            return Vec::new();
        },
    };
    let spans = p.find_all(text);
    let ghost want = span_texts(text@, spans@);
    let mut r: Vec<String> = Vec::new();
    let mut i: usize = 0;
    while i < spans.len()
        invariant
            i <= spans@.len(),
            want == span_texts(text@, spans@),
            string_views(r@) == want.take(i as int),
            forall|k: int|
                0 <= k < spans@.len() ==> {
                    &&& (#[trigger] spans@[k]).0 <= spans@[k].1 <= text.spec_bytes().len()
                    &&& is_char_boundary(text.spec_bytes(), spans@[k].0 as int)
                    &&& is_char_boundary(text.spec_bytes(), spans@[k].1 as int)
                },
        decreases spans@.len() - i,
    {
        let (s, e) = spans[i];
        let piece = slice_str(text, s, e);
        match piece {
            Some(u) => {
                proof {
                    vstd::utf8::encode_utf8_decode_utf8(u@);
                }
                let ghost before = r@;
                r.push(u);
                assert(string_views(r@) =~= string_views(before).push(u@));
                assert(want.take(i as int + 1) =~= want.take(i as int).push(want[i as int]));
            },
            None => {},
        }
        i = i + 1;
    }
    assert(want.take(i as int) =~= want);
    r
}

/// A URL extracted from Markdown source, with its link text.
pub struct UrlEntry {
    pub url: String,
    pub text: String,
}

/// Link scan state: inside a link or not, the open link's destination and
/// text, the links found, and the plain text runs outside links.
pub struct LinkScan {
    pub in_link: bool,
    pub url: Seq<char>,
    pub text: Seq<char>,
    pub links: Seq<(Seq<char>, Seq<char>)>,
    pub plain: Seq<Seq<char>>,
}

pub open spec fn scan_step(s: LinkScan, e: SrcEventV) -> LinkScan {
    match e.event {
        EventV::Start(TagV::Link(u)) => LinkScan { in_link: true, url: u, text: Seq::empty(), ..s },
        EventV::End(MdTagEnd::Link) => LinkScan {
            in_link: false,
            links: if s.in_link && s.url.len() > 0 {
                s.links.push((s.url, s.text))
            } else {
                s.links
            },
            ..s
        },
        EventV::Text(t) => if s.in_link {
            LinkScan { text: s.text + t, ..s }
        } else {
            LinkScan { plain: s.plain.push(t), ..s }
        },
        EventV::Code(c) => if s.in_link {
            LinkScan { text: s.text + c, ..s }
        } else {
            s
        },
        _ => s,
    }
}

pub open spec fn scan(events: Seq<SrcEventV>) -> LinkScan
    decreases events.len(),
{
    if events.len() == 0 {
        LinkScan {
            in_link: false,
            url: Seq::empty(),
            text: Seq::empty(),
            links: Seq::empty(),
            plain: Seq::empty(),
        }
    } else {
        scan_step(scan(events.drop_last()), events.last())
    }
}

pub open spec fn has_url(found: Seq<(Seq<char>, Seq<char>)>, u: Seq<char>) -> bool {
    exists|i: int| 0 <= i < found.len() && (#[trigger] found[i]).0 == u
}

/// Adds each URL not yet found, as its own link text.
pub open spec fn add_bare(found: Seq<(Seq<char>, Seq<char>)>, urls: Seq<Seq<char>>) -> Seq<
    (Seq<char>, Seq<char>),
>
    decreases urls.len(),
{
    if urls.len() == 0 {
        found
    } else {
        let f = add_bare(found, urls.drop_last());
        if has_url(f, urls.last()) {
            f
        } else {
            f.push((urls.last(), urls.last()))
        }
    }
}

/// Bare URLs of each plain run, in order, after the links.
pub open spec fn add_all_bare(found: Seq<(Seq<char>, Seq<char>)>, plain: Seq<Seq<char>>) -> Seq<
    (Seq<char>, Seq<char>),
>
    decreases plain.len(),
{
    if plain.len() == 0 {
        found
    } else {
        add_bare(add_all_bare(found, plain.drop_last()), bare_urls(plain.last()))
    }
}

/// The URLs of a Markdown fragment: links with their text, then bare URLs of
/// the text outside links, each URL once.
pub open spec fn urls_of(block: Seq<char>) -> Seq<(Seq<char>, Seq<char>)> {
    let s = scan(markdown_events(block, false));
    add_all_bare(s.links, s.plain)
}

pub open spec fn entry_views(v: Seq<UrlEntry>) -> Seq<(Seq<char>, Seq<char>)> {
    v.map_values(|e: UrlEntry| (e.url@, e.text@))
}

/// Markdown lines `start..=end` (1-based, clipped) joined with `\n`; empty
/// when `start` is past the last line.
pub open spec fn block_of_lines(md: Seq<char>, start: usize, end: usize) -> Seq<char> {
    let ls = md_lines(md);
    let si = if start >= 1 {
        start - 1
    } else {
        0
    };
    let ei = if end <= ls.len() {
        end as int
    } else {
        ls.len() as int
    };
    if si >= ei {
        Seq::empty()
    } else {
        join_lines(ls.subrange(si as int, ei))
    }
}

fn push_chars(dst: &mut Vec<char>, src: &Vec<char>)
    ensures
        final(dst)@ == old(dst)@ + src@,
{
    let mut i: usize = 0;
    while i < src.len()
        invariant
            i <= src@.len(),
            dst@ == old(dst)@ + src@.take(i as int),
        decreases src@.len() - i,
    {
        dst.push(src[i]);
        i = i + 1;
        assert(dst@ =~= old(dst)@ + src@.take(i as int));
    }
    assert(src@.take(i as int) =~= src@);
}

fn copy_chars(src: &Vec<char>) -> (r: Vec<char>)
    ensures
        r@ == src@,
{
    let mut r: Vec<char> = Vec::new();
    push_chars(&mut r, src);
    r
}

fn contains_url(found: &Vec<UrlEntry>, u: &String) -> (r: bool)
    ensures
        r == has_url(entry_views(found@), u@),
{
    let mut i: usize = 0;
    while i < found.len()
        invariant
            i <= found@.len(),
            forall|k: int| 0 <= k < i ==> (#[trigger] found@[k]).url@ != u@,
        decreases found@.len() - i,
    {
        if found[i].url == *u {
            assert(entry_views(found@)[i as int].0 == u@);
            return true;
        }
        i = i + 1;
    }
    proof {
        if has_url(entry_views(found@), u@) {
            let k = choose|k: int| 0 <= k < entry_views(found@).len() && (#[trigger] entry_views(found@)[k]).0 == u@;
            assert(found@[k].url@ == u@);
        }
    }
    false
}

/// Extract URLs from a range of Markdown source lines (1-based, inclusive):
/// link destinations with their text, then bare URLs found in the text
/// outside links, skipping URLs already found.
pub fn extract_urls_from_lines(md_source: &str, start: usize, end: usize) -> (r: Vec<UrlEntry>)
    ensures
        entry_views(r@) == (if (if start >= 1 {
            start - 1
        } else {
            0
        }) >= md_lines(md_source@).len() {
            Seq::empty()
        } else {
            urls_of(block_of_lines(md_source@, start, end))
        }),
{
    let lines = split_lines(&crate::events::chars_of(md_source));
    let si = if start >= 1 {
        start - 1
    } else {
        0
    };
    if si >= lines.len() {
        assert(entry_views(Seq::<UrlEntry>::empty()) =~= Seq::empty());
        return Vec::new();
    }
    let ei = if end <= lines.len() {
        end
    } else {
        lines.len()
    };
    let block: Vec<char> = if si >= ei {
        Vec::new()
    } else {
        join_range(&lines, si, ei)
    };
    let block_text = string_of(&block);
    let events = parse_events(block_text.as_str(), false);
    let mut in_link = false;
    let mut url: Vec<char> = Vec::new();
    let mut text: Vec<char> = Vec::new();
    let mut found: Vec<UrlEntry> = Vec::new();
    let mut plain: Vec<Vec<char>> = Vec::new();
    let mut i: usize = 0;
    while i < events.len()
        invariant
            i <= events@.len(),
            event_views(events@) == markdown_events(block@, false),
            ({
                let s = scan(event_views(events@).take(i as int));
                &&& s.in_link == in_link
                &&& s.url == url@
                &&& s.text == text@
                &&& s.links == entry_views(found@)
                &&& s.plain == views(plain@)
            }),
        decreases events@.len() - i,
    {
        assert(event_views(events@).take(i as int + 1).drop_last() =~= event_views(events@).take(
            i as int,
        ));
        match &events[i].event {
            MdEvent::Start(MdTag::Link(u)) => {
                in_link = true;
                url = copy_chars(u);
                text = Vec::new();
            },
            MdEvent::End(MdTagEnd::Link) => {
                if in_link && url.len() > 0 {
                    let ghost before = found@;
                    let e = UrlEntry { url: string_of(&url), text: string_of(&text) };
                    found.push(e);
                    assert(entry_views(found@) =~= entry_views(before).push((url@, text@)));
                }
                in_link = false;
            },
            MdEvent::Text(t) => {
                if in_link {
                    push_chars(&mut text, t);
                } else {
                    let ghost before = plain@;
                    plain.push(copy_chars(t));
                    assert(views(plain@) =~= views(before).push(t@));
                }
            },
            MdEvent::Code(c) => {
                if in_link {
                    push_chars(&mut text, c);
                }
            },
            _ => {},
        }
        i = i + 1;
    }
    assert(event_views(events@).take(i as int) =~= event_views(events@));
    let mut j: usize = 0;
    let ghost links = entry_views(found@);
    while j < plain.len()
        invariant
            j <= plain@.len(),
            entry_views(found@) == add_all_bare(links, views(plain@).take(j as int)),
        decreases plain@.len() - j,
    {
        assert(views(plain@).take(j as int + 1).drop_last() =~= views(plain@).take(j as int));
        let ghost f0 = entry_views(found@);
        let run = string_of(&plain[j]);
        let bare = extract_bare_urls(run.as_str());
        let mut k: usize = 0;
        while k < bare.len()
            invariant
                k <= bare@.len(),
                entry_views(found@) == add_bare(f0, string_views(bare@).take(k as int)),
            decreases bare@.len() - k,
        {
            assert(string_views(bare@).take(k as int + 1).drop_last() =~= string_views(
                bare@,
            ).take(k as int));
            let u = &bare[k];
            if !contains_url(&found, u) {
                let ghost before = found@;
                let e = UrlEntry { url: u.clone(), text: u.clone() };
                found.push(e);
                assert(entry_views(found@) =~= entry_views(before).push((u@, u@)));
            }
            k = k + 1;
        }
        assert(string_views(bare@).take(k as int) =~= string_views(bare@));
        j = j + 1;
    }
    assert(views(plain@).take(j as int) =~= views(plain@));
    found
}


/// URLs on the Markdown lines that visual line `vl_idx` maps to; none when
/// the index is out of range or the line has no source mapping.
pub fn extract_urls(md_source: &str, visual_lines: &Vec<VisualLine>, vl_idx: usize) -> (r: Vec<
    UrlEntry,
>)
    ensures
        (vl_idx >= visual_lines@.len() || visual_lines@[vl_idx as int].md_line_range is None) ==> r@.len()
            == 0,
        vl_idx < visual_lines@.len() ==> (visual_lines@[vl_idx as int].md_line_range matches Some(
            (s, e),
        ) ==> entry_views(r@) == (if (if s >= 1 {
            s - 1
        } else {
            0
        }) >= md_lines(md_source@).len() {
            Seq::empty()
        } else {
            urls_of(block_of_lines(md_source@, s, e))
        })),
{
    if vl_idx >= visual_lines.len() {
        return Vec::new();
    }
    match visual_lines[vl_idx].md_line_range {
        None => Vec::new(),
        Some((s, e)) => extract_urls_from_lines(md_source, s, e),
    }
}

} // verus!
