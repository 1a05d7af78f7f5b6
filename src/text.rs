//! Character-level helpers shared by the converter and the viewer:
//! UTF-8 byte accounting, Typst escaping, backtick runs, blank-line filling.

use vstd::prelude::*;
use vstd::utf8::*;

verus! {

broadcast use vstd::utf8::group_utf8_lib;

/// Number of bytes in the UTF-8 encoding of `s`.
pub open spec fn blen(s: Seq<char>) -> nat {
    encode_utf8(s).len()
}

/// Number of bytes in the UTF-8 encoding of one character.
pub open spec fn cwidth(c: char) -> nat {
    encode_scalar(c as u32).len()
}

pub proof fn lemma_encode_push(s: Seq<char>, c: char)
    ensures
        encode_utf8(s.push(c)) == encode_utf8(s) + encode_scalar(c as u32),
        blen(s.push(c)) == blen(s) + cwidth(c),
    decreases s.len(),
{
    if s.len() == 0 {
        assert(s.push(c).drop_first() =~= Seq::<char>::empty());
        assert(encode_utf8(s.push(c).drop_first()) =~= Seq::<u8>::empty());
        assert(s.push(c)[0] == c);
        assert(encode_utf8(s.push(c)) =~= encode_utf8(s) + encode_scalar(c as u32));
    } else {
        lemma_encode_push(s.drop_first(), c);
        assert(s.push(c).drop_first() =~= s.drop_first().push(c));
        assert(encode_utf8(s.push(c)) =~= encode_utf8(s) + encode_scalar(c as u32));
    }
}

pub proof fn lemma_blen_drop_last(s: Seq<char>)
    requires
        s.len() > 0,
    ensures
        blen(s) == blen(s.drop_last()) + cwidth(s.last()),
{
    lemma_encode_push(s.drop_last(), s.last());
    assert(s.drop_last().push(s.last()) =~= s);
}

/// Byte width of a character's UTF-8 encoding.
pub fn char_width(c: char) -> (r: usize)
    ensures
        r == cwidth(c),
        1 <= r <= 4,
{
    let u = c as u32;
    proof {
        char_is_scalar(c);
    }
    if u <= 0x7F {
        1
    } else if u <= 0x7FF {
        2
    } else if u <= 0xFFFF {
        3
    } else {
        4
    }
}

/// Appends the UTF-8 encoding of `c` to `bytes`.
pub fn push_utf8(bytes: &mut Vec<u8>, c: char)
    ensures
        final(bytes)@ == old(bytes)@ + encode_scalar(c as u32),
{
    let u = c as u32;
    proof {
        char_is_scalar(c);
    }
    if u <= 0x7F {
        bytes.push((u & 0x7F) as u8);
    } else if u <= 0x7FF {
        bytes.push(0xC0 | ((u >> 6) & 0x1F) as u8);
        bytes.push(0x80 | (u & 0x3F) as u8);
    } else if u <= 0xFFFF {
        bytes.push(0xE0 | ((u >> 12) & 0x0F) as u8);
        bytes.push(0x80 | ((u >> 6) & 0x3F) as u8);
        bytes.push(0x80 | (u & 0x3F) as u8);
    } else {
        bytes.push(0xF0 | ((u >> 18) & 0x7) as u8);
        bytes.push(0x80 | ((u >> 12) & 0x3F) as u8);
        bytes.push(0x80 | ((u >> 6) & 0x3F) as u8);
        bytes.push(0x80 | (u & 0x3F) as u8);
    }
    assert(final(bytes)@ =~= old(bytes)@ + encode_scalar(c as u32));
}

/// Characters that have a meaning of their own in Typst markup.
pub open spec fn is_typst_special(c: char) -> bool {
    c == '#' || c == '*' || c == '_' || c == '`' || c == '<' || c == '>' || c == '@' || c == '$'
        || c == '\\' || c == '/' || c == '~' || c == '(' || c == ')' || c == '[' || c == ']'
}

/// `s` with a backslash before every Typst-special character.
pub open spec fn escape_spec(s: Seq<char>) -> Seq<char>
    decreases s.len(),
{
    if s.len() == 0 {
        Seq::empty()
    } else if is_typst_special(s.last()) {
        escape_spec(s.drop_last()) + seq!['\\', s.last()]
    } else {
        escape_spec(s.drop_last()).push(s.last())
    }
}

/// Escape characters that have special meaning in Typst markup.
pub fn escape_chars(text: &Vec<char>) -> (r: Vec<char>)
    ensures
        r@ == escape_spec(text@),
{
    let mut r: Vec<char> = Vec::new();
    let mut i: usize = 0;
    while i < text.len()
        invariant
            i <= text.len(),
            r@ == escape_spec(text@.take(i as int)),
        decreases text.len() - i,
    {
        let c = text[i];
        assert(text@.take(i as int + 1).drop_last() =~= text@.take(i as int));
        if c == '#' || c == '*' || c == '_' || c == '`' || c == '<' || c == '>' || c == '@' || c
            == '$' || c == '\\' || c == '/' || c == '~' || c == '(' || c == ')' || c == '[' || c
            == ']' {
            r.push('\\');
        }
        r.push(c);
        i = i + 1;
        assert(r@ =~= escape_spec(text@.take(i as int)));
    }
    assert(text@.take(i as int) =~= text@);
    r
}

/// Length of the run of backticks at the end of `s`.
pub open spec fn trailing_ticks(s: Seq<char>) -> nat
    decreases s.len(),
{
    if s.len() == 0 || s.last() != '`' {
        0
    } else {
        trailing_ticks(s.drop_last()) + 1
    }
}

/// Length of the longest run of consecutive backticks in `s`.
pub open spec fn max_run_spec(s: Seq<char>) -> nat
    decreases s.len(),
{
    if s.len() == 0 {
        0
    } else {
        let m = max_run_spec(s.drop_last());
        let t = trailing_ticks(s);
        if t > m {
            t
        } else {
            m
        }
    }
}

proof fn lemma_run_bounds(s: Seq<char>)
    ensures
        trailing_ticks(s) <= max_run_spec(s) <= s.len(),
    decreases s.len(),
{
    if s.len() > 0 {
        lemma_run_bounds(s.drop_last());
    }
}

/// Find the longest consecutive run of backticks in a string.
pub fn backtick_run(s: &Vec<char>) -> (r: usize)
    ensures
        r == max_run_spec(s@),
{
    let mut max: usize = 0;
    let mut current: usize = 0;
    let mut i: usize = 0;
    while i < s.len()
        invariant
            i <= s.len(),
            max == max_run_spec(s@.take(i as int)),
            current == trailing_ticks(s@.take(i as int)),
        decreases s.len() - i,
    {
        proof {
            lemma_run_bounds(s@.take(i as int));
        }
        assert(s@.take(i as int + 1).drop_last() =~= s@.take(i as int));
        if s[i] == '`' {
            current = current + 1;
            if current > max {
                max = current;
            }
        } else {
            current = 0;
        }
        i = i + 1;
    }
    assert(s@.take(i as int) =~= s@);
    max
}

/// Blank lines (all but a last empty one) become a single space.
pub open spec fn fill_spec(s: Seq<char>) -> Seq<char>
    decreases s.len(),
{
    if s.len() == 0 {
        Seq::empty()
    } else if s.last() == '\n' && (s.len() == 1 || s[s.len() - 2] == '\n') {
        fill_spec(s.drop_last()) + seq![' ', '\n']
    } else {
        fill_spec(s.drop_last()).push(s.last())
    }
}

/// Replace blank lines with space-only lines in code block text, so that the
/// typesetter produces a text item for every line.
pub fn fill_blank_chars(text: &Vec<char>) -> (r: Vec<char>)
    ensures
        r@ == fill_spec(text@),
{
    let mut r: Vec<char> = Vec::new();
    let mut i: usize = 0;
    while i < text.len()
        invariant
            i <= text.len(),
            r@ == fill_spec(text@.take(i as int)),
        decreases text.len() - i,
    {
        let c = text[i];
        assert(text@.take(i as int + 1).drop_last() =~= text@.take(i as int));
        if c == '\n' && (i == 0 || text[i - 1] == '\n') {
            r.push(' ');
        }
        r.push(c);
        i = i + 1;
        assert(r@ =~= fill_spec(text@.take(i as int)));
    }
    assert(text@.take(i as int) =~= text@);
    r
}

/// Decimal digits of `n`.
pub open spec fn decimal(n: nat) -> Seq<char>
    decreases n,
{
    if n < 10 {
        seq![digit_char((n % 10) as nat)]
    } else {
        decimal(n / 10).push(digit_char((n % 10) as nat))
    }
}

pub open spec fn digit_char(d: nat) -> char {
    ((d + 48) as u8) as char
}

/// Decimal rendering of `n`.
pub fn decimal_chars(n: u64) -> (r: Vec<char>)
    ensures
        r@ == decimal(n as nat),
    decreases n,
{
    let d: u8 = (n % 10) as u8;
    let c = (d + 48) as char;
    if n < 10 {
        let mut r: Vec<char> = Vec::new();
        r.push(c);
        assert(r@ =~= decimal(n as nat));
        r
    } else {
        let mut r = decimal_chars(n / 10);
        r.push(c);
        r
    }
}

} // verus!
