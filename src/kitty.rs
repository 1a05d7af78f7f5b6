//! Kitty graphics protocol commands, the clipboard escape, and the status
//! line. Every graphics command carries `q=2` so the terminal sends no reply.

use base64::Engine as _;
use vstd::prelude::*;

use crate::events::{chars_of, string_of};
use crate::text::{decimal, decimal_chars};
use vstd::string::StringSliceAdditionalSpecFns;

verus! {

/// The padded standard-alphabet base64 encoding of `data`.
pub uninterp spec fn base64_of(data: Seq<u8>) -> Seq<char>;

/// Relies on base64's STANDARD engine `encode`: the encoding depends on the
/// bytes alone; it panics only when the encoded length overflows `usize`.
#[verifier::external_body]
fn base64_encode(data: &[u8]) -> (r: Vec<char>)
    requires
        data@.len() <= usize::MAX / 2,
    ensures
        r@ == base64_of(data@),
{
    base64::engine::general_purpose::STANDARD.encode(data).chars().collect()
}

/// Largest payload of one transfer command.
pub const CHUNK_SIZE: usize = 4096;

fn append(dst: &mut Vec<char>, src: &Vec<char>)
    ensures
        final(dst)@ == old(dst)@ + src@,
{
    let mut i: usize = 0;
    while i < src.len()
        invariant
            i <= src@.len(),
            dst@ == old(dst)@ + src@.take(i as int),
        decreases src@.len() - i,
    {
        dst.push(src[i]);
        i = i + 1;
        assert(dst@ =~= old(dst)@ + src@.take(i as int));
    }
    assert(src@.take(i as int) =~= src@);
}

fn push_str(dst: &mut Vec<char>, s: &str)
    ensures
        final(dst)@ == old(dst)@ + s@,
{
    append(dst, &chars_of(s));
}

fn push_num(dst: &mut Vec<char>, n: u32)
    ensures
        final(dst)@ == old(dst)@ + decimal(n as nat),
{
    append(dst, &decimal_chars(n as u64));
}

/// The transfer commands for the encoded data from offset `pos` on: the
/// first carries the image's metadata, each says whether more follows.
pub open spec fn transfer_from(enc: Seq<char>, id: u32, pos: nat) -> Seq<char>
    decreases enc.len() - pos,
{
    if pos >= enc.len() {
        Seq::empty()
    } else {
        let end: nat = if pos + CHUNK_SIZE <= enc.len() {
            (pos + CHUNK_SIZE) as nat
        } else {
            enc.len()
        };
        let m = if end < enc.len() {
            seq!['1']
        } else {
            seq!['0']
        };
        let head = if pos == 0 {
            "\x1b_Ga=t,f=100,i="@ + decimal(id as nat) + ",t=d,q=2,m="@ + m + ";"@
        } else {
            "\x1b_Gm="@ + m + ",q=2;"@
        };
        head + enc.subrange(pos as int, end as int) + "\x1b\\"@ + transfer_from(enc, id, end)
    }
}

/// Transfer a PNG under `image_id`: base64, in chunks of at most
/// `CHUNK_SIZE` characters.
pub fn transfer_command(png: &[u8], image_id: u32) -> (r: String)
    requires
        png@.len() <= usize::MAX / 2,
    ensures
        r@ == transfer_from(base64_of(png@), image_id, 0),
{
    let enc = base64_encode(png);
    let mut out: Vec<char> = Vec::new();
    let mut pos: usize = 0;
    while pos < enc.len()
        invariant
            pos <= enc@.len(),
            out@ + transfer_from(enc@, image_id, pos as nat) == transfer_from(enc@, image_id, 0),
        decreases enc@.len() - pos,
    {
        let end = if enc.len() >= CHUNK_SIZE && pos <= enc.len() - CHUNK_SIZE {
            pos + CHUNK_SIZE
        } else {
            enc.len()
        };
        let ghost before = out@;
        if pos == 0 {
            push_str(&mut out, "\x1b_Ga=t,f=100,i=");
            push_num(&mut out, image_id);
            push_str(&mut out, ",t=d,q=2,m=");
        } else {
            push_str(&mut out, "\x1b_Gm=");
        }
        if end < enc.len() {
            out.push('1');
        } else {
            out.push('0');
        }
        if pos == 0 {
            push_str(&mut out, ";");
        } else {
            push_str(&mut out, ",q=2;");
        }
        let mut i: usize = pos;
        let ghost mid = out@;
        while i < end
            invariant
                pos <= i <= end <= enc@.len(),
                out@ == mid + enc@.subrange(pos as int, i as int),
            decreases end - i,
        {
            out.push(enc[i]);
            i = i + 1;
            assert(out@ =~= mid + enc@.subrange(pos as int, i as int));
        }
        push_str(&mut out, "\x1b\\");
        proof {
            let m = if end < enc@.len() {
                seq!['1']
            } else {
                seq!['0']
            };
            let head = if pos == 0 {
                "\x1b_Ga=t,f=100,i="@ + decimal(image_id as nat) + ",t=d,q=2,m="@ + m + ";"@
            } else {
                "\x1b_Gm="@ + m + ",q=2;"@
            };
            assert(mid =~= before + head);
            assert(out@ =~= before + (head + enc@.subrange(pos as int, end as int) + "\x1b\\"@));
        }
        pos = end;
    }
    string_of(&out)
}

/// Place `h` rows of pixels of image `id` from `y`, `w` wide, over `cols`
/// columns and `rows` rows at the cursor, without moving it.
pub open spec fn place_spec(id: u32, y: u32, w: u32, h: u32, cols: u16, rows: u16) -> Seq<char> {
    "\x1b_Ga=p,i="@ + decimal(id as nat) + ",x=0,y="@ + decimal(y as nat) + ",w="@ + decimal(
        w as nat,
    ) + ",h="@ + decimal(h as nat) + ",c="@ + decimal(cols as nat) + ",r="@ + decimal(rows as nat)
        + ",C=1,q=2\x1b\\"@
}

pub fn place_command(id: u32, y: u32, w: u32, h: u32, cols: u16, rows: u16) -> (r: String)
    ensures
        r@ == place_spec(id, y, w, h, cols, rows),
{
    let mut out: Vec<char> = Vec::new();
    push_str(&mut out, "\x1b_Ga=p,i=");
    push_num(&mut out, id);
    push_str(&mut out, ",x=0,y=");
    push_num(&mut out, y);
    push_str(&mut out, ",w=");
    push_num(&mut out, w);
    push_str(&mut out, ",h=");
    push_num(&mut out, h);
    push_str(&mut out, ",c=");
    push_num(&mut out, cols as u32);
    push_str(&mut out, ",r=");
    push_num(&mut out, rows as u32);
    push_str(&mut out, ",C=1,q=2\x1b\\");
    assert(out@ =~= place_spec(id, y, w, h, cols, rows));
    string_of(&out)
}

/// Remove the placements of image `id`, keeping its data in the terminal.
pub fn delete_placement_command(id: u32) -> (r: String)
    ensures
        r@ == "\x1b_Ga=d,d=i,i="@ + decimal(id as nat) + ",q=2\x1b\\"@,
{
    let mut out: Vec<char> = Vec::new();
    push_str(&mut out, "\x1b_Ga=d,d=i,i=");
    push_num(&mut out, id);
    push_str(&mut out, ",q=2\x1b\\");
    string_of(&out)
}

/// Remove image `id` and its data.
pub fn delete_image_command(id: u32) -> (r: String)
    ensures
        r@ == "\x1b_Ga=d,d=I,i="@ + decimal(id as nat) + ",q=2\x1b\\"@,
{
    let mut out: Vec<char> = Vec::new();
    push_str(&mut out, "\x1b_Ga=d,d=I,i=");
    push_num(&mut out, id);
    push_str(&mut out, ",q=2\x1b\\");
    string_of(&out)
}

/// Remove every image and its data.
pub fn delete_all_command() -> (r: String)
    ensures
        r@ == "\x1b_Ga=d,d=A,q=2\x1b\\"@,
{
    string_of(&chars_of("\x1b_Ga=d,d=A,q=2\x1b\\"))
}

/// Copy `text` to the clipboard (OSC 52).
pub fn osc52_command(text: &str) -> (r: String)
    requires
        text.spec_bytes().len() <= usize::MAX / 2,
    ensures
        r@ == "\x1b]52;c;"@ + base64_of(text.spec_bytes()) + "\x1b\\"@,
{
    let mut out = chars_of("\x1b]52;c;");
    append(&mut out, &base64_encode(text.as_bytes()));
    push_str(&mut out, "\x1b\\");
    string_of(&out)
}

/// Rows for a single tile's `src_h` pixels: rounded up to whole cells, at
/// most the image area's rows, at least one.
pub open spec fn single_rows_spec(src_h: u32, cell_h: u16, image_rows: u16) -> u16 {
    let want = if cell_h == 0 {
        image_rows as int
    } else {
        (src_h as int + cell_h - 1) / (cell_h as int)
    };
    let capped = if want <= image_rows {
        want
    } else {
        image_rows as int
    };
    if capped >= 1 {
        capped as u16
    } else {
        1
    }
}

pub fn single_rows(src_h: u32, cell_h: u16, image_rows: u16) -> (r: u16)
    ensures
        r == single_rows_spec(src_h, cell_h, image_rows),
{
    let want: u64 = if cell_h == 0 {
        image_rows as u64
    } else {
        (src_h as u64 + cell_h as u64 - 1) / (cell_h as u64)
    };
    let capped: u64 = if want <= image_rows as u64 {
        want
    } else {
        image_rows as u64
    };
    if capped >= 1 {
        capped as u16
    } else {
        1
    }
}

/// Rows for a split view: the top tile's share rounded to whole cells, kept
/// within one and all rows but one; the bottom tile takes the rest.
pub open spec fn split_rows_spec(top_h: u32, cell_h: u16, image_rows: u16) -> (u16, u16) {
    let want = if cell_h == 0 {
        u16::MAX as int
    } else {
        (2 * top_h as int + cell_h) / (2 * cell_h as int)
    };
    let hi = if image_rows >= 1 {
        image_rows - 1
    } else {
        0
    };
    let top = if want < 1 {
        1
    } else if want > hi && hi >= 1 {
        hi
    } else if want > hi {
        1
    } else {
        want
    };
    let bot = if image_rows >= top {
        image_rows - top
    } else {
        0
    };
    (top as u16, bot as u16)
}

pub fn split_rows(top_h: u32, cell_h: u16, image_rows: u16) -> (r: (u16, u16))
    ensures
        r == split_rows_spec(top_h, cell_h, image_rows),
{
    let want: u64 = if cell_h == 0 {
        u16::MAX as u64
    } else {
        (2 * top_h as u64 + cell_h as u64) / (2 * cell_h as u64)
    };
    let hi: u64 = if image_rows >= 1 {
        image_rows as u64 - 1
    } else {
        0
    };
    let top: u64 = if want < 1 {
        1
    } else if want > hi && hi >= 1 {
        hi
    } else if want > hi {
        1
    } else {
        want
    };
    let bot: u64 = if image_rows as u64 >= top {
        image_rows as u64 - top
    } else {
        0
    };
    (top as u16, bot as u16)
}

/// Percentage scrolled: `y` of the scrollable range, 100 when nothing scrolls.
pub open spec fn percent(y: u32, img_h: u32, vp_h: u32) -> int {
    let max = if img_h >= vp_h {
        img_h - vp_h
    } else {
        0
    };
    if max == 0 {
        100
    } else {
        (y as int * 100) / max
    }
}

/// `s` padded with spaces to `width` characters.
pub open spec fn pad(s: Seq<char>, width: nat) -> Seq<char> {
    if s.len() >= width {
        s
    } else {
        s + Seq::new((width - s.len()) as nat, |i: int| ' ')
    }
}

/// The status line: file name, then the flash message or the pending count
/// or the key hints, and the scroll position, padded to the width.
pub open spec fn status_spec(
    filename: Seq<char>,
    y: u32,
    img_h: u32,
    vp_h: u32,
    pending: Option<u32>,
    flash: Option<Seq<char>>,
    width: nat,
) -> Seq<char> {
    let pos = " | y="@ + decimal(y as nat) + "/"@ + decimal(img_h as nat) + " px  "@ + decimal(
        percent(y, img_h, vp_h) as nat,
    ) + "%"@;
    let middle = match flash {
        Some(msg) => " "@ + filename + " | "@ + msg + pos,
        None => match pending {
            Some(n) => " "@ + filename + " | :"@ + decimal(n as nat) + "_"@ + pos,
            None => " "@ + filename + pos + "  [/:search n/N:match Ng:goto j/k d/u ::cmd q:quit]"@,
        },
    };
    pad(middle, width)
}

pub fn status_text(
    filename: &str,
    y: u32,
    img_h: u32,
    vp_h: u32,
    pending: Option<u32>,
    flash: Option<&str>,
    width: usize,
) -> (r: String)
    ensures
        r@ == status_spec(
            filename@,
            y,
            img_h,
            vp_h,
            pending,
            match flash {
                Some(f) => Some(f@),
                None => None,
            },
            width as nat,
        ),
{
    let max: u32 = if img_h >= vp_h {
        img_h - vp_h
    } else {
        0
    };
    let pct: u64 = if max == 0 {
        100
    } else {
        (y as u64 * 100) / (max as u64)
    };
    assert(pct <= 100 * u32::MAX) by (nonlinear_arith)
        requires
            pct == (if max == 0 { 100 } else { (y as int * 100) / max as int }),
            y <= u32::MAX,
    ;
    let mut pos = chars_of(" | y=");
    push_num(&mut pos, y);
    push_str(&mut pos, "/");
    push_num(&mut pos, img_h);
    push_str(&mut pos, " px  ");
    append(&mut pos, &decimal_chars(pct));
    push_str(&mut pos, "%");
    let mut out = chars_of(" ");
    push_str(&mut out, filename);
    match flash {
        Some(msg) => {
            push_str(&mut out, " | ");
            push_str(&mut out, msg);
            append(&mut out, &pos);
        },
        None => match pending {
            Some(n) => {
                push_str(&mut out, " | :");
                push_num(&mut out, n);
                push_str(&mut out, "_");
                append(&mut out, &pos);
            },
            None => {
                append(&mut out, &pos);
                push_str(&mut out, "  [/:search n/N:match Ng:goto j/k d/u ::cmd q:quit]");
            },
        },
    }
    let ghost middle = out@;
    let mut n = out.len();
    while n < width
        invariant
            middle.len() <= n <= width || (n == middle.len() && n >= width),
            out@.len() == n,
            out@ == middle + Seq::new((n - middle.len()) as nat, |i: int| ' '),
        decreases width - n,
    {
        out.push(' ');
        n = n + 1;
        assert(out@ =~= middle + Seq::new((n - middle.len()) as nat, |i: int| ' '));
    }
    assert(n >= width ==> out@ =~= pad(middle, width as nat) || middle.len() < width);
    proof {
        if middle.len() >= width {
            assert(out@ =~= middle);
        } else {
            assert(out@ =~= pad(middle, width as nat));
        }
    }
    string_of(&out)
}

} // verus!
