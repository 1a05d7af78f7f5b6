//! Built-in themes: Typst set and show rules placed before the content.

use vstd::prelude::*;

use crate::events::chars_of;

verus! {

/// Default theme name.
pub const DEFAULT_THEME: &'static str = "catppuccin";

/// Catppuccin Mocha colours on a page whose height follows the content.
pub const CATPPUCCIN: &'static str = r#"#set page(height: auto, margin: (x: 16pt, y: 12pt), fill: rgb(30, 30, 46))
#set text(font: ("Noto Sans", "Noto Sans CJK JP", "DejaVu Sans"), size: 12pt, fill: rgb(205, 214, 244))
#show heading: set text(fill: rgb(137, 180, 250))
#show link: set text(fill: rgb(137, 220, 235))
#show strong: set text(fill: rgb(245, 194, 231))
#show raw: set text(font: ("DejaVu Sans Mono", "Noto Sans Mono"), fill: rgb(166, 227, 161))
#show raw.where(block: true): it => block(fill: rgb(24, 24, 37), inset: 8pt, radius: 4pt, width: 100%, it)
#show quote.where(block: true): it => block(stroke: (left: 2pt + rgb(88, 91, 112)), inset: (left: 10pt, y: 4pt), it.body)
#set table(stroke: 1pt + rgb(88, 91, 112), inset: 6pt)
#set line(stroke: 1pt + rgb(88, 91, 112))
#set list(marker: [•])
"#;

fn same(a: &str, b: &str) -> (r: bool)
    ensures
        r == (a@ == b@),
{
    let x = chars_of(a);
    let y = chars_of(b);
    if x.len() != y.len() {
        return false;
    }
    let mut i: usize = 0;
    while i < x.len()
        invariant
            i <= x@.len(),
            x@ == a@,
            y@ == b@,
            x@.len() == y@.len(),
            forall|k: int| 0 <= k < i ==> x@[k] == y@[k],
        decreases x@.len() - i,
    {
        if x[i] != y[i] {
            assert(a@[i as int] != b@[i as int]);
            return false;
        }
        i = i + 1;
    }
    assert(x@ =~= y@);
    true
}

/// Look up a built-in theme by name.
pub fn get(name: &str) -> (r: Option<&'static str>)
    ensures
        r is Some <==> name@ == DEFAULT_THEME@,
        r matches Some(t) ==> t@ == CATPPUCCIN@,
{
    if same(name, DEFAULT_THEME) {
        Some(CATPPUCCIN)
    } else {
        None
    }
}

} // verus!
