//! Decisions of the outer loop that rebuilds the document: what an exit
//! of the event loop leads to, whether a reloaded configuration is taken,
//! and the scroll offset carried into the rebuilt document.

use vstd::prelude::*;

use crate::events::{chars_of, string_of};
use crate::modes::ExitReason;
use crate::theme;

verus! {

/// What to do after the event loop ended.
#[derive(Clone, Copy, Debug)]
pub struct RebuildStep {
    /// Leave the viewer.
    pub quit: bool,
    /// Delete every image in the terminal before rebuilding.
    pub delete_all_images: bool,
    /// Lay the screen out anew for this many columns and rows.
    pub relayout: Option<(u16, u16)>,
    /// Scroll offset to carry into the rebuilt document.
    pub y_carry: u32,
}

/// Quit leaves; every other reason deletes the images and rebuilds at the
/// same offset; a resize also lays the screen out for the new size.
pub fn after_exit(reason: ExitReason, y_offset: u32) -> (r: RebuildStep)
    ensures
        r.quit == (reason == ExitReason::Quit),
        !r.quit ==> r.delete_all_images && r.y_carry == y_offset,
        r.relayout == (match reason {
            ExitReason::Resize { new_cols, new_rows } => Some((new_cols, new_rows)),
            _ => None,
        }),
{
    match reason {
        ExitReason::Quit => RebuildStep {
            quit: true,
            delete_all_images: false,
            relayout: None,
            y_carry: y_offset,
        },
        ExitReason::Resize { new_cols, new_rows } => RebuildStep {
            quit: false,
            delete_all_images: true,
            relayout: Some((new_cols, new_rows)),
            y_carry: y_offset,
        },
        ExitReason::Reload | ExitReason::ConfigReload => RebuildStep {
            quit: false,
            delete_all_images: true,
            relayout: None,
            y_carry: y_offset,
        },
    }
}

/// Whether a reloaded configuration is taken (its theme exists), and
/// whether the screen must be laid out again (the sidebar width changed).
pub fn config_reload_outcome(new_theme: &str, old_sidebar_cols: u16, new_sidebar_cols: u16) -> (r: (
    bool,
    bool,
))
    ensures
        r.0 == (new_theme@ == theme::DEFAULT_THEME@),
        r.1 == (r.0 && new_sidebar_cols != old_sidebar_cols),
{
    let adopt = theme::get(new_theme).is_some();
    (adopt, adopt && new_sidebar_cols != old_sidebar_cols)
}

/// The message shown after a configuration reload, carried across the rebuild.
pub fn reload_flash(new_theme: &str, adopted: bool) -> (r: String)
    ensures
        adopted ==> r@ == "Config reloaded"@,
        !adopted ==> r@ == "Reload failed: theme '"@ + new_theme@ + "': file not found"@,
{
    if adopted {
        return string_of(&chars_of("Config reloaded"));
    }
    let mut v = chars_of("Reload failed: theme '");
    let t = chars_of(new_theme);
    let tail = chars_of("': file not found");
    let ghost base = v@;
    let mut i: usize = 0;
    while i < t.len()
        invariant
            i <= t@.len(),
            v@ == base + t@.take(i as int),
        decreases t@.len() - i,
    {
        v.push(t[i]);
        i = i + 1;
        assert(v@ =~= base + t@.take(i as int));
    }
    assert(t@.take(i as int) =~= t@);
    let ghost mid = v@;
    let mut j: usize = 0;
    while j < tail.len()
        invariant
            j <= tail@.len(),
            v@ == mid + tail@.take(j as int),
        decreases tail@.len() - j,
    {
        v.push(tail[j]);
        j = j + 1;
        assert(v@ =~= mid + tail@.take(j as int));
    }
    assert(tail@.take(j as int) =~= tail@);
    string_of(&v)
}

/// The offset carried into a rebuilt document, clamped to its maximum.
pub fn carried_offset(y_carry: u32, max_scroll: u32) -> (r: u32)
    ensures
        r == (if y_carry <= max_scroll {
            y_carry
        } else {
            max_scroll
        }),
{
    if y_carry <= max_scroll {
        y_carry
    } else {
        max_scroll
    }
}

} // verus!
