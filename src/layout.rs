//! Screen layout in terminal cells, derived from the terminal's size.

use vstd::prelude::*;

verus! {

/// Where the sidebar, the image area and the status bar sit.
#[derive(Clone, Copy, Debug, PartialEq, Eq, Structural)]
pub struct Layout {
    pub sidebar_cols: u16,
    /// First column of the image area.
    pub image_col: u16,
    pub image_cols: u16,
    pub image_rows: u16,
    /// Row of the status bar (the last row).
    pub status_row: u16,
    /// Pixels per cell.
    pub cell_w: u16,
    pub cell_h: u16,
}

/// The sidebar takes `sidebar_cols` columns, the status bar the last row,
/// the image area the rest; cell size is the pixel size over the cell count.
pub fn compute_layout(term_cols: u16, term_rows: u16, pixel_w: u16, pixel_h: u16, sidebar_cols: u16) -> (r: Layout)
    ensures
        r.sidebar_cols == sidebar_cols,
        r.image_col == sidebar_cols,
        r.image_cols == (if term_cols >= sidebar_cols { term_cols - sidebar_cols } else { 0 }),
        r.image_rows == (if term_rows >= 1 { term_rows - 1 } else { 0 }),
        r.status_row == r.image_rows,
        r.cell_w == (if term_cols > 0 { pixel_w / term_cols } else { 1 }),
        r.cell_h == (if term_rows > 0 { pixel_h / term_rows } else { 1 }),
{
    let rows = if term_rows >= 1 {
        term_rows - 1
    } else {
        0
    };
    Layout {
        sidebar_cols,
        image_col: sidebar_cols,
        image_cols: if term_cols >= sidebar_cols {
            term_cols - sidebar_cols
        } else {
            0
        },
        image_rows: rows,
        status_row: rows,
        cell_w: if term_cols > 0 {
            pixel_w / term_cols
        } else {
            1
        },
        cell_h: if term_rows > 0 {
            pixel_h / term_rows
        } else {
            1
        },
    }
}

/// Viewport size in pixels: the image area, bounded by the image.
pub fn vp_dims(layout: &Layout, img_w: u32, img_h: u32) -> (r: (u32, u32))
    ensures
        r.0 == (if layout.image_cols * layout.cell_w <= img_w {
            (layout.image_cols * layout.cell_w) as u32
        } else {
            img_w
        }),
        r.1 == (if layout.image_rows * layout.cell_h <= img_h {
            (layout.image_rows * layout.cell_h) as u32
        } else {
            img_h
        }),
{
    assert(layout.image_cols * layout.cell_w <= 0xFFFF * 0xFFFF) by (nonlinear_arith)
        requires
            layout.image_cols <= 0xFFFF,
            layout.cell_w <= 0xFFFF,
    ;
    assert(layout.image_rows * layout.cell_h <= 0xFFFF * 0xFFFF) by (nonlinear_arith)
        requires
            layout.image_rows <= 0xFFFF,
            layout.cell_h <= 0xFFFF,
    ;
    let w = layout.image_cols as u32 * layout.cell_w as u32;
    let h = layout.image_rows as u32 * layout.cell_h as u32;
    (if w <= img_w {
        w
    } else {
        img_w
    }, if h <= img_h {
        h
    } else {
        img_h
    })
}

} // verus!
