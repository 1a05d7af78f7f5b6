//! Tile geometry of a rendered document, and the cache of rendered tiles.
//!
//! The document is split into fixed-height tiles; only the tiles under the
//! viewport are rasterized. This module holds what the viewer computes from
//! tile sizes in pixels: which tiles a viewport shows, how far it can
//! scroll, and where visual lines sit.

use vstd::prelude::*;

use crate::tile_map::{dist, TileMap};

verus! {

/// A visible row of rendered text.
#[derive(Clone, Copy, Debug)]
pub struct VisualLine {
    /// Pixel Y coordinate of the baseline.
    pub y_px: u32,
    /// Markdown source line range (1-based, inclusive) of the enclosing block.
    pub md_line_range: Option<(usize, usize)>,
    /// Precise 1-based Markdown line, for lines inside code blocks.
    pub md_line_exact: Option<usize>,
}

/// Which tiles are visible for a given scroll position.
#[derive(Clone, Copy, Debug, PartialEq, Eq, Structural)]
pub enum VisibleTiles {
    /// Viewport fits entirely within one tile.
    Single { idx: usize, src_y: u32, src_h: u32 },
    /// Viewport straddles two tiles.
    Split { top_idx: usize, top_src_y: u32, top_src_h: u32, bot_idx: usize, bot_src_h: u32 },
}

pub open spec fn min_u32(a: u32, b: u32) -> u32 {
    if a <= b {
        a
    } else {
        b
    }
}

/// The tiles under a viewport of height `vp_h` scrolled to `y`, for tiles of
/// nominal height `tile_h` whose actual heights are `heights`.
pub open spec fn visible_spec(heights: Seq<u32>, tile_h: u32, y: u32, vp_h: u32) -> VisibleTiles
    recommends
        heights.len() > 0,
        tile_h > 0,
{
    let q = (y / tile_h) as int;
    let top = if q < heights.len() - 1 {
        q
    } else {
        heights.len() - 1
    };
    let src_y = (y - top * tile_h) as u32;
    let rem = if heights[top] >= src_y {
        (heights[top] - src_y) as u32
    } else {
        0u32
    };
    if rem >= vp_h || top + 1 >= heights.len() {
        VisibleTiles::Single { idx: top as usize, src_y, src_h: min_u32(vp_h, rem) }
    } else {
        VisibleTiles::Split {
            top_idx: top as usize,
            top_src_y: src_y,
            top_src_h: rem,
            bot_idx: (top + 1) as usize,
            bot_src_h: min_u32((vp_h - rem) as u32, heights[top + 1]),
        }
    }
}

/// Distance between two pixel rows.
pub open spec fn gap(a: u32, b: u32) -> int {
    if a >= b {
        a - b
    } else {
        b - a
    }
}

/// A rendered document's geometry in pixels.
pub struct TiledDocument {
    tile_heights: Vec<u32>,
    width_px: u32,
    sidebar_width_px: u32,
    tile_height_px: u32,
    total_height_px: u32,
    visual_lines: Vec<VisualLine>,
}

impl TiledDocument {
    /// At least one tile, and a nonzero nominal tile height.
    pub open spec fn wf(&self) -> bool {
        &&& self.heights().len() > 0
        &&& self.tile_height_spec() > 0
    }

    pub closed spec fn heights(&self) -> Seq<u32> {
        self.tile_heights@
    }

    pub closed spec fn lines(&self) -> Seq<VisualLine> {
        self.visual_lines@
    }

    pub closed spec fn tile_height_spec(&self) -> u32 {
        self.tile_height_px
    }

    pub closed spec fn total_height_spec(&self) -> u32 {
        self.total_height_px
    }

    pub closed spec fn width_spec(&self) -> u32 {
        self.width_px
    }

    pub closed spec fn sidebar_width_spec(&self) -> u32 {
        self.sidebar_width_px
    }

    /// Builds the geometry from the actual pixel height of each tile.
    /// `None` when there is no tile or the nominal tile height is zero.
    pub fn new(
        tile_heights: Vec<u32>,
        width_px: u32,
        sidebar_width_px: u32,
        tile_height_px: u32,
        total_height_px: u32,
        visual_lines: Vec<VisualLine>,
    ) -> (r: Option<TiledDocument>)
        ensures
            r is Some <==> tile_heights@.len() > 0 && tile_height_px > 0,
            r matches Some(d) ==> {
                &&& d.wf()
                &&& d.heights() == tile_heights@
                &&& d.tile_height_spec() == tile_height_px
                &&& d.total_height_spec() == total_height_px
                &&& d.width_spec() == width_px
                &&& d.sidebar_width_spec() == sidebar_width_px
                &&& d.lines() == visual_lines@
            },
    {
        if tile_heights.len() == 0 || tile_height_px == 0 {
            return None;
        }
        Some(
            TiledDocument {
                tile_heights,
                width_px,
                sidebar_width_px,
                tile_height_px,
                total_height_px,
                visual_lines,
            },
        )
    }

    /// The visual lines, in document order.
    pub fn visual_lines(&self) -> (r: &Vec<VisualLine>)
        ensures
            r@ == self.lines(),
    {
        &self.visual_lines
    }

    /// Number of tiles.
    pub fn tile_count(&self) -> (r: usize)
        ensures
            r == self.heights().len(),
    {
        self.tile_heights.len()
    }

    /// Document width in pixels.
    pub fn width_px(&self) -> (r: u32)
        ensures
            r == self.width_spec(),
    {
        self.width_px
    }

    /// Sidebar width in pixels.
    pub fn sidebar_width_px(&self) -> (r: u32)
        ensures
            r == self.sidebar_width_spec(),
    {
        self.sidebar_width_px
    }

    /// Height of one standard tile in pixels.
    pub fn tile_height_px(&self) -> (r: u32)
        ensures
            r == self.tile_height_spec(),
    {
        self.tile_height_px
    }

    /// Total document height in pixels.
    pub fn total_height_px(&self) -> (r: u32)
        ensures
            r == self.total_height_spec(),
    {
        self.total_height_px
    }

    /// Actual pixel height of tile `idx` (the last tile may be shorter).
    pub fn tile_actual_height_px(&self, idx: usize) -> (r: u32)
        requires
            idx < self.heights().len(),
        ensures
            r == self.heights()[idx as int],
    {
        self.tile_heights[idx]
    }

    /// Determine which tile(s) are visible at a given scroll offset.
    pub fn visible_tiles(&self, global_y: u32, vp_h: u32) -> (r: VisibleTiles)
        requires
            self.wf(),
        ensures
            r == visible_spec(self.heights(), self.tile_height_spec(), global_y, vp_h),
    {
        let th = self.tile_height_px;
        let n = self.tile_heights.len();
        let q = global_y / th;
        let top: usize = if (q as usize) < n - 1 {
            q as usize
        } else {
            n - 1
        };
        assert(top as int * th as int <= global_y) by (nonlinear_arith)
            requires
                top <= q,
                q == global_y / th,
                th > 0,
        ;
        let src_y = global_y - (top as u32) * th;
        let top_h = self.tile_heights[top];
        let rem = if top_h >= src_y {
            top_h - src_y
        } else {
            0
        };
        if rem >= vp_h || top + 1 >= n {
            VisibleTiles::Single { idx: top, src_y, src_h: if vp_h <= rem {
                vp_h
            } else {
                rem
            } }
        } else {
            let bot_h = self.tile_heights[top + 1];
            let want = vp_h - rem;
            VisibleTiles::Split {
                top_idx: top,
                top_src_y: src_y,
                top_src_h: rem,
                bot_idx: top + 1,
                bot_src_h: if want <= bot_h {
                    want
                } else {
                    bot_h
                },
            }
        }
    }

    /// Maximum scroll offset: the document height less the viewport, or zero.
    pub fn max_scroll(&self, vp_h: u32) -> (r: u32)
        ensures
            r == (if self.total_height_spec() >= vp_h {
                (self.total_height_spec() - vp_h) as u32
            } else {
                0u32
            }),
    {
        self.total_height_px.saturating_sub(vp_h)
    }

    /// Snap a pixel row to the nearest visual line (the first of equally near
    /// ones); unchanged when there are no visual lines.
    pub fn snap_to_line(&self, global_y: u32) -> (r: u32)
        ensures
            self.lines().len() == 0 ==> r == global_y,
            self.lines().len() > 0 ==> exists|i: int|
                0 <= i < self.lines().len() && r == (#[trigger] self.lines()[i]).y_px && forall|j: int|
                    0 <= j < i ==> gap(global_y, r) < gap(global_y, (#[trigger] self.lines()[j]).y_px),
            forall|i: int|
                0 <= i < self.lines().len() ==> gap(global_y, r) <= gap(
                    global_y,
                    (#[trigger] self.lines()[i]).y_px,
                ),
    {
        if self.visual_lines.len() == 0 {
            return global_y;
        }
        let mut bi: usize = 0;
        let mut best = self.visual_lines[0].y_px;
        let mut best_dist: u32 = if global_y >= best {
            global_y - best
        } else {
            best - global_y
        };
        let mut i: usize = 1;
        while i < self.visual_lines.len()
            invariant
                0 < self.visual_lines@.len(),
                1 <= i <= self.visual_lines@.len(),
                bi < i,
                best == self.visual_lines@[bi as int].y_px,
                best_dist == gap(global_y, best),
                forall|k: int|
                    0 <= k < bi ==> gap(global_y, best) < gap(
                        global_y,
                        (#[trigger] self.visual_lines@[k]).y_px,
                    ),
                forall|k: int|
                    0 <= k < i ==> gap(global_y, best) <= gap(
                        global_y,
                        (#[trigger] self.visual_lines@[k]).y_px,
                    ),
            decreases self.visual_lines@.len() - i,
        {
            let y = self.visual_lines[i].y_px;
            let d: u32 = if global_y >= y {
                global_y - y
            } else {
                y - global_y
            };
            if d < best_dist {
                bi = i;
                best = y;
                best_dist = d;
            }
            i = i + 1;
        }
        assert(self.lines()[bi as int].y_px == best);
        best
    }
}

/// A pair of rendered PNGs: content and sidebar for the same tile index.
pub struct TilePngs {
    pub content: Vec<u8>,
    pub sidebar: Vec<u8>,
}

/// Cache of rendered tile PNGs, keyed by tile index.
pub struct TiledDocumentCache {
    data: TileMap<TilePngs>,
}

impl TiledDocumentCache {
    /// The PNGs cached for tile `idx`.
    pub closed spec fn cached(&self, idx: usize) -> Option<TilePngs> {
        self.data.get_spec(idx)
    }

    pub fn new() -> (r: Self)
        ensures
            forall|k: usize| (#[trigger] r.cached(k)) is None,
    {
        TiledDocumentCache { data: TileMap::new() }
    }

    pub fn get(&self, idx: usize) -> (r: Option<&TilePngs>)
        ensures
            r is None <==> self.cached(idx) is None,
            r matches Some(p) ==> self.cached(idx) == Some(*p),
    {
        self.data.get(idx)
    }

    pub fn contains(&self, idx: usize) -> (r: bool)
        ensures
            r == self.cached(idx) is Some,
    {
        self.data.contains(idx)
    }

    pub fn insert(&mut self, idx: usize, pngs: TilePngs)
        ensures
            forall|k: usize|
                #[trigger] final(self).cached(k) == (if k == idx {
                    Some(pngs)
                } else {
                    old(self).cached(k)
                }),
    {
        self.data.insert(idx, pngs);
    }

    /// Evict entries farther than `keep_radius` from `center`; the rest stay.
    pub fn evict_distant(&mut self, center: usize, keep_radius: usize)
        ensures
            forall|k: usize|
                #[trigger] final(self).cached(k) == (if dist(k, center) > keep_radius {
                    None
                } else {
                    old(self).cached(k)
                }),
    {
        let _evicted = self.data.retain_near(center, keep_radius);
    }

    pub fn clear(&mut self)
        ensures
            forall|k: usize| (#[trigger] final(self).cached(k)) is None,
    {
        self.data.clear();
    }
}

/// After eviction around `center` with radius `radius`, no cached index is
/// farther than `radius` from `center`.
pub proof fn lemma_evict_keeps_near(
    before: TiledDocumentCache,
    after: TiledDocumentCache,
    center: usize,
    radius: usize,
)
    requires
        forall|k: usize|
            #[trigger] after.cached(k) == (if dist(k, center) > radius {
                None
            } else {
                before.cached(k)
            }),
    ensures
        forall|k: usize| #[trigger] after.cached(k) is Some ==> dist(k, center) <= radius,
{
}

} // verus!
