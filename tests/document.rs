use mlux::convert::{markdown_to_typst, markdown_to_typst_with_map, SourceMap};
use mlux::source::{byte_offset_to_line, resolve_md_line_range, yank_exact, yank_lines};
use mlux::tile::{TilePngs, TiledDocument, TiledDocumentCache, VisibleTiles, VisualLine};

const FULL_DOC: &str = "# Heading\n\nA paragraph with **bold**.\n\n- one\n- two\n\n| A | B |\n|---|---|\n| 1 | 2 |\n\n```rust\nfn main() {}\n```\n\n> quoted\n";

fn vl(y_px: u32, range: Option<(usize, usize)>, exact: Option<usize>) -> VisualLine {
    VisualLine {
        y_px,
        md_line_range: range,
        md_line_exact: exact,
    }
}

fn check_map(md: &str, typst: &str, map: &SourceMap) {
    for b in &map.blocks {
        assert!(b.typst_byte_range.start <= b.typst_byte_range.end);
        assert!(b.typst_byte_range.end <= typst.len());
        assert!(b.md_byte_range.start <= b.md_byte_range.end);
        assert!(b.md_byte_range.end <= md.len());
    }
    for pair in map.blocks.windows(2) {
        assert!(pair[0].typst_byte_range.end <= pair[1].typst_byte_range.start);
    }
}

#[test]
fn empty_input_converts_to_empty() {
    let (typst, map) = markdown_to_typst_with_map("");
    assert_eq!(typst, "");
    assert!(map.blocks.is_empty());
}

#[test]
fn paragraph_converts_verbatim() {
    assert_eq!(markdown_to_typst("Hello, world!"), "Hello, world!\n");
}

#[test]
fn conversion_is_deterministic() {
    let (a, ma) = markdown_to_typst_with_map(FULL_DOC);
    let (b, mb) = markdown_to_typst_with_map(FULL_DOC);
    assert_eq!(a, b);
    assert_eq!(ma.blocks.len(), mb.blocks.len());
    for (x, y) in ma.blocks.iter().zip(mb.blocks.iter()) {
        assert_eq!(x.typst_byte_range, y.typst_byte_range);
        assert_eq!(x.md_byte_range, y.md_byte_range);
    }
}

#[test]
fn full_document_map_in_bounds_and_ordered() {
    let (typst, map) = markdown_to_typst_with_map(FULL_DOC);
    assert_eq!(map.blocks.len(), 6);
    check_map(FULL_DOC, &typst, &map);
    let heading = &map.blocks[0];
    assert!(FULL_DOC[heading.md_byte_range.clone()].starts_with("# Heading"));
    assert_eq!(&typst[heading.typst_byte_range.clone()], "= Heading\n");
}

#[test]
fn multibyte_text_map_uses_bytes() {
    let md = "# 見出し\n\n日本語の段落。\n";
    let (typst, map) = markdown_to_typst_with_map(md);
    check_map(md, &typst, &map);
    assert_eq!(&typst[map.blocks[1].typst_byte_range.clone()], "\n日本語の段落。\n");
}

#[test]
fn table_mapping_starts_at_table_call() {
    let md = "intro\n\n| A |\n|---|\n| 1 |\n";
    let (typst, map) = markdown_to_typst_with_map(md);
    check_map(md, &typst, &map);
    let t = &map.blocks[1];
    assert!(typst[t.typst_byte_range.clone()].starts_with("#table(columns: 1,\n"));
}

#[test]
fn find_by_offset_hits_and_misses() {
    let (typst, map) = markdown_to_typst_with_map("# A\n\nbody\n");
    let pos = typst.find("body").unwrap();
    let b = map.find_by_typst_offset(pos).unwrap();
    assert!("# A\n\nbody\n"[b.md_byte_range.clone()].starts_with("body"));
    assert!(map.find_by_typst_offset(typst.len() + 5).is_none());
}

#[test]
fn byte_offsets_to_lines() {
    assert_eq!(byte_offset_to_line("a\nb\nc", 0), 1);
    assert_eq!(byte_offset_to_line("a\nb\nc", 2), 2);
    assert_eq!(byte_offset_to_line("a\nb\nc", 4), 3);
    assert_eq!(byte_offset_to_line("a\nb\nc", 100), 3);
}

#[test]
fn resolve_paragraph_lines() {
    let md = "# Title\n\nHello\n";
    let (typst, map) = markdown_to_typst_with_map(md);
    let prefix = "#set page(width: 100pt)\n";
    let main = format!("{prefix}{typst}");
    let start = prefix.len() + typst.find("Hello").unwrap();
    let info = resolve_md_line_range(start, prefix.len(), &map, md, &main).unwrap();
    assert_eq!(info.range, (3, 3));
    assert_eq!(info.exact, None);
    assert!(resolve_md_line_range(0, prefix.len(), &map, md, &main).is_none());
}

#[test]
fn resolve_code_block_exact_line() {
    let md = "```\na\nb\n```\n";
    let (typst, map) = markdown_to_typst_with_map(md);
    let start = typst.find('b').unwrap();
    let info = resolve_md_line_range(start, 0, &map, md, &typst).unwrap();
    assert_eq!(info.range, (1, 4));
    assert_eq!(info.exact, Some(3));
}

#[test]
fn yank_block_of_resolved_line_is_block_text() {
    let md = "intro\n\n```\na\nb\n```\n\nend\n";
    let (typst, map) = markdown_to_typst_with_map(md);
    let start = typst.find("a\nb").unwrap();
    let info = resolve_md_line_range(start, 0, &map, md, &typst).unwrap();
    assert_eq!(info.range, (3, 6));
    let vls = vec![vl(0, Some(info.range), None), vl(20, Some(info.range), Some(4))];
    assert_eq!(yank_lines(md, &vls, 0, 0), "```\na\nb\n```");
    assert_eq!(yank_exact(md, &vls, 0), "```\na\nb\n```");
    assert_eq!(yank_exact(md, &vls, 1), "a");
}

#[test]
fn yank_lines_unions_ranges() {
    let md = "# T\n\npara\n\nlast\n";
    let vls = vec![vl(0, Some((1, 1)), None), vl(20, Some((3, 3)), None), vl(40, None, None)];
    assert_eq!(yank_lines(md, &vls, 0, 1), "# T\n\npara");
    assert_eq!(yank_lines(md, &vls, 2, 2), "");
    assert_eq!(yank_lines(md, &vls, 5, 9), "");
    assert_eq!(yank_exact(md, &vls, 1), "para");
    assert_eq!(yank_exact(md, &vls, 7), "");
}

#[test]
fn yank_handles_crlf_lines() {
    let md = "one\r\ntwo\r\n";
    let vls = vec![vl(0, Some((1, 2)), None)];
    assert_eq!(yank_lines(md, &vls, 0, 0), "one\ntwo");
}

fn doc(heights: Vec<u32>, tile_h: u32, total: u32, lines: Vec<VisualLine>) -> TiledDocument {
    TiledDocument::new(heights, 800, 48, tile_h, total, lines).unwrap()
}

#[test]
fn empty_document_shows_single_empty_tile() {
    let d = doc(vec![0], 100, 0, vec![]);
    assert_eq!(d.visible_tiles(0, 40), VisibleTiles::Single { idx: 0, src_y: 0, src_h: 0 });
    assert_eq!(d.max_scroll(40), 0);
}

#[test]
fn visible_tiles_single_and_split() {
    let d = doc(vec![100, 100, 50], 100, 250, vec![]);
    assert_eq!(d.visible_tiles(0, 80), VisibleTiles::Single { idx: 0, src_y: 0, src_h: 80 });
    assert_eq!(
        d.visible_tiles(50, 80),
        VisibleTiles::Split { top_idx: 0, top_src_y: 50, top_src_h: 50, bot_idx: 1, bot_src_h: 30 }
    );
    assert_eq!(d.visible_tiles(220, 80), VisibleTiles::Single { idx: 2, src_y: 20, src_h: 30 });
    assert_eq!(d.visible_tiles(500, 80), VisibleTiles::Single { idx: 2, src_y: 300, src_h: 0 });
}

#[test]
fn max_scroll_saturates() {
    let d = doc(vec![100, 100, 50], 100, 250, vec![]);
    assert_eq!(d.max_scroll(80), 170);
    assert_eq!(d.max_scroll(300), 0);
}

#[test]
fn snap_to_nearest_line() {
    let d = doc(vec![100], 100, 100, vec![vl(0, None, None), vl(30, None, None), vl(60, None, None)]);
    assert_eq!(d.snap_to_line(44), 30);
    assert_eq!(d.snap_to_line(45), 30);
    assert_eq!(d.snap_to_line(59), 60);
    let empty = doc(vec![100], 100, 100, vec![]);
    assert_eq!(empty.snap_to_line(17), 17);
}

#[test]
fn document_geometry_rejects_bad_input() {
    assert!(TiledDocument::new(vec![], 1, 1, 100, 0, vec![]).is_none());
    assert!(TiledDocument::new(vec![10], 1, 1, 0, 10, vec![]).is_none());
}

#[test]
fn scroll_then_resize_stays_within_new_max() {
    let before = doc(vec![400, 400, 200], 400, 1000, vec![]);
    let y = 500u32.min(before.max_scroll(400));
    let after = doc(vec![400, 400, 200], 400, 1000, vec![]);
    let new_max = after.max_scroll(200);
    let carried = y.min(new_max);
    assert!(carried <= new_max);
}

#[test]
fn cache_evicts_distant_entries() {
    let mut c = TiledDocumentCache::new();
    for i in 0..10 {
        c.insert(i, TilePngs { content: vec![i as u8], sidebar: vec![] });
    }
    c.evict_distant(5, 2);
    for i in 0..10usize {
        assert_eq!(c.contains(i), (3..=7).contains(&i), "tile {i}");
    }
    assert_eq!(c.get(4).unwrap().content, vec![4]);
    c.insert(4, TilePngs { content: vec![44], sidebar: vec![] });
    assert_eq!(c.get(4).unwrap().content, vec![44]);
    c.clear();
    assert!(!c.contains(4));
}
