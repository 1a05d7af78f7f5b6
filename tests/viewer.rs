use mlux::input::{
    map_command_key, map_key_event, map_url_key, Action, CommandAction, InputAccumulator, KeyCode,
    KeyInput, SearchAction, UrlAction, MOD_NONE,
};
use mlux::kitty::{
    delete_all_command, delete_image_command, delete_placement_command, osc52_command,
    place_command, single_rows, split_rows, status_text, transfer_command,
};
use mlux::modes::{handle_command, handle_normal, CommandState, Effect, ExitReason, LastSearch, NormalCtx, ViewerMode};
use mlux::prefetch::{send_prefetch, InFlight, LoadedTiles, TileImageIds};
use mlux::search::handle_search;
use mlux::layout::{compute_layout, vp_dims};
use mlux::rebuild::{after_exit, carried_offset, config_reload_outcome, reload_flash};
use mlux::tile::TiledDocument;
use mlux::modes::SearchState;
use mlux::tile::{TilePngs, TiledDocumentCache, VisualLine};

fn vl(y_px: u32, range: Option<(usize, usize)>) -> VisualLine {
    VisualLine {
        y_px,
        md_line_range: range,
        md_line_exact: None,
    }
}

fn scroll_of(effects: &[Effect]) -> Option<u32> {
    effects.iter().find_map(|e| match e {
        Effect::ScrollTo(y) => Some(*y),
        _ => None,
    })
}

#[test]
fn scroll_actions_clamp() {
    let vls = vec![vl(0, Some((1, 1))), vl(400, Some((2, 2)))];
    let mut last = None;
    let ctx = NormalCtx {
        y_offset: 100,
        visual_lines: &vls,
        max_scroll: 150,
        scroll_step: 3,
        half_page: 40,
        markdown: "a\nb\n",
    };
    assert_eq!(scroll_of(&handle_normal(Action::ScrollDown(20), &ctx, &mut last)), Some(150));
    assert_eq!(scroll_of(&handle_normal(Action::ScrollDown(5), &ctx, &mut last)), Some(115));
    assert_eq!(scroll_of(&handle_normal(Action::ScrollUp(50), &ctx, &mut last)), Some(0));
    assert_eq!(scroll_of(&handle_normal(Action::HalfPageUp(1), &ctx, &mut last)), Some(60));
    assert_eq!(scroll_of(&handle_normal(Action::HalfPageDown(1), &ctx, &mut last)), Some(140));
    assert_eq!(scroll_of(&handle_normal(Action::JumpToTop, &ctx, &mut last)), Some(0));
    assert_eq!(scroll_of(&handle_normal(Action::JumpToBottom, &ctx, &mut last)), Some(150));
    assert_eq!(scroll_of(&handle_normal(Action::JumpToLine(2), &ctx, &mut last)), Some(150));
    assert_eq!(scroll_of(&handle_normal(Action::JumpToLine(9), &ctx, &mut last)), Some(100));
}

#[test]
fn scroll_sequence_stays_in_range() {
    let vls = vec![vl(0, None), vl(30, None), vl(900, None)];
    let actions = [
        Action::ScrollDown(999_999),
        Action::ScrollUp(3),
        Action::HalfPageDown(7),
        Action::JumpToLine(3),
        Action::ScrollUp(999_999),
        Action::JumpToBottom,
        Action::HalfPageUp(2),
    ];
    let mut y = 0u32;
    let mut last = None;
    for a in actions {
        let ctx = NormalCtx {
            y_offset: y,
            visual_lines: &vls,
            max_scroll: 500,
            scroll_step: u32::MAX,
            half_page: 250,
            markdown: "",
        };
        if let Some(t) = scroll_of(&handle_normal(a, &ctx, &mut last)) {
            y = t;
        }
        assert!(y <= 500);
    }
}

#[test]
fn yank_effects() {
    let md = "# Title\n\nbody\n";
    let vls = vec![vl(0, Some((1, 1))), vl(30, None)];
    let mut last = None;
    let ctx = NormalCtx {
        y_offset: 0,
        visual_lines: &vls,
        max_scroll: 0,
        scroll_step: 3,
        half_page: 10,
        markdown: md,
    };
    let e = handle_normal(Action::YankBlock(1), &ctx, &mut last);
    assert!(matches!(&e[0], Effect::Yank(t) if t == "# Title"));
    assert!(matches!(&e[1], Effect::Flash(m) if m == "Yanked L1 block (1 lines)"));
    let e = handle_normal(Action::YankExact(1), &ctx, &mut last);
    assert!(matches!(&e[1], Effect::Flash(m) if m == "Yanked L1 (1 line)"));
    let e = handle_normal(Action::YankExact(2), &ctx, &mut last);
    assert!(matches!(&e[0], Effect::Flash(m) if m == "L2: no source mapping"));
    let e = handle_normal(Action::YankExact(7), &ctx, &mut last);
    assert!(matches!(&e[0], Effect::Flash(m) if m == "Line 7 out of range (max 2)"));
    assert_eq!(e.len(), 2);
}

#[test]
fn open_url_effects() {
    let md = "see https://a.invalid/x\n\n[one](https://1.invalid) [two](https://2.invalid)\n";
    let vls = vec![vl(0, Some((1, 1))), vl(30, Some((3, 3)))];
    let mut last = None;
    let ctx = NormalCtx {
        y_offset: 0,
        visual_lines: &vls,
        max_scroll: 0,
        scroll_step: 3,
        half_page: 10,
        markdown: md,
    };
    let e = handle_normal(Action::OpenUrl(1), &ctx, &mut last);
    assert!(matches!(&e[0], Effect::OpenUrl(u) if u == "https://a.invalid/x"));
    let e = handle_normal(Action::OpenUrl(2), &ctx, &mut last);
    assert!(matches!(&e[1], Effect::SetMode(ViewerMode::UrlPicker(s)) if s.entries.len() == 2));
    let e = handle_normal(Action::EnterUrlPicker, &ctx, &mut last);
    assert!(matches!(&e[1], Effect::SetMode(ViewerMode::UrlPicker(s)) if s.entries.len() == 3));
}

#[test]
fn search_navigation_wraps() {
    let vls = vec![vl(0, None), vl(10, None), vl(20, None)];
    let mut last = Some(LastSearch { visual_line_idxs: vec![0, 2], current_idx: 1 });
    let ctx = NormalCtx {
        y_offset: 0,
        visual_lines: &vls,
        max_scroll: 15,
        scroll_step: 3,
        half_page: 10,
        markdown: "",
    };
    let e = handle_normal(Action::SearchNextMatch, &ctx, &mut last);
    assert_eq!(scroll_of(&e), Some(0));
    assert!(matches!(&e[1], Effect::Flash(m) if m == "match 1/2"));
    let e = handle_normal(Action::SearchPrevMatch, &ctx, &mut last);
    assert_eq!(scroll_of(&e), Some(15));
    let mut none = None;
    let e = handle_normal(Action::SearchNextMatch, &ctx, &mut none);
    assert!(matches!(&e[0], Effect::Flash(m) if m == "No search results"));
}

#[test]
fn search_mode_confirm_jumps() {
    let md = "alpha\nbeta\nalpha again\n";
    let vls = vec![vl(0, Some((1, 1))), vl(10, Some((2, 2))), vl(20, Some((3, 3)))];
    let mut ss = SearchState::new();
    for c in "alpha".chars() {
        handle_search(SearchAction::Type(c), &mut ss, md, &vls, 100, 10, 0);
    }
    assert_eq!(ss.matches.len(), 2);
    handle_search(SearchAction::SelectNext, &mut ss, md, &vls, 100, 10, 0);
    assert_eq!(ss.selected, 1);
    let e = handle_search(SearchAction::Confirm, &mut ss, md, &vls, 100, 10, 0);
    assert!(matches!(&e[0], Effect::SetLastSearch(l) if l.current_idx == 1));
    assert_eq!(scroll_of(&e), Some(20));
    assert!(matches!(&e[2], Effect::Flash(m) if m == "match 2/2"));
    assert!(matches!(&e[3], Effect::SetMode(ViewerMode::Normal)));
    let e = handle_search(SearchAction::Type('['), &mut ss, md, &vls, 100, 10, 0);
    assert!(matches!(&e[0], Effect::RedrawSearch));
    assert!(!ss.pattern_valid);
}

#[test]
fn command_mode() {
    let mut cs = CommandState { input: Vec::new() };
    for c in "  quit ".chars() {
        handle_command(CommandAction::Type(c), &mut cs);
    }
    let e = handle_command(CommandAction::Execute, &mut cs);
    assert!(matches!(&e[0], Effect::Exit(ExitReason::Quit)));
    let mut cs = CommandState { input: "rel".chars().collect() };
    let e = handle_command(CommandAction::Execute, &mut cs);
    assert!(matches!(&e[0], Effect::Exit(ExitReason::ConfigReload)));
    let mut cs = CommandState { input: "foo".chars().collect() };
    let e = handle_command(CommandAction::Execute, &mut cs);
    assert!(matches!(&e[1], Effect::Flash(m) if m == "Unknown command: foo"));
    let mut cs = CommandState { input: Vec::new() };
    let e = handle_command(CommandAction::Backspace, &mut cs);
    assert!(matches!(&e[0], Effect::SetMode(ViewerMode::Normal)));
}

#[test]
fn accumulator_caps_count() {
    let mut acc = InputAccumulator::new();
    for _ in 0..6 {
        assert!(acc.push_digit(9));
    }
    assert_eq!(acc.peek(), Some(999_999));
    assert!(!acc.push_digit(9));
    assert_eq!(acc.take(), Some(999_999));
    assert_eq!(acc.peek(), None);
}

#[test]
fn arrow_keys_take_count() {
    let mut acc = InputAccumulator::new();
    let k = |c| KeyInput { code: KeyCode::Char(c), modifiers: MOD_NONE };
    map_key_event(k('4'), &mut acc);
    let a = map_key_event(KeyInput { code: KeyCode::Down, modifiers: MOD_NONE }, &mut acc);
    assert_eq!(a, Some(Action::ScrollDown(4)));
    assert_eq!(map_key_event(k('x'), &mut acc), None);
    assert_eq!(
        map_command_key(KeyInput { code: KeyCode::Other, modifiers: MOD_NONE }),
        None
    );
    assert_eq!(map_url_key(k('j')), Some(UrlAction::SelectNext));
}

#[test]
fn prefetch_never_repeats_in_flight() {
    let mut fl = InFlight::new();
    let mut cache = TiledDocumentCache::new();
    assert_eq!(send_prefetch(&mut fl, &cache, 5, 100, 150), vec![2, 3, 0]);
    assert_eq!(send_prefetch(&mut fl, &cache, 5, 100, 150), Vec::<usize>::new());
    fl.finish(3);
    cache.insert(3, TilePngs { content: vec![], sidebar: vec![] });
    assert_eq!(send_prefetch(&mut fl, &cache, 5, 100, 150), Vec::<usize>::new());
    fl.finish(2);
    assert_eq!(send_prefetch(&mut fl, &cache, 5, 100, 150), vec![2]);
    assert_eq!(send_prefetch(&mut fl, &cache, 5, 100, 450), Vec::<usize>::new());
}

#[test]
fn image_ids_and_eviction() {
    let mut loaded = LoadedTiles::new(1);
    let a = loaded.allocate(0).unwrap();
    assert_eq!(a, TileImageIds { content_id: 100, sidebar_id: 101 });
    assert!(loaded.record(0, a).is_empty());
    assert!(loaded.allocate(0).is_none());
    let b = loaded.allocate(5).unwrap();
    assert_eq!(b, TileImageIds { content_id: 102, sidebar_id: 103 });
    assert_eq!(loaded.record(5, b), vec![a]);
    assert_eq!(loaded.get(0), None);
    assert_eq!(loaded.all(), vec![b]);
}

#[test]
fn kitty_commands() {
    assert_eq!(transfer_command(b"hi", 100), "\x1b_Ga=t,f=100,i=100,t=d,q=2,m=0;aGk=\x1b\\");
    assert_eq!(transfer_command(b"", 100), "");
    let big = vec![0u8; 3073];
    let t = transfer_command(&big, 7);
    assert!(t.starts_with("\x1b_Ga=t,f=100,i=7,t=d,q=2,m=1;"));
    assert!(t.ends_with(&format!("\x1b_Gm=0,q=2;{}\x1b\\", "AA==")));
    assert_eq!(t.matches("\x1b\\").count(), 2);
    assert_eq!(
        place_command(101, 20, 800, 600, 74, 30),
        "\x1b_Ga=p,i=101,x=0,y=20,w=800,h=600,c=74,r=30,C=1,q=2\x1b\\"
    );
    assert_eq!(delete_placement_command(5), "\x1b_Ga=d,d=i,i=5,q=2\x1b\\");
    assert_eq!(delete_image_command(5), "\x1b_Ga=d,d=I,i=5,q=2\x1b\\");
    assert_eq!(delete_all_command(), "\x1b_Ga=d,d=A,q=2\x1b\\");
    assert_eq!(osc52_command("hi"), "\x1b]52;c;aGk=\x1b\\");
}

#[test]
fn placement_rows() {
    assert_eq!(single_rows(100, 20, 30), 5);
    assert_eq!(single_rows(101, 20, 30), 6);
    assert_eq!(single_rows(1000, 20, 30), 30);
    assert_eq!(single_rows(0, 20, 30), 1);
    assert_eq!(split_rows(250, 20, 30), (13, 17));
    assert_eq!(split_rows(5000, 20, 30), (29, 1));
}

#[test]
fn status_line_text() {
    assert_eq!(
        status_text("a.md", 0, 100, 200, None, Some("hi"), 40),
        format!("{:<40}", " a.md | hi | y=0/100 px  100%")
    );
    assert_eq!(
        status_text("a.md", 50, 1000, 500, Some(56), None, 10),
        " a.md | :56_ | y=50/1000 px  10%"
    );
    assert!(status_text("a.md", 0, 10, 5, None, None, 0).contains("q:quit]"));
}

#[test]
fn layout_from_terminal_size() {
    let l = compute_layout(80, 25, 800, 500, 6);
    assert_eq!((l.image_col, l.image_cols, l.image_rows, l.status_row), (6, 74, 24, 24));
    assert_eq!((l.cell_w, l.cell_h), (10, 20));
    assert_eq!(vp_dims(&l, 2000, 300), (740, 300));
    let z = compute_layout(0, 0, 800, 500, 6);
    assert_eq!((z.image_cols, z.image_rows, z.cell_w, z.cell_h), (0, 0, 1, 1));
}

#[test]
fn scroll_then_resize_carries_clamped_offset() {
    let before = TiledDocument::new(vec![400, 400, 200], 800, 48, 400, 1000, vec![]).unwrap();
    let y = 500u32.min(before.max_scroll(400));
    assert_eq!(y, 500);
    let step = after_exit(ExitReason::Resize { new_cols: 80, new_rows: 12 }, y);
    assert!(!step.quit && step.delete_all_images);
    assert_eq!(step.relayout, Some((80, 12)));
    assert_eq!(step.y_carry, 500);
    let after = TiledDocument::new(vec![400, 400, 200, 100], 800, 48, 400, 1100, vec![]).unwrap();
    let new_max = after.max_scroll(1000);
    assert_eq!(new_max, 100);
    assert_eq!(carried_offset(step.y_carry, new_max), 100);
    assert!(after_exit(ExitReason::Quit, 7).quit);
    let r = after_exit(ExitReason::Reload, 7);
    assert!(!r.quit && r.delete_all_images && r.relayout.is_none() && r.y_carry == 7);
}

#[test]
fn config_reload_decisions() {
    assert_eq!(config_reload_outcome("catppuccin", 6, 6), (true, false));
    assert_eq!(config_reload_outcome("catppuccin", 6, 8), (true, true));
    assert_eq!(config_reload_outcome("nope", 6, 8), (false, false));
    assert_eq!(reload_flash("catppuccin", true), "Config reloaded");
    assert_eq!(reload_flash("nope", false), "Reload failed: theme 'nope': file not found");
}

#[test]
fn command_trims_unicode_space() {
    let mut cs = CommandState { input: "\u{3000}quit\u{a0}".chars().collect() };
    let e = handle_command(CommandAction::Execute, &mut cs);
    assert!(matches!(&e[0], Effect::Exit(ExitReason::Quit)));
}

#[test]
fn record_returns_dropped_ids_only() {
    let mut loaded = LoadedTiles::new(1);
    let mut ids = Vec::new();
    for t in [0usize, 1, 2] {
        let a = loaded.allocate(t).unwrap();
        ids.push(a);
        loaded.record(t, a);
    }
    assert_eq!(loaded.all().len(), 2);
    let d = loaded.allocate(3).unwrap();
    let mut evicted = loaded.record(3, d);
    evicted.sort_by_key(|i| i.content_id);
    assert_eq!(evicted, vec![ids[1]]);
    let all = loaded.all();
    assert!(all.contains(&ids[2]) && all.contains(&d) && all.len() == 2);
}

#[test]
fn snap_prefers_first_of_equal_lines() {
    let d = TiledDocument::new(
        vec![100],
        1,
        1,
        100,
        100,
        vec![vl(5, None), vl(15, None)],
    )
    .unwrap();
    assert_eq!(d.snap_to_line(10), 5);
}

#[test]
fn search_row_splits_match() {
    let (p, b, h, a) = mlux::search::search_row(7, "foo bar baz", 4, 7, 40);
    assert_eq!((p.as_str(), b.as_str(), h.as_str(), a.as_str()), ("     7: ", "foo ", "bar", " baz"));
    let (p, b, h, a) = mlux::search::search_row(12, "日本語テキスト", 3, 9, 16);
    assert_eq!(p, "    12: ");
    assert_eq!((b.as_str(), h.as_str(), a.as_str()), ("日", "本", ""));
}

#[test]
fn url_row_text() {
    assert_eq!(mlux::modes::url_row(true, 3, "Rust", "https://r.invalid", 80), " > L3    [Rust] https://r.invalid");
    assert_eq!(mlux::modes::url_row(false, 12, "", "https://x.invalid", 12), "   L12   htt");
}
