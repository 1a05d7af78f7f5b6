use mlux::input::UrlAction;
use mlux::modes::{
    collect_all_url_entries, handle_url as handle, Effect, UrlPickerEntry, UrlPickerState,
    ViewerMode,
};
use mlux::tile::VisualLine;

fn make_vl(md_line_range: Option<(usize, usize)>) -> VisualLine {
    VisualLine {
        y_px: 0,
        md_line_range,
        md_line_exact: None,
    }
}

#[test]
fn test_collect_all_url_entries_basic() {
    let md =
        "See [Rust](https://rust.invalid/) here.\nPlain line.\n[Docs](https://docs.invalid/)\n";
    let vls = vec![
        make_vl(Some((1, 1))),
        make_vl(Some((2, 2))),
        make_vl(Some((3, 3))),
    ];
    let entries = collect_all_url_entries(md, &vls);
    assert_eq!(entries.len(), 2);
    assert_eq!(entries[0].url, "https://rust.invalid/");
    assert_eq!(entries[0].text, "Rust");
    assert_eq!(entries[0].visual_line, 1);
    assert_eq!(entries[1].url, "https://docs.invalid/");
    assert_eq!(entries[1].visual_line, 3);
}

#[test]
fn test_collect_all_url_entries_empty() {
    let md = "No links here.\n";
    let vls = vec![make_vl(Some((1, 1)))];
    let entries = collect_all_url_entries(md, &vls);
    assert!(entries.is_empty());
}

#[test]
fn test_collect_deduplicates_same_range() {
    let md = "See [A](https://a.invalid/) text.\n";
    // Two visual lines with the same md_line_range (can happen with multiline rendering)
    let vls = vec![make_vl(Some((1, 1))), make_vl(Some((1, 1)))];
    let entries = collect_all_url_entries(md, &vls);
    assert_eq!(entries.len(), 1);
}

#[test]
fn test_handle_select_next() {
    let entries = vec![
        UrlPickerEntry {
            url: "https://a.invalid/".into(),
            text: "A".into(),
            visual_line: 1,
        },
        UrlPickerEntry {
            url: "https://b.invalid/".into(),
            text: "B".into(),
            visual_line: 2,
        },
    ];
    let mut state = UrlPickerState::new(entries);
    assert_eq!(state.selected, 0);
    let _ = handle(UrlAction::SelectNext, &mut state);
    assert_eq!(state.selected, 1);
    // Should clamp at end
    let _ = handle(UrlAction::SelectNext, &mut state);
    assert_eq!(state.selected, 1);
}

#[test]
fn test_handle_select_prev() {
    let entries = vec![
        UrlPickerEntry {
            url: "https://a.invalid/".into(),
            text: "A".into(),
            visual_line: 1,
        },
        UrlPickerEntry {
            url: "https://b.invalid/".into(),
            text: "B".into(),
            visual_line: 2,
        },
    ];
    let mut state = UrlPickerState::new(entries);
    state.selected = 1;
    let _ = handle(UrlAction::SelectPrev, &mut state);
    assert_eq!(state.selected, 0);
    // Should clamp at 0
    let _ = handle(UrlAction::SelectPrev, &mut state);
    assert_eq!(state.selected, 0);
}

#[test]
fn test_handle_confirm_opens_selected() {
    let entries = vec![
        UrlPickerEntry {
            url: "https://a.invalid/".into(),
            text: "A".into(),
            visual_line: 1,
        },
        UrlPickerEntry {
            url: "https://b.invalid/".into(),
            text: "B".into(),
            visual_line: 2,
        },
    ];
    let mut state = UrlPickerState::new(entries);
    state.selected = 1;
    let effects = handle(UrlAction::Confirm, &mut state);
    assert!(
        effects
            .iter()
            .any(|e| matches!(e, Effect::OpenUrl(u) if u == "https://b.invalid/"))
    );
}

#[test]
fn test_handle_cancel_returns_normal() {
    let entries = vec![UrlPickerEntry {
        url: "https://a.invalid/".into(),
        text: "A".into(),
        visual_line: 1,
    }];
    let mut state = UrlPickerState::new(entries);
    let effects = handle(UrlAction::Cancel, &mut state);
    assert!(
        effects
            .iter()
            .any(|e| matches!(e, Effect::SetMode(ViewerMode::Normal)))
    );
}
