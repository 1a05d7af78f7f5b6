use mlux::tile::VisualLine;
use mlux::url::{extract_urls, extract_urls_from_lines};

fn make_vl(md_line_range: Option<(usize, usize)>) -> VisualLine {
    VisualLine {
        y_px: 0,
        md_line_range,
        md_line_exact: None,
    }
}

#[test]
fn test_extract_urls_single_link() {
    let md = "Check [Rust](https://rust.invalid/) for details.\n";
    let vls = vec![make_vl(Some((1, 1)))];
    let urls = extract_urls(md, &vls, 0);
    assert_eq!(urls.len(), 1);
    assert_eq!(urls[0].url, "https://rust.invalid/");
    assert_eq!(urls[0].text, "Rust");
}

#[test]
fn test_extract_urls_multiple_links() {
    let md = "See [A](https://a.invalid/) and [B](https://b.invalid/).\n";
    let vls = vec![make_vl(Some((1, 1)))];
    let urls = extract_urls(md, &vls, 0);
    assert_eq!(urls.len(), 2);
    assert_eq!(urls[0].url, "https://a.invalid/");
    assert_eq!(urls[0].text, "A");
    assert_eq!(urls[1].url, "https://b.invalid/");
    assert_eq!(urls[1].text, "B");
}

#[test]
fn test_extract_urls_no_links() {
    let md = "Just plain text, no links here.\n";
    let vls = vec![make_vl(Some((1, 1)))];
    let urls = extract_urls(md, &vls, 0);
    assert!(urls.is_empty());
}

#[test]
fn test_extract_urls_no_source_mapping() {
    let md = "Has [link](https://example.invalid/) but no mapping.\n";
    let vls = vec![make_vl(None)];
    let urls = extract_urls(md, &vls, 0);
    assert!(urls.is_empty());
}

#[test]
fn test_extract_urls_out_of_bounds() {
    let md = "Some text\n";
    let vls = vec![make_vl(Some((1, 1)))];
    let urls = extract_urls(md, &vls, 5);
    assert!(urls.is_empty());
}

#[test]
fn test_extract_urls_multiline_block() {
    let md = "Line 1\n[link1](https://one.invalid/)\n[link2](https://two.invalid/)\nLine 4\n";
    let vls = vec![make_vl(Some((2, 3)))];
    let urls = extract_urls(md, &vls, 0);
    assert_eq!(urls.len(), 2);
    assert_eq!(urls[0].url, "https://one.invalid/");
    assert_eq!(urls[0].text, "link1");
    assert_eq!(urls[1].url, "https://two.invalid/");
    assert_eq!(urls[1].text, "link2");
}

#[test]
fn test_extract_urls_bare_url() {
    let md = "Check https://rust-lang.invalid/ for more\n";
    let urls = extract_urls_from_lines(md, 1, 1);
    assert_eq!(urls.len(), 1);
    assert_eq!(urls[0].url, "https://rust-lang.invalid/");
    assert_eq!(urls[0].text, "https://rust-lang.invalid/");
}

#[test]
fn test_extract_urls_mixed_link_and_bare() {
    let md = "[Rust](https://rust-lang.invalid) and https://crates.invalid\n";
    let urls = extract_urls_from_lines(md, 1, 1);
    assert_eq!(urls.len(), 2);
    assert_eq!(urls[0].url, "https://rust-lang.invalid");
    assert_eq!(urls[0].text, "Rust");
    assert_eq!(urls[1].url, "https://crates.invalid");
    assert_eq!(urls[1].text, "https://crates.invalid");
}

#[test]
fn test_extract_urls_bare_duplicate_with_link() {
    let md = "[Rust](https://rust-lang.invalid) and https://rust-lang.invalid\n";
    let urls = extract_urls_from_lines(md, 1, 1);
    assert_eq!(urls.len(), 1, "duplicate bare URL should be deduplicated");
    assert_eq!(urls[0].url, "https://rust-lang.invalid");
    assert_eq!(urls[0].text, "Rust");
}

#[test]
fn test_extract_urls_bare_urls_in_list() {
    let md = "- https://help.x.com/ja/using-x/create-a-thread\n- https://help.x.com/en/using-x/types-of-posts\n";
    let urls = extract_urls_from_lines(md, 1, 2);
    assert_eq!(urls.len(), 2, "each list item should produce one URL");
    assert_eq!(urls[0].url, "https://help.x.com/ja/using-x/create-a-thread");
    assert_eq!(urls[1].url, "https://help.x.com/en/using-x/types-of-posts");
}
