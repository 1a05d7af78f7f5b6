use mlux::convert::{
    escape_typst, fill_blank_lines, markdown_to_typst, markdown_to_typst_with_map, max_backtick_run,
    MAX_BLOCKQUOTE_DEPTH,
};
#[test]
fn test_plain_text() {
    let md = "Hello, world!";
    let typst = markdown_to_typst(md);
    assert_eq!(typst, "Hello, world!\n");
}

#[test]
fn test_escape_special_chars() {
    assert_eq!(escape_typst("#hello"), "\\#hello");
    assert_eq!(escape_typst("a * b"), "a \\* b");
    assert_eq!(escape_typst("$100"), "\\$100");
    assert_eq!(escape_typst("foo(bar)"), "foo\\(bar\\)");
    assert_eq!(escape_typst("foo[bar]"), "foo\\[bar\\]");
}

#[test]
fn test_emph_followed_by_paren() {
    // crash-e263b8df: **Note*(: → \*#emph[Note](: → Typst が関数呼び出しと誤解釈
    let md = "**Note*(: text";
    let typst = markdown_to_typst(md);
    assert!(
        !typst.contains("]("),
        "'](' は Typst が関数引数と解釈するため不可: {typst}"
    );
    assert!(
        typst.contains("]\\("),
        "']' の直後の '(' は '\\(' にエスケープされるべき: {typst}"
    );
}

#[test]
fn test_bracket_in_heading() {
    // crash-b305e5d4: ## text](url) → ] が Typst の unexpected closing bracket
    let md = "## エanguage](https://doc.rust-lang.org/book/) を参照。";
    let typst = markdown_to_typst(md);
    assert!(
        !typst.contains("]("),
        "'](' は Typst がコンテントブロック閉じと解釈するため不可: {typst}"
    );
    assert!(
        typst.contains("\\]"),
        "テキスト中の ']' は '\\]' にエスケープされるべき: {typst}"
    );
}

#[test]
fn test_brackets_in_text() {
    let md = "配列 arr[0] と [注釈] を含む文";
    let typst = markdown_to_typst(md);
    assert!(
        typst.contains("arr\\[0\\]"),
        "テキスト中の角括弧はエスケープされるべき: {typst}"
    );
    assert!(
        typst.contains("\\[注釈\\]"),
        "テキスト中の角括弧はエスケープされるべき: {typst}"
    );
}

#[test]
fn test_link_text_with_bracket() {
    let md = "[foo]bar](https://example.com)";
    let typst = markdown_to_typst(md);
    // 構造的な ] は convert.rs が直接 push、テキスト中の ] は escape される
    assert!(
        !typst.contains("bar]("),
        "リンクテキスト内の ']' は '\\]' にエスケープされるべき: {typst}"
    );
}

#[test]
fn test_parens_in_text() {
    let md = "関数 foo(x, y) を呼ぶ";
    let typst = markdown_to_typst(md);
    assert!(
        typst.contains("foo\\(x, y\\)"),
        "テキスト中の括弧はエスケープされるべき: {typst}"
    );
}

#[test]
fn test_strong_followed_by_paren() {
    let md = "**bold** (note)";
    let typst = markdown_to_typst(md);
    assert!(
        !typst.contains("]("),
        "'](' は Typst が関数引数と解釈するため不可: {typst}"
    );
}

#[test]
fn test_soft_break() {
    let md = "line1\nline2";
    let typst = markdown_to_typst(md);
    assert_eq!(typst, "line1\nline2\n");
}

#[test]
fn test_hard_break() {
    let md = "line1  \nline2";
    let typst = markdown_to_typst(md);
    assert_eq!(typst, "line1\\ \nline2\n");
}

#[test]
fn test_japanese_text() {
    let md = "日本語のテスト。句読点「、」も正しく処理される。";
    let typst = markdown_to_typst(md);
    assert!(typst.contains("日本語のテスト。"));
}

#[test]
fn test_multiple_paragraphs() {
    let md = "段落1。\n\n段落2。";
    let typst = markdown_to_typst(md);
    assert_eq!(typst, "段落1。\n\n段落2。\n");
}

#[test]
fn test_heading() {
    let md = "# Title\n\n## Subtitle";
    let typst = markdown_to_typst(md);
    assert!(typst.contains("= Title\n"));
    assert!(typst.contains("== Subtitle\n"));
}

#[test]
fn test_bold_italic() {
    let md = "**bold** and *italic*";
    let typst = markdown_to_typst(md);
    assert!(typst.contains("#strong[bold]"));
    assert!(typst.contains("#emph[italic]"));
}

#[test]
fn test_emphasis_function_syntax() {
    // fuzzer crash-301940: **Note*ks*: with delimiter syntax produced
    // \*\*Note_ks_: causing "unclosed delimiter" in Typst.
    // Function syntax (#emph[...]) avoids this class of bugs.
    let md = "**Note*ks*: hello";
    let typst = markdown_to_typst(md);
    assert!(
        typst.contains("#emph[ks]"),
        "should use #emph[] function syntax, got: {typst}"
    );
    assert!(
        !typst.contains("_ks_"),
        "should not produce _..._ delimiters, got: {typst}"
    );
}

#[test]
fn test_strikethrough() {
    let md = "~~deleted~~";
    let typst = markdown_to_typst(md);
    assert!(typst.contains("#strike[deleted]"));
}

#[test]
fn test_inline_code() {
    let md = "Use `Result<T, E>` type";
    let typst = markdown_to_typst(md);
    assert!(typst.contains("`Result<T, E>`"));
}

#[test]
fn test_inline_code_with_backticks() {
    // pulldown-cmark parses `` ` `` as Code("`")
    let md = "Use `` ` `` in code";
    let typst = markdown_to_typst(md);
    assert!(
        typst.contains("#raw(\"`\")"),
        "expected #raw() call for backtick-containing code, got: {typst}"
    );
}

#[test]
fn test_inline_code_with_triple_backticks() {
    // pulldown-cmark parses `` ` ``` ` `` as Code("```")
    let md = "` ``` `";
    let typst = markdown_to_typst(md);
    assert!(
        typst.contains("#raw(\"```\")"),
        "expected #raw() for triple backticks, got: {typst}"
    );
    assert!(
        !typst.contains("`````"),
        "should not produce raw backtick delimiters, got: {typst}"
    );
}

#[test]
fn test_inline_code_with_backticks_in_table() {
    let md = "| Header |\n|--------|\n| `` ` `` |";
    let typst = markdown_to_typst(md);
    assert!(typst.contains("#table("), "expected table markup, got: {typst}");
    assert!(
        typst.contains("#raw(\"`\")"),
        "expected #raw() in table cell, got: {typst}"
    );
}

#[test]
fn test_link() {
    let md = "[Rust](https://www.rust-lang.org/)";
    let typst = markdown_to_typst(md);
    assert!(typst.contains("#link(\"https://www.rust-lang.org/\")[Rust]"));
}

#[test]
fn test_link_empty_url() {
    let md = "[link]()";
    let typst = markdown_to_typst(md);
    assert!(!typst.contains("#link"), "empty URL should not produce #link");
    assert!(typst.contains("link"));
}

#[test]
fn test_code_block() {
    let md = "```rust\nfn main() {}\n```";
    let typst = markdown_to_typst(md);
    assert!(typst.contains("```rust\nfn main() {}\n```"));
}

#[test]
fn test_unordered_list() {
    let md = "- item1\n- item2";
    let typst = markdown_to_typst(md);
    assert!(typst.contains("- item1\n"));
    assert!(typst.contains("- item2\n"));
}

#[test]
fn test_ordered_list() {
    let md = "1. first\n2. second";
    let typst = markdown_to_typst(md);
    assert!(typst.contains("+ first\n"));
    assert!(typst.contains("+ second\n"));
}

#[test]
fn test_blockquote() {
    let md = "> quoted text";
    let typst = markdown_to_typst(md);
    assert!(typst.contains("#quote(block: true)["));
    assert!(typst.contains("quoted text"));
}

#[test]
fn test_horizontal_rule() {
    let md = "before\n\n---\n\nafter";
    let typst = markdown_to_typst(md);
    assert!(typst.contains("#line(length: 100%)"));
}

#[test]
fn test_rule_inside_list() {
    // pulldown-cmark parses "+\t---" as an unordered list item containing
    // a thematic break (Rule event), not plain text.
    let md = "+\t---\t\t";
    let typst = markdown_to_typst(md);
    assert!(typst.contains("- "), "should produce unordered list marker");
    assert!(typst.contains("#line(length: 100%)"), "should produce horizontal rule");
}

#[test]
fn test_rule_inside_list_source_map() {
    // crash-823d13a0: list item containing --- emitted a Rule source mapping
    // that overlapped with the enclosing List block mapping.
    let md = "+\t---\t\t";
    let (typst, map) = markdown_to_typst_with_map(md);
    for pair in map.blocks.windows(2) {
        assert!(
            pair[0].typst_byte_range.end <= pair[1].typst_byte_range.start,
            "overlapping typst ranges: {:?} and {:?}",
            pair[0].typst_byte_range,
            pair[1].typst_byte_range,
        );
    }
    for block in &map.blocks {
        assert!(
            block.typst_byte_range.end <= typst.len(),
            "typst_byte_range {:?} out of bounds",
            block.typst_byte_range,
        );
    }
}

#[test]
fn test_table() {
    let md = "| A | B |\n|---|---|\n| 1 | 2 |";
    let typst = markdown_to_typst(md);
    assert!(typst.contains("#table(columns: 2,"));
    assert!(typst.contains("[A]"));
    assert!(typst.contains("[B]"));
    assert!(typst.contains("[1]"));
    assert!(typst.contains("[2]"));
}

#[test]
fn test_code_block_no_escape() {
    // Characters inside code blocks should NOT be escaped
    let md = "```\n#hello *world* $100\n```";
    let typst = markdown_to_typst(md);
    assert!(
        typst.contains("#hello *world* $100"),
        "Code block content should not be escaped, got: {typst}"
    );
}

#[test]
fn test_code_block_blank_lines_filled() {
    let md = "```\nline1\n\nline3\n```";
    let typst = markdown_to_typst(md);
    // Blank line should be replaced with a space
    assert!(
        typst.contains("line1\n \nline3"),
        "Blank lines in code blocks should be filled with a space, got: {typst}"
    );
}

#[test]
fn test_code_block_multiple_blank_lines() {
    let md = "```\nline1\n\n\nline4\n```";
    let typst = markdown_to_typst(md);
    // Two consecutive blank lines should each get a space
    assert!(
        typst.contains("line1\n \n \nline4"),
        "Multiple blank lines should each be filled, got: {typst}"
    );
}

#[test]
fn test_code_block_containing_backtick_fence() {
    let md = "````\n```rust\nfn main() {}\n```\n````";
    let typst = markdown_to_typst(md);
    // The generated fence must be longer than the 3-backtick run inside
    assert!(
        typst.contains("````"),
        "fence should be at least 4 backticks, got: {typst}"
    );
    assert!(
        typst.contains("```rust\nfn main() {}\n```"),
        "content should be preserved verbatim, got: {typst}"
    );
}

#[test]
fn test_max_backtick_run() {
    assert_eq!(max_backtick_run(""), 0);
    assert_eq!(max_backtick_run("no backticks"), 0);
    assert_eq!(max_backtick_run("a`b"), 1);
    assert_eq!(max_backtick_run("```"), 3);
    assert_eq!(max_backtick_run("a```b``c"), 3);
    assert_eq!(max_backtick_run("``````"), 6);
}

#[test]
fn test_blockquote_depth_capped() {
    // 15段ネスト → 最初の10段のみ #quote 出力
    let input = "> ".repeat(15) + "deep";
    let result = markdown_to_typst(&input);
    let quote_count = result.matches("#quote(block: true)[").count();
    assert_eq!(quote_count, MAX_BLOCKQUOTE_DEPTH);
    assert!(result.contains("deep"));
}

#[test]
fn test_fill_blank_lines() {
    assert_eq!(fill_blank_lines("a\n\nb\n"), "a\n \nb\n");
    assert_eq!(fill_blank_lines("a\n\n\nb\n"), "a\n \n \nb\n");
    assert_eq!(fill_blank_lines("a\nb\n"), "a\nb\n"); // no blanks
    assert_eq!(fill_blank_lines("a\n"), "a\n"); // trailing newline preserved
}

#[test]
fn test_convert_escapes_typst_chars() {
    let md = "Price is $100 and use #hashtag";
    let typst = markdown_to_typst(md);
    assert!(typst.contains("\\$100"), "$ should be escaped");
    assert!(typst.contains("\\#hashtag"), "# should be escaped");
}
