use rigging::ansi::get_active_text_color;
use rigging::ansi::CellAlign;
use rigging::block::BlockStyle;
use rigging::highlight::SyntaxHighlighter;
use rigging::md::markdown;
use rigging::style::{Align, BorderStyle, StripeStyle};
use rigging::superscript::to_superscript;
use rigging::table::table_layout_exec;
use rigging::text_widget::get_stripe_char;

fn cells(v: &[&[&str]]) -> Vec<Vec<Vec<char>>> {
    v.iter().map(|r| r.iter().map(|c| c.chars().collect()).collect()).collect()
}

#[test]
fn markdown_plain_paragraph() {
    assert_eq!(markdown("hello", 80), "hello\n");
    assert_eq!(markdown("one\n\ntwo", 80), "one\n\ntwo\n");
}

#[test]
fn markdown_wraps_paragraphs() {
    assert_eq!(markdown("aaa bbb ccc", 7), "aaa bbb\nccc\n");
}

#[test]
fn table_layout_fits_natural_widths() {
    let rows = cells(&[&["a", "bb"], &["ccc", "d"]]);
    let out: String = table_layout_exec(&rows, &vec![CellAlign::Left, CellAlign::Right], 80).into_iter().collect();
    let plain = strip_ansi_escapes::strip_str(&out);
    assert_eq!(plain, "┌─────┬────┐\n│ a   │ bb │\n├─────┼────┤\n│ ccc │  d │\n└─────┴────┘\n");
}

#[test]
fn table_layout_without_rows() {
    let rows: Vec<Vec<Vec<char>>> = Vec::new();
    assert!(table_layout_exec(&rows, &vec![], 80).is_empty());
}

#[test]
fn highlight_wraps_plain_code() {
    assert_eq!(SyntaxHighlighter::wrap_plain_code("abcdef", Some(4)), "abcd\x1b[0m\nef");
    assert_eq!(SyntaxHighlighter::wrap_plain_code("a\r\nb\rc", None), "a\nb\nc");
    assert_eq!(SyntaxHighlighter::wrap_highlighted_code("xyz", 0), "xyz");
}

#[test]
fn highlight_keeps_color_across_cut() {
    let out = SyntaxHighlighter::wrap_highlighted_code("\x1b[31mabcd", 2);
    assert_eq!(out, "\x1b[31mab\x1b[0m\n\x1b[31mcd");
}

#[test]
fn superscript_digits() {
    assert_eq!(to_superscript("123").unwrap(), "¹²³");
    assert!(to_superscript("1?").is_err());
}

#[test]
fn stripe_chars() {
    assert_eq!(get_stripe_char(StripeStyle::Hidden), None);
    assert_eq!(get_stripe_char(StripeStyle::Single), Some('│'));
}

#[test]
fn block_overheads_and_builders() {
    let b = BlockStyle::new().border_style(BorderStyle::Rounded).padding_hor(2).margin_top(1).title("T", Align::TopLeft);
    assert_eq!(b.padding.left, 2);
    assert_eq!(b.padding.right, 2);
    assert_eq!(b.margin.top, 1);
    assert_eq!(b.titles.len(), 1);
    assert_eq!(b.horizontal_overhead(), 6);
    assert_eq!(b.vertical_overhead(), 2);
    let w = BlockStyle::new().width(10);
    assert_eq!(w.min_width, Some(10));
    assert_eq!(w.max_width, Some(10));
}

#[test]
fn markdown_code_block_plain_and_highlighted() {
    let plain = strip_ansi_escapes::strip_str(&markdown("```\nabcdef\n```", 6));
    assert_eq!(plain, "│ abcd\n│ ef\n");
    let rust = strip_ansi_escapes::strip_str(&markdown("```rust\nlet x = 1;\n```", 40));
    assert_eq!(rust, "│ rust\n│ let x = 1;\n");
}

#[test]
fn block_viewport_keeps_latest_lines() {
    let st = BlockStyle::new();
    let raw: Vec<String> = (0..10).map(|i| format!("l{}", i)).collect();
    let out = st.render_frame_with_viewport(&raw, 80, Some(4));
    let plain: Vec<String> = out.iter().map(|l| strip_ansi_escapes::strip_str(l).trim_end().to_string()).collect();
    assert_eq!(plain, vec!["l6", "l7", "l8", "l9"]);
    let all = st.render_frame_with_viewport(&raw, 80, None);
    assert_eq!(all.len(), 10);
    let boxed = BlockStyle::new().border_style(BorderStyle::Rounded);
    assert_eq!(boxed.render_frame_with_viewport(&raw, 80, Some(5)).len(), 5);
}

#[test]
fn wrap_paragraph_carries_color_to_next_line() {
    let lines = rigging::ansi::wrap_paragraph("\x1b[31mred words here", 9);
    assert_eq!(lines, vec!["\x1b[31mred words".to_string(), "\x1b[31mhere".to_string()]);
}

#[test]
fn markdown_blocks() {
    let out = strip_ansi_escapes::strip_str(&markdown("# Title\n\n- a\n- b\n\n> q", 40));
    assert_eq!(out, "Title\n\n• a\n• b\n\n│ q\n");
    let ordered = strip_ansi_escapes::strip_str(&markdown("1. x\n2. y", 40));
    assert_eq!(ordered, "1. x\n2. y\n");
    let small = strip_ansi_escapes::strip_str(&markdown("### Sub", 40));
    assert_eq!(small, "• Sub\n");
}

#[test]
fn markdown_table() {
    let out = strip_ansi_escapes::strip_str(&markdown("| a | b |\n| - | - |\n| 1 | 2 |", 40));
    assert_eq!(out, "┌───┬───┐\n│ a │ b │\n├───┼───┤\n│ 1 │ 2 │\n└───┴───┘\n");
}

#[test]
fn markdown_plain_code_wrap() {
    let code: Vec<char> = "aaa bbb\ncc".chars().collect();
    let out: String = rigging::md::wrap_plain_code(&code, 4).into_iter().collect();
    assert_eq!(out, "aaa\nbbb\ncc");
    let same: String = rigging::md::wrap_plain_code(&code, 0).into_iter().collect();
    assert_eq!(same, "aaa bbb\ncc");
}

#[test]
fn active_color_skips_background_arguments() {
    assert_eq!(get_active_text_color("\x1b[48;5;34mText"), None);
    assert_eq!(get_active_text_color("\x1b[48;2;31;0;0mText"), None);
    assert_eq!(get_active_text_color("\x1b[31m\x1b[48;2;0;0;0mX"), Some("\x1b[31m".to_string()));
    assert_eq!(get_active_text_color("\x1b[48;5;1;32mX"), Some("\x1b[32m".to_string()));
    assert_eq!(get_active_text_color("\x1b[32m\x1b[0mX"), None);
}

#[test]
fn split_token_chunks_fit_width() {
    let parts = rigging::ansi::split_token_by_width("abcde", 2);
    assert_eq!(parts, vec!["ab", "cd", "e"]);
    assert_eq!(rigging::ansi::visible_width("hello"), 5);
}

#[test]
fn block_final_frame() {
    let raw: Vec<String> = (0..10).map(|i| format!("l{}", i)).collect();
    let st = BlockStyle::new().max_height(3);
    let out = st.final_frame(&raw, 80);
    assert_eq!(out.len(), 10);
    let removed = BlockStyle { remove_on_finish: true, ..BlockStyle::new() };
    assert!(removed.final_frame(&raw, 80).is_empty());
}

#[test]
fn ascii_width_laws_on_examples() {
    assert_eq!(rigging::ansi::truncate_str("hello", 3), "hel");
    assert_eq!(rigging::ansi::truncate_str("hi", 3), "hi");
    let lines = rigging::ansi::wrap_paragraph("aaa bbb ccccccccc dd", 7);
    assert_eq!(lines, vec!["aaa bbb", "ccccccc", "cc dd"]);
    assert!(lines.iter().all(|l| l.chars().count() <= 7));
}
