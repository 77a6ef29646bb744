use crossterm::style::Stylize;
use rigging::highlight::{highlight_events, HlEvent, SyntaxHighlighter};
use rigging::paint::TermColor;
use rigging::theme::{highlight_names, CodeTheme};

fn color_on() -> bool {
    format!("{}", "x".red()) != "x"
}

#[test]
fn highlight_rust_keeps_the_text() {
    let code = "fn main() { let x = 1; }\n";
    let out = SyntaxHighlighter::highlight(code, Some("rust"), &CodeTheme::default(), None);
    assert_eq!(strip_ansi_escapes::strip_str(&out), code);
    if color_on() {
        assert!(out.contains("\x1b["));
    }
}

#[test]
fn highlight_language_name_in_any_case() {
    let code = "fn main() {}";
    let theme = CodeTheme::default();
    let lower = SyntaxHighlighter::highlight(code, Some("rust"), &theme, None);
    let upper = SyntaxHighlighter::highlight(code, Some("RuSt"), &theme, None);
    let short = SyntaxHighlighter::highlight(code, Some("rs"), &theme, None);
    assert_eq!(lower, upper);
    assert_eq!(lower, short);
    if color_on() {
        assert_ne!(upper, code);
    }
}

#[test]
fn highlight_unknown_language_is_plain() {
    let theme = CodeTheme::default();
    assert_eq!(SyntaxHighlighter::highlight("a\r\nb\rc", Some("cobol"), &theme, None), "a\nb\nc");
    assert_eq!(SyntaxHighlighter::highlight("abcdef", None, &theme, Some(4)), "abcd\x1b[0m\nef");
}

#[test]
fn highlight_json_wraps_to_width() {
    let code = "{\"key\": \"value\"}";
    let out = SyntaxHighlighter::highlight(code, Some("json"), &CodeTheme::default(), Some(6));
    let plain = strip_ansi_escapes::strip_str(&out);
    assert_eq!(plain, "{\"key\"\n: \"val\nue\"}");
}

#[test]
fn highlight_events_fragments_and_stack() {
    let theme = CodeTheme::default();
    let evs = vec![
        HlEvent::Start(0),
        HlEvent::Source { start: 0, end: 2 },
        HlEvent::End,
        HlEvent::Source { start: 2, end: 5 },
    ];
    let out = highlight_events("ab cd", &evs, &theme, None);
    assert_eq!(strip_ansi_escapes::strip_str(&out), "ab cd");
    assert!(out.ends_with(" cd"));
}

#[test]
fn highlight_events_stop_at_error_or_bad_range() {
    let theme = CodeTheme::default();
    let evs = vec![HlEvent::Source { start: 0, end: 1 }, HlEvent::Error, HlEvent::Source { start: 1, end: 3 }];
    assert_eq!(highlight_events("abc", &evs, &theme, None), "a");
    let bad = vec![HlEvent::Source { start: 0, end: 2 }, HlEvent::Source { start: 2, end: 9 }];
    assert_eq!(highlight_events("abc", &bad, &theme, None), "ab");
}

#[test]
fn theme_colors_by_capture_index() {
    let theme = CodeTheme::default();
    assert_eq!(theme.color_for_index(0), theme.keyword);
    assert_eq!(theme.color_for_index(2), theme.types);
    assert_eq!(theme.color_for_index(5), theme.macro_name);
    assert_eq!(theme.color_for_index(15), TermColor::Reset);
    let names = highlight_names();
    assert_eq!(names.len(), 15);
    assert_eq!(names[0], "keyword");
    assert_eq!(names[14], "constant");
}
