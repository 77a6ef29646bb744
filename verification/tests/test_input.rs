use rigging::input::{Input, KeyCode, KeyPress};

fn key(code: KeyCode) -> KeyPress {
    KeyPress { code, ctrl: false, alt: false, shift: false }
}

fn ctrl(c: char) -> KeyPress {
    KeyPress { code: KeyCode::Char(c), ctrl: true, alt: false, shift: false }
}

fn alt(code: KeyCode, shift: bool) -> KeyPress {
    KeyPress { code, ctrl: false, alt: true, shift }
}

fn type_text(inp: &mut Input, text: &str) {
    for c in text.chars() {
        inp.handle_key(&key(KeyCode::Char(c)), &[]);
    }
}

fn text_of(inp: &Input) -> Vec<String> {
    inp.lines.iter().map(|l| l.iter().collect()).collect()
}

#[test]
fn input_typing_and_editing() {
    let mut inp = Input::new();
    type_text(&mut inp, "helo");
    inp.handle_key(&key(KeyCode::Left), &[]);
    type_text(&mut inp, "l");
    assert_eq!(text_of(&inp), vec!["hello"]);
    assert_eq!(inp.cursor_col, 4);
    inp.handle_key(&key(KeyCode::Home), &[]);
    assert_eq!(inp.cursor_col, 0);
    inp.handle_key(&key(KeyCode::Delete), &[]);
    assert_eq!(text_of(&inp), vec!["ello"]);
    inp.handle_key(&ctrl('e'), &[]);
    inp.handle_key(&key(KeyCode::Backspace), &[]);
    assert_eq!(text_of(&inp), vec!["ell"]);
    assert_eq!(inp.cursor_col, 3);
}

#[test]
fn input_delete_word() {
    let mut inp = Input::new();
    type_text(&mut inp, "one two");
    inp.handle_key(&ctrl('w'), &[]);
    assert_eq!(text_of(&inp), vec!["one "]);
}

#[test]
fn input_single_line_submits_on_enter() {
    let mut inp = Input::new();
    type_text(&mut inp, "  hi  ");
    assert!(!inp.is_finished());
    inp.handle_key(&key(KeyCode::Enter), &[]);
    assert!(inp.is_finished());
    assert_eq!(inp.extract_output(), "hi");
}

#[test]
fn input_default_for_blank_submit() {
    let mut inp = Input::new().default_val("fallback");
    inp.handle_key(&key(KeyCode::Enter), &[]);
    assert_eq!(inp.extract_output(), "fallback");
}

#[test]
fn input_multiline_newline_and_alt_enter() {
    let mut inp = Input::new().multiline(true);
    type_text(&mut inp, "ab");
    inp.handle_key(&key(KeyCode::Enter), &[]);
    type_text(&mut inp, "cd");
    assert!(!inp.is_finished());
    assert_eq!(text_of(&inp), vec!["ab", "cd"]);
    assert_eq!((inp.cursor_line, inp.cursor_col), (1, 2));
    inp.handle_key(&alt(KeyCode::Char('k'), false), &[]);
    assert_eq!((inp.cursor_line, inp.cursor_col), (0, 2));
    inp.handle_key(&alt(KeyCode::Char('J'), true), &[]);
    assert_eq!(inp.cursor_line, 1);
    inp.handle_key(&key(KeyCode::Home), &[]);
    inp.handle_key(&key(KeyCode::Backspace), &[]);
    assert_eq!(text_of(&inp), vec!["abcd"]);
    inp.handle_key(&alt(KeyCode::Enter, false), &[]);
    assert!(inp.is_finished());
    assert_eq!(inp.extract_output(), "abcd");
}

#[test]
fn input_history_saved_on_submit() {
    let hist: Vec<String> = vec!["/a".to_string(), "/b".to_string()];
    let mut inp = Input::new().use_buffer(1, Some(2));
    type_text(&mut inp, "/c");
    let saved = inp.handle_key(&key(KeyCode::Enter), &hist);
    assert_eq!(saved, Some(vec!["/b".to_string(), "/c".to_string()]));

    let mut same = Input::new().use_buffer(1, Some(2));
    type_text(&mut same, "/b");
    assert_eq!(same.handle_key(&key(KeyCode::Enter), &hist), None);

    let mut plain = Input::new().use_buffer(1, None);
    type_text(&mut plain, "not a command");
    assert_eq!(plain.handle_key(&key(KeyCode::Enter), &hist), None);
}

#[test]
fn input_history_navigation_restores_draft() {
    let hist: Vec<String> = vec!["/first".to_string(), "/second".to_string()];
    let mut inp = Input::new().use_buffer(1, None);
    type_text(&mut inp, "draft");
    inp.handle_key(&key(KeyCode::Up), &hist);
    assert_eq!(text_of(&inp), vec!["/second"]);
    inp.handle_key(&key(KeyCode::Up), &hist);
    assert_eq!(text_of(&inp), vec!["/first"]);
    inp.handle_key(&key(KeyCode::Down), &hist);
    inp.handle_key(&key(KeyCode::Down), &hist);
    assert_eq!(text_of(&inp), vec!["draft"]);
}

#[test]
fn input_render_placeholder_secret_and_scroll() {
    let mut empty = Input::new().placeholder("type here");
    assert_eq!(empty.render_content(20), vec!["type here"]);
    let mut secret = Input::new().secret(true);
    type_text(&mut secret, "pw");
    assert_eq!(secret.render_content(20), vec!["**"]);
    let mut long = Input::new();
    type_text(&mut long, "abcdefghij");
    assert_eq!(long.render_content(5), vec!["fghij"]);
    assert_eq!(long.h_scroll, 5);
    assert_eq!(long.cursor_rel_x(), 5);
}

#[test]
fn input_vim_keys_match_arrows() {
    let mut a = Input::new().multiline(true);
    let mut b = Input::new().multiline(true);
    for inp in [&mut a, &mut b] {
        type_text(inp, "ab");
        inp.handle_key(&key(KeyCode::Enter), &[]);
        type_text(inp, "cd");
    }
    a.handle_key(&alt(KeyCode::Char('h'), false), &[]);
    b.handle_key(&key(KeyCode::Left), &[]);
    assert_eq!((a.cursor_line, a.cursor_col), (b.cursor_line, b.cursor_col));
    a.handle_key(&alt(KeyCode::Char('k'), false), &[]);
    b.handle_key(&key(KeyCode::Up), &[]);
    assert_eq!((a.cursor_line, a.cursor_col), (b.cursor_line, b.cursor_col));
    a.handle_key(&alt(KeyCode::Char('l'), false), &[]);
    b.handle_key(&key(KeyCode::Right), &[]);
    a.handle_key(&alt(KeyCode::Char('j'), false), &[]);
    b.handle_key(&key(KeyCode::Down), &[]);
    assert_eq!((a.cursor_line, a.cursor_col), (b.cursor_line, b.cursor_col));
    assert_eq!(text_of(&a), text_of(&b));
}

#[test]
fn input_multiline_enter_splits_line() {
    let mut b = Input::new().multiline(true);
    type_text(&mut b, "ab");
    b.handle_key(&key(KeyCode::Left), &[]);
    b.handle_key(&key(KeyCode::Enter), &[]);
    assert!(!b.is_finished());
    assert_eq!(text_of(&b), vec!["a", "b"]);
    assert_eq!((b.cursor_line, b.cursor_col), (1, 0));
    b.handle_key(&ctrl('j'), &[]);
    assert!(b.is_finished());
}
