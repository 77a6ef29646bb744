use rigging::confirm::{ConfirmPrompt, Confirmation};
use rigging::fields::{apply_fields_op, strip_ansi_len, FieldItem, Fields, FieldsOp};
use rigging::input::{KeyCode, KeyPress};
use rigging::line::Line;
use rigging::list::{List, ListOp};
use rigging::progress::ProgressBar;
use rigging::select::SelectMenu;
use rigging::style::SpinnerStyle;
use rigging::table_widget::{Table, TableOp};
use rigging::text_widget::Text;
use rigging::tree::{Tree, TreeNode};

fn key(code: KeyCode) -> KeyPress {
    KeyPress { code, ctrl: false, alt: false, shift: false }
}

fn strip(s: &str) -> String {
    strip_ansi_escapes::strip_str(s)
}

#[test]
fn select_moves_and_wraps() {
    let items = vec!["a".to_string(), "b".to_string(), "c".to_string()];
    let mut m = SelectMenu::new("Pick", items);
    m.handle_key(key(KeyCode::Up));
    assert_eq!(m.selected_idx, 2);
    m.handle_key(key(KeyCode::Down));
    assert_eq!(m.selected_idx, 0);
    m.handle_key(key(KeyCode::Char('2')));
    assert_eq!(m.selected_idx, 1);
    m.handle_key(key(KeyCode::Char('9')));
    assert_eq!(m.selected_idx, 1);
    m.handle_key(key(KeyCode::Enter));
    assert!(m.is_finished());
    assert_eq!(m.extract_output(), Some(1));
    assert_eq!(m.extract_output(), None);
}

#[test]
fn select_escape_cancels() {
    let mut m = SelectMenu::new("Pick", vec!["a".to_string()]);
    m.handle_key(key(KeyCode::Esc));
    assert!(m.is_finished());
    assert_eq!(m.extract_output(), None);
}

#[test]
fn select_renders_numbers() {
    let items = vec!["first".to_string(), "second".to_string()];
    let mut m = SelectMenu::new("Pick one", items);
    let lines = m.render_frame();
    assert_eq!(lines.len(), 3);
    assert_eq!(lines[0], "Pick one");
    assert_eq!(strip(&lines[1]), "  > 1. first");
    assert_eq!(lines[2], "    2. second");
    assert!(!m.is_changed());
}

#[test]
fn confirm_answers() {
    let mut c = ConfirmPrompt::new("Continue?");
    c.handle_key(key(KeyCode::Enter));
    assert!(!c.is_finished());
    c.handle_key(key(KeyCode::Char('Y')));
    assert!(c.is_finished());
    assert_eq!(c.extract_output(), Some(Confirmation::Yes));

    let mut d = ConfirmPrompt::new("Continue?").default(Confirmation::No);
    d.handle_key(key(KeyCode::Enter));
    assert_eq!(d.extract_output(), Some(Confirmation::No));

    let mut e = ConfirmPrompt::new("Continue?").default(Confirmation::Yes);
    e.handle_key(KeyPress { code: KeyCode::Char('j'), ctrl: true, alt: false, shift: false });
    assert_eq!(e.extract_output(), Some(Confirmation::Yes));
}

#[test]
fn confirm_renders_hint_after_question() {
    let mut c = ConfirmPrompt::new("Go on?").markdown(false).default(Confirmation::Yes);
    let lines = c.render_frame(Some(40));
    assert_eq!(lines.len(), 1);
    assert_eq!(strip(&lines[0]), "Go on? [Y/n]");
}

#[test]
fn list_navigation() {
    let mut l = List::new().item("one").item("two").item("three");
    assert!(!l.handle_navigation(key(KeyCode::Up)));
    assert_eq!(l.selected_index, Some(2));
    l.handle_navigation(key(KeyCode::Down));
    assert_eq!(l.selected_index, Some(0));
    l.handle_navigation(key(KeyCode::End));
    assert_eq!(l.selected_index, Some(2));
    l.handle_navigation(KeyPress { code: KeyCode::Tab, ctrl: false, alt: false, shift: true });
    assert_eq!(l.selected_index, Some(1));
    assert!(l.handle_navigation(key(KeyCode::Enter)));
    let (i, s) = l.extract_output();
    assert_eq!(i, 1);
    assert_eq!(s, "two");
}

#[test]
fn list_render_and_ops() {
    let mut l = List::new().bullet(rigging::style::BulletStyle::Dash, None);
    l.apply(ListOp::Add("alpha".to_string()));
    l.apply(ListOp::Add("beta".to_string()));
    assert!(l.render_content(0).is_empty());
    let lines = l.render_content(40);
    assert_eq!(lines.len(), 2);
    assert_eq!(lines[1], "- beta\x1b[0m");
    l.apply(ListOp::Clear);
    assert!(l.items.is_empty());
}

#[test]
fn tree_renders_connectors() {
    let root = TreeNode::new("root")
        .child(TreeNode::new("a").child(TreeNode::new("c")))
        .child(TreeNode::new("b"));
    let t = Tree::new(root);
    let lines = t.render_content();
    assert_eq!(lines, vec!["root", "├── a", "│   └── c", "└── b"]);
}

#[test]
fn tree_add_to_path() {
    let mut root = TreeNode::new("root").child(TreeNode::new("a")).child(TreeNode::new("b"));
    assert!(root.add_to_path("b", TreeNode::new("x")));
    assert_eq!(root.children[1].children.len(), 1);
    assert_eq!(root.children[1].children[0].label, "x");
    assert!(!root.add_to_path("missing", TreeNode::new("y")));
    let lines = Tree::new(root).render_content();
    assert_eq!(lines.len(), 4);
}

#[test]
fn fields_strip_and_layout() {
    assert_eq!(strip_ansi_len("\x1b[31mred\x1b[0m"), 3);
    assert_eq!(strip_ansi_len("plain"), 5);
    let f = Fields::new().field("a", "1").field("bbb", "2");
    let lines = f.render_content(80);
    assert_eq!(lines, vec!["a   : 1", "bbb : 2"]);
}

#[test]
fn fields_cut_long_values() {
    let f = Fields::new().field("k", "abcdefghij");
    let lines = f.render_content(12);
    assert_eq!(lines, vec!["k : abcde..."]);
}

#[test]
fn fields_ops() {
    let mut items: Vec<FieldItem> = Vec::new();
    apply_fields_op(&mut items, FieldsOp::SetField("a".to_string(), "1".to_string()));
    apply_fields_op(&mut items, FieldsOp::SetField("a".to_string(), "2".to_string()));
    assert_eq!(items.len(), 1);
    assert_eq!(items[0].value, "2");
    apply_fields_op(&mut items, FieldsOp::SetField("b".to_string(), "3".to_string()));
    apply_fields_op(&mut items, FieldsOp::RemoveField("a".to_string()));
    assert_eq!(items.len(), 1);
    assert_eq!(items[0].label, "b");
    apply_fields_op(&mut items, FieldsOp::Clear);
    assert!(items.is_empty());
}

#[test]
fn progress_layout() {
    let (bar, st) = ProgressBar::new(5, 10);
    assert_eq!(bar.bar_width(&st, 20, 50), 15);
    let line = bar.compose(&st, 20, 50, 8);
    assert_eq!(line, format!("{}{}  50%\x1b[0m", "█".repeat(8), "░".repeat(7)));
    assert_eq!(bar.compose(&st, 0, 50, 8), "");
    let (bar2, st2) = ProgressBar::new_with_label(1, 2, "Load");
    assert_eq!(bar2.bar_width(&st2, 4, 100), 0);
    assert_eq!(bar2.compose(&st2, 4, 100, 0), "Load  100%\x1b[0m");
}

#[test]
fn line_fills_width() {
    let l = Line::new();
    let out = l.render_content(5);
    assert_eq!(out.len(), 1);
    assert_eq!(strip(&out[0]), "──────");
}

#[test]
fn table_widget_layout() {
    let headers = vec!["Name".to_string(), "Age".to_string()];
    let t = Table::new(&headers).row(&vec!["Bob".to_string(), "42".to_string()]);
    let lines: Vec<String> = t.render_content(80).iter().map(|l| strip(l)).collect();
    assert_eq!(lines, vec![
        "┌──────┬─────┐",
        "│ Name │ Age │",
        "├──────┼─────┤",
        "│ Bob  │ 42  │",
        "└──────┴─────┘",
    ]);
}

#[test]
fn table_widget_ops_and_multiline() {
    let headers = vec!["A".to_string()];
    let mut t = Table::new(&headers);
    t.apply(TableOp::AddRow(vec!["x\ny".to_string()]));
    t.apply(TableOp::AddRow(vec!["z".to_string()]));
    let lines: Vec<String> = t.render_content(80).iter().map(|l| strip(l)).collect();
    assert_eq!(lines.len(), 8);
    assert_eq!(lines[3], "│ x │");
    assert_eq!(lines[4], "│ y │");
    assert_eq!(lines[5], "├───┤");
    t.apply(TableOp::ClearRows);
    assert_eq!(t.render_content(80).len(), 4);
}

#[test]
fn text_widget_plain_frame() {
    let mut t = Text::new("").spinner_style(SpinnerStyle::Hidden);
    t.markdown = None;
    let lines = t.render_frame("hello world", Some(80), false);
    assert_eq!(lines, vec!["hello world\x1b[0m"]);
    assert_eq!(t.frame_idx, 0);
}

#[test]
fn text_widget_spinner_advances() {
    let mut t = Text::new("");
    t.markdown = None;
    t.spinner_color = None;
    let lines = t.render_frame("hi", Some(80), false);
    assert_eq!(lines, vec!["⠋ hi\x1b[0m"]);
    assert_eq!(t.frame_idx, 1);
    let last = t.render_frame("hi", Some(80), true);
    assert_eq!(last, vec!["hi\x1b[0m"]);
    assert_eq!(t.frame_idx, 1);
}

#[test]
fn text_widget_prefix_and_scroll() {
    let mut t = Text::new("Title").spinner_style(SpinnerStyle::Hidden).prefix_margin(0);
    t.markdown = None;
    let lines = t.render_frame("a\nb", None, false);
    assert_eq!(lines, vec!["Title\x1b[0m", "a\x1b[0m", "b\x1b[0m"]);
    t.handle_key(KeyCode::Down);
    assert_eq!(t.scroll_offset, 1);
    let scrolled = t.render_frame("a\nb", None, false);
    assert_eq!(scrolled, vec!["a\x1b[0m", "b\x1b[0m"]);
    t.handle_key(KeyCode::PageUp);
    assert_eq!(t.scroll_offset, 0);
}

#[test]
fn fields_cut_needs_char_boundary() {
    let ok = Fields::new().field("k", "abcdefghij");
    assert!(ok.cuts_fit_exec(12));
    let wide = Fields::new().field("k", "éééééééééé");
    assert!(!wide.cuts_fit_exec(12));
    assert!(wide.cuts_fit_exec(13));
    assert_eq!(wide.render_content(13), vec!["k : ééé..."]);
}

#[test]
fn markdown_code_theme_builders() {
    let theme = rigging::theme::github::dark();
    let t = rigging::text_widget::Text::new("").code_theme(theme);
    assert_eq!(t.markdown.unwrap().theme.keyword, theme.keyword);
    let c = ConfirmPrompt::new("ok?").code_theme(theme);
    assert_eq!(c.markdown.unwrap().theme.string, theme.string);
}

#[test]
fn print_blocks_render() {
    let p = rigging::print::Print::new()
        .h1("Title")
        .info("hello")
        .warn("disk: full")
        .item("one")
        .tree_item("leaf")
        .field("name", "x")
        .field("longer", "y")
        .line();
    let out: Vec<String> = p.render_content(Some(20)).iter().map(|l| strip(l)).collect();
    assert_eq!(
        out,
        vec![
            "Title".to_string(),
            "• hello".to_string(),
            "ℹ disk:full".to_string(),
            "  • one".to_string(),
            "  └─ leaf".to_string(),
            "  name   : x".to_string(),
            "  longer : y".to_string(),
            "─".repeat(20),
        ]
    );
}

#[test]
fn print_wraps_after_prefix() {
    let p = rigging::print::Print::new().info("aaa bbb").error("x");
    let out: Vec<String> = p.render_content(Some(6)).iter().map(|l| strip(l)).collect();
    assert_eq!(out, vec!["• aaa", "  bbb", "✗ x"]);
    let none: Vec<String> = rigging::print::Print::new().line().render_content(None).iter().map(|l| strip(l)).collect();
    assert_eq!(none, vec!["─".repeat(80)]);
}
