//! Markdown rendered for the terminal: paragraphs wrapped to a width,
//! headers, emphasis, inline and fenced code with a side stripe, block
//! quotes, bullet and numbered lists, and tables with fitted columns.
use vstd::prelude::*;
use crate::ansi::{visible_width_spec, wrap_terminal_text_spec, CellAlign};
use crate::block::{reps, sub0};
use crate::paint::{paint_logged, plain_spec, styled_spec, TermColor, TextStyle};
use crate::style::{bullet_symbol, stripe_char, BulletStyle, StripeStyle};
use crate::highlight::{highlight_spec, name_view, SyntaxHighlighter};
use crate::theme::CodeTheme;
use crate::text::{chars_of, cviews, extend_chars, join_with, lines_of, string_of, views};

verus! {

/// A node of a markdown syntax tree.
pub enum MdNode {
    Root(Vec<MdNode>),
    Paragraph(Vec<MdNode>),
    Heading(u8, Vec<MdNode>),
    Text(String),
    Strong(Vec<MdNode>),
    Emphasis(Vec<MdNode>),
    InlineCode(String),
    /// Fenced code: the code and its language tag.
    Code(String, Option<String>),
    Blockquote(Vec<MdNode>),
    /// A list, ordered or not, with its items.
    List(bool, Vec<MdNode>),
    ListItem(Vec<MdNode>),
    /// A table: the alignment of each column and the rows.
    Table(Vec<CellAlign>, Vec<MdNode>),
    TableRow(Vec<MdNode>),
    TableCell(Vec<MdNode>),
    /// Any other node (links, images, breaks, ...).
    Other,
}

/// The mathematical content of a markdown node.
pub enum MdV {
    Root(Seq<MdV>),
    Paragraph(Seq<MdV>),
    Heading(u8, Seq<MdV>),
    Text(Seq<char>),
    Strong(Seq<MdV>),
    Emphasis(Seq<MdV>),
    InlineCode(Seq<char>),
    Code(Seq<char>, Option<Seq<char>>),
    Blockquote(Seq<MdV>),
    List(bool, Seq<MdV>),
    ListItem(Seq<MdV>),
    Table(Seq<CellAlign>, Seq<MdV>),
    TableRow(Seq<MdV>),
    TableCell(Seq<MdV>),
    Other,
}

/// The view of a node.
pub open spec fn md_view(n: MdNode) -> MdV
    decreases n,
{
    match n {
        MdNode::Root(c) => MdV::Root(md_views(c@)),
        MdNode::Paragraph(c) => MdV::Paragraph(md_views(c@)),
        MdNode::Heading(d, c) => MdV::Heading(d, md_views(c@)),
        MdNode::Text(t) => MdV::Text(t@),
        MdNode::Strong(c) => MdV::Strong(md_views(c@)),
        MdNode::Emphasis(c) => MdV::Emphasis(md_views(c@)),
        MdNode::InlineCode(t) => MdV::InlineCode(t@),
        MdNode::Code(t, l) => MdV::Code(t@, match l {
            Some(x) => Some(x@),
            None => None,
        }),
        MdNode::Blockquote(c) => MdV::Blockquote(md_views(c@)),
        MdNode::List(o, c) => MdV::List(o, md_views(c@)),
        MdNode::ListItem(c) => MdV::ListItem(md_views(c@)),
        MdNode::Table(a, c) => MdV::Table(a@, md_views(c@)),
        MdNode::TableRow(c) => MdV::TableRow(md_views(c@)),
        MdNode::TableCell(c) => MdV::TableCell(md_views(c@)),
        MdNode::Other => MdV::Other,
    }
}

/// The views of nodes.
pub open spec fn md_views(v: Seq<MdNode>) -> Seq<MdV>
    decreases v,
{
    if v.len() == 0 {
        Seq::empty()
    } else {
        md_views(v.drop_last()).push(md_view(v.last()))
    }
}

impl View for MdNode {
    type V = MdV;

    open spec fn view(&self) -> MdV {
        md_view(*self)
    }
}

pub proof fn lemma_md_views(v: Seq<MdNode>)
    ensures
        md_views(v).len() == v.len(),
        forall|i: int| 0 <= i < v.len() ==> #[trigger] md_views(v)[i] == md_view(v[i]),
    decreases v.len(),
{
    if v.len() > 0 {
        lemma_md_views(v.drop_last());
        assert forall|i: int| 0 <= i < v.len() implies #[trigger] md_views(v)[i] == md_view(v[i]) by {
            if i < v.len() - 1 {
                assert(md_views(v)[i] == md_views(v.drop_last())[i]);
                assert(v.drop_last()[i] == v[i]);
            }
        }
    }
}

/// `markdown`'s syntax tree node, carried through opaquely.
#[verifier::external_type_specification]
#[verifier::external_body]
pub struct ExMdastNode(markdown::mdast::Node);

/// `markdown`'s column alignment, carried through opaquely.
#[verifier::external_type_specification]
#[verifier::external_body]
pub struct ExMdastAlign(markdown::mdast::AlignKind);

/// The syntax tree that `markdown::to_mdast` (with the GitHub-flavored
/// options) gives a text, as a node of this library; none when it fails.
pub uninterp spec fn md_parse(s: Seq<char>) -> Option<MdV>;

/// Parses markdown through `markdown::to_mdast` with `ParseOptions::gfm()`
/// and converts its tree node for node; the result is named by `md_parse`.
#[verifier::external_body]
pub(crate) fn parse_markdown(s: &str) -> (r: Option<MdNode>)
    ensures
        match r {
            Some(n) => md_parse(s@) == Some(n@),
            None => md_parse(s@) is None,
        },
{
    markdown::to_mdast(s, &markdown::ParseOptions::gfm()).ok().map(|n| md_from(&n))
}

/// Converts a node of `markdown`'s tree (containers and text) into this library's node.
#[verifier::external_body]
fn md_from(n: &markdown::mdast::Node) -> MdNode {
    let kids: Vec<MdNode> = n.children().map_or(Vec::new(), |c| c.iter().map(md_from).collect());
    match n {
        markdown::mdast::Node::Root(_) => MdNode::Root(kids),
        markdown::mdast::Node::Paragraph(_) => MdNode::Paragraph(kids),
        markdown::mdast::Node::Heading(h) => MdNode::Heading(h.depth, kids),
        markdown::mdast::Node::Text(t) => MdNode::Text(t.value.clone()),
        markdown::mdast::Node::Strong(_) => MdNode::Strong(kids),
        markdown::mdast::Node::Emphasis(_) => MdNode::Emphasis(kids),
        markdown::mdast::Node::InlineCode(c) => MdNode::InlineCode(c.value.clone()),
        _ => md_from_block(n, kids),
    }
}

/// Converts a block node of `markdown`'s tree, its children already converted.
#[verifier::external_body]
fn md_from_block(n: &markdown::mdast::Node, kids: Vec<MdNode>) -> MdNode {
    match n {
        markdown::mdast::Node::Code(c) => MdNode::Code(c.value.clone(), c.lang.clone()),
        markdown::mdast::Node::Blockquote(_) => MdNode::Blockquote(kids),
        markdown::mdast::Node::List(l) => MdNode::List(l.ordered, kids),
        markdown::mdast::Node::ListItem(_) => MdNode::ListItem(kids),
        markdown::mdast::Node::Table(t) => MdNode::Table(t.align.iter().map(md_align).collect(), kids),
        markdown::mdast::Node::TableRow(_) => MdNode::TableRow(kids),
        markdown::mdast::Node::TableCell(_) => MdNode::TableCell(kids),
        _ => MdNode::Other,
    }
}

/// Converts a column alignment of `markdown`'s tree.
#[verifier::external_body]
fn md_align(a: &markdown::mdast::AlignKind) -> CellAlign {
    match a {
        markdown::mdast::AlignKind::Left => CellAlign::Left,
        markdown::mdast::AlignKind::Right => CellAlign::Right,
        markdown::mdast::AlignKind::Center => CellAlign::Center,
        markdown::mdast::AlignKind::None => CellAlign::Unset,
    }
}

/// Settings of the markdown renderer.
#[derive(Clone, Copy, Debug)]
pub struct Markdown {
    /// Side bar of block quotes and code blocks.
    pub stripe_style: StripeStyle,
    pub stripe_color: Option<TermColor>,
    /// Bullets of list items.
    pub bullet_style: BulletStyle,
    pub bullet_color: Option<TermColor>,
    /// Color of inline code (dimmed without one).
    pub code_color: Option<TermColor>,
    /// Colors of highlighted code in code blocks.
    pub theme: CodeTheme,
}

impl Markdown {
    /// The default settings: a single dark grey stripe, dark grey dots,
    /// dimmed inline code, the default code theme.
    pub fn new() -> (r: Markdown)
        ensures
            r == Markdown::default_spec(),
    {
        Markdown {
            stripe_style: StripeStyle::Single,
            stripe_color: Some(TermColor::DarkGrey),
            bullet_style: BulletStyle::Dot,
            bullet_color: Some(TermColor::DarkGrey),
            code_color: None,
            theme: CodeTheme::default(),
        }
    }

    /// Sets the stripe style.
    pub fn stripe_style(self, style: StripeStyle) -> (r: Markdown)
        ensures
            r == (Markdown { stripe_style: style, ..self }),
    {
        Markdown { stripe_style: style, ..self }
    }

    /// Sets the stripe color.
    pub fn stripe_color(self, color: TermColor) -> (r: Markdown)
        ensures
            r == (Markdown { stripe_color: Some(color), ..self }),
    {
        Markdown { stripe_color: Some(color), ..self }
    }

    /// Sets the bullet style.
    pub fn bullet_style(self, style: BulletStyle) -> (r: Markdown)
        ensures
            r == (Markdown { bullet_style: style, ..self }),
    {
        Markdown { bullet_style: style, ..self }
    }

    /// Sets the bullet color.
    pub fn bullet_color(self, color: TermColor) -> (r: Markdown)
        ensures
            r == (Markdown { bullet_color: Some(color), ..self }),
    {
        Markdown { bullet_color: Some(color), ..self }
    }

    /// Sets the inline code color.
    pub fn code_color(self, color: TermColor) -> (r: Markdown)
        ensures
            r == (Markdown { code_color: Some(color), ..self }),
    {
        Markdown { code_color: Some(color), ..self }
    }

    /// Sets the code theme.
    pub fn theme(self, theme: CodeTheme) -> (r: Markdown)
        ensures
            r == (Markdown { theme: theme, ..self }),
    {
        Markdown { theme: theme, ..self }
    }
}

} // verus!

verus! {

/// Whether color output was on for each styled part of a node (in order),
/// and the same for the node's children.
pub struct Paint {
    pub flags: Seq<bool>,
    pub kids: Seq<Paint>,
}

pub open spec fn fg(c: TermColor) -> TextStyle {
    TextStyle { fg: Some(c), ..plain_spec() }
}

pub open spec fn bold_st() -> TextStyle {
    TextStyle { bold: true, ..plain_spec() }
}

/// `s` in the color when there is one, as printed with color output `on`.
pub open spec fn colored(s: Seq<char>, color: Option<TermColor>, on: bool) -> Seq<char> {
    match color {
        Some(c) => styled_spec(s, fg(c), on),
        None => s,
    }
}

pub open spec fn nl() -> Seq<char> {
    seq!['\n']
}

/// Each line after `indent`, closed by a line break.
pub open spec fn indent_lines(ls: Seq<Seq<char>>, indent: Seq<char>) -> Seq<char> {
    crate::ansi::concat_all(Seq::new(ls.len(), |i: int| indent + ls[i] + nl()))
}

/// Sequences run together.
pub open spec fn concat_seqs(x: Seq<Seq<Seq<char>>>) -> Seq<Seq<char>>
    decreases x.len(),
{
    if x.len() == 0 {
        Seq::empty()
    } else {
        concat_seqs(x.drop_last()) + x.last()
    }
}

/// `s` without leading whitespace.
pub open spec fn trim_start(s: Seq<char>) -> Seq<char> {
    s.skip(crate::text::first_non_ws(s, 0))
}

/// Lone carriage returns and `\r\n` pairs as line breaks.
pub open spec fn clean_breaks(s: Seq<char>) -> Seq<char> {
    crate::text::replace_char(crate::text::replace_crlf(s), '\r', seq!['\n'])
}

/// Code wrapped to `w` columns without highlighting: lines that fit stay,
/// longer ones are wrapped; unchanged for no width.
pub open spec fn wrap_plain_spec(code: Seq<char>, w: int) -> Seq<char> {
    if w <= 0 {
        code
    } else {
        join_with(
            concat_seqs(
                Seq::new(
                    lines_of(code).len(),
                    |i: int|
                        if visible_width_spec(lines_of(code)[i]) <= w {
                            seq![lines_of(code)[i]]
                        } else {
                            wrap_terminal_text_spec(lines_of(code)[i], w as nat)
                        },
                ),
            ),
            '\n',
        )
    }
}

/// A fenced code block: an optional language line, then each line of the
/// highlighted code (see `highlight_spec`) after the stripe, closed by a line
/// break; nothing when no column is left.
pub open spec fn code_block(cfg: Markdown, code: Seq<char>, lang: Option<Seq<char>>, w: int, f: Seq<bool>) -> Seq<char> {
    let raw_prefix = seq![stripe_char(cfg.stripe_style), ' '];
    let prefix = colored(raw_prefix, cfg.stripe_color, f[0]);
    let aw = sub0(w, visible_width_spec(raw_prefix) as int);
    if aw == 0 {
        Seq::empty()
    } else {
        let head = match lang {
            Some(l) => {
                let t = if visible_width_spec(l) > aw { l.take(crate::block::min_int(aw, l.len() as int)) } else { l };
                seq![prefix + colored(t, cfg.stripe_color, f[1])]
            },
            None => Seq::empty(),
        };
        let body = crate::text::split_on(highlight_spec(clean_breaks(code), lang, cfg.theme, Some(aw as usize), f.skip(2)), '\n');
        let ls = head + Seq::new(body.len(), |i: int| if body[i].len() == 0 { prefix } else { prefix + body[i] });
        join_with(ls, '\n') + nl()
    }
}

/// A rendered node: `w` is the width to wrap to and `indent` the indentation
/// of its lines; `p` tells for each styled part whether color output was on.
pub open spec fn md_render(cfg: Markdown, n: MdV, w: int, indent: Seq<char>, p: Paint) -> Seq<char>
    decreases n,
{
    match n {
        MdV::Root(ch) => join_with(md_render_all(cfg, ch, w, indent, p.kids), '\n'),
        MdV::Paragraph(ch) => {
            let inner = crate::ansi::concat_all(md_render_all(cfg, ch, w, indent, p.kids));
            indent_lines(wrap_terminal_text_spec(inner, w as nat), indent)
        },
        MdV::Heading(d, ch) => if d == 1 || d == 2 {
            let inner = crate::ansi::concat_all(md_render_all(cfg, ch, w, indent, p.kids));
            let ls = wrap_terminal_text_spec(inner, w as nat);
            let st = if d == 1 { TextStyle { bold: true, underlined: true, ..plain_spec() } } else { bold_st() };
            crate::ansi::concat_all(Seq::new(ls.len(), |i: int| indent + styled_spec(ls[i], st, true) + nl()))
        } else {
            let symbol = bullet_symbol(cfg.bullet_style, 0);
            let pw = visible_width_spec(symbol + seq![' ']) as int;
            let iw = sub0(w, pw);
            let child_indent = indent + reps(' ', pw);
            let inner = crate::ansi::concat_all(md_render_all(cfg, ch, iw, child_indent, p.kids));
            let ls = wrap_terminal_text_spec(inner, iw as nat);
            let sym = colored(symbol, cfg.bullet_color, p.flags[0]);
            crate::ansi::concat_all(Seq::new(ls.len(), |i: int| (if i == 0 { indent + sym + seq![' '] } else { child_indent })
                + styled_spec(ls[i], bold_st(), true) + nl()))
        },
        MdV::Text(t) => t,
        MdV::Strong(ch) => styled_spec(crate::ansi::concat_all(md_render_all(cfg, ch, w, indent, p.kids)), bold_st(), true),
        MdV::Emphasis(ch) => styled_spec(
            crate::ansi::concat_all(md_render_all(cfg, ch, w, indent, p.kids)),
            TextStyle { italic: true, ..plain_spec() },
            true,
        ),
        MdV::InlineCode(t) => match cfg.code_color {
            Some(c) => styled_spec(t, fg(c), p.flags[0]),
            None => styled_spec(t, TextStyle { dim: true, ..plain_spec() }, true),
        },
        MdV::Code(t, lang) => code_block(cfg, t, lang, w, p.flags),
        MdV::Blockquote(ch) => {
            let bar = seq![stripe_char(cfg.stripe_style), ' '];
            let iw = sub0(w, visible_width_spec(bar) as int);
            let prefix = colored(bar, cfg.stripe_color, p.flags[0]);
            let inner = crate::ansi::concat_all(md_render_all(cfg, ch, iw, Seq::empty(), p.kids));
            let ls = lines_of(inner);
            join_with(Seq::new(ls.len(), |i: int| indent + prefix + ls[i]), '\n') + nl()
        },
        MdV::List(ordered, items) => list_items(cfg, items, ordered, w, indent, p.kids),
        MdV::ListItem(ch) => crate::ansi::concat_all(md_render_all(cfg, ch, w, indent, p.kids)),
        MdV::Table(align, rows) => crate::table::table_layout(table_rows(cfg, rows, w, p.kids), align, w),
        _ => Seq::empty(),
    }
}

/// The children rendered, child `i` with `ps[i]`.
pub open spec fn md_render_all(cfg: Markdown, ch: Seq<MdV>, w: int, indent: Seq<char>, ps: Seq<Paint>) -> Seq<Seq<char>>
    decreases ch,
{
    if ch.len() == 0 {
        Seq::empty()
    } else {
        md_render_all(cfg, ch.drop_last(), w, indent, ps).push(md_render(cfg, ch.last(), w, indent, ps[ch.len() - 1]))
    }
}

/// The items of a list: each item's symbol (numbers for an ordered list),
/// its first line after the symbol with leading whitespace removed, its
/// other lines as rendered, each line closed by a line break.
pub open spec fn list_items(cfg: Markdown, items: Seq<MdV>, ordered: bool, w: int, indent: Seq<char>, ps: Seq<Paint>) -> Seq<char>
    decreases items,
{
    if items.len() == 0 {
        Seq::empty()
    } else {
        let idx = items.len() - 1;
        let symbol = if ordered { bullet_symbol(BulletStyle::Number, idx as nat) } else { bullet_symbol(cfg.bullet_style, idx as nat) };
        let pw = visible_width_spec(symbol + seq![' ']) as int;
        let iw = sub0(w, pw);
        let child_indent = indent + seq![' ', ' '];
        let p = ps[idx];
        let item = match items.last() {
            MdV::ListItem(lc) => crate::ansi::concat_all(md_render_all(cfg, lc, iw, child_indent, p.kids)),
            other => md_render(cfg, other, iw, child_indent, p.kids[0]),
        };
        let ls = lines_of(item);
        let first = if ls.len() > 0 { trim_start(ls[0]) } else { Seq::empty() };
        let rest = if ls.len() > 0 { ls.skip(1) } else { Seq::empty() };
        list_items(cfg, items.drop_last(), ordered, w, indent, ps) + indent + colored(symbol, cfg.bullet_color, p.flags[0])
            + seq![' '] + first + nl() + crate::ansi::concat_all(Seq::new(rest.len(), |i: int| rest[i] + nl()))
    }
}

/// The rendered content of a list item, `iw` columns wide after `ci`.
pub open spec fn list_entry_text(cfg: Markdown, item: MdV, iw: int, ci: Seq<char>, p: Paint) -> Seq<char> {
    match item {
        MdV::ListItem(lc) => crate::ansi::concat_all(md_render_all(cfg, lc, iw, ci, p.kids)),
        other => md_render(cfg, other, iw, ci, p.kids[0]),
    }
}

/// Entry `idx` of a list: its symbol, the first line of its content without
/// leading whitespace, then its other lines, each closed by a line break.
pub open spec fn list_entry(cfg: Markdown, item: MdV, idx: nat, ordered: bool, w: int, indent: Seq<char>, p: Paint) -> Seq<char> {
    let symbol = if ordered { bullet_symbol(BulletStyle::Number, idx) } else { bullet_symbol(cfg.bullet_style, idx) };
    let pw = visible_width_spec(symbol + seq![' ']) as int;
    let ls = lines_of(list_entry_text(cfg, item, sub0(w, pw), indent + seq![' ', ' '], p));
    let first = if ls.len() > 0 { trim_start(ls[0]) } else { Seq::empty() };
    let rest = if ls.len() > 0 { ls.skip(1) } else { Seq::empty() };
    indent + colored(symbol, cfg.bullet_color, p.flags[0]) + seq![' '] + first + nl()
        + crate::ansi::concat_all(Seq::new(rest.len(), |i: int| rest[i] + nl()))
}

/// A list's text is that of all items but the last, then the last entry.
pub proof fn lemma_list_items_step(cfg: Markdown, items: Seq<MdV>, ordered: bool, w: int, indent: Seq<char>, ps: Seq<Paint>)
    requires
        items.len() > 0,
    ensures
        list_items(cfg, items, ordered, w, indent, ps) == list_items(cfg, items.drop_last(), ordered, w, indent, ps)
            + list_entry(cfg, items.last(), (items.len() - 1) as nat, ordered, w, indent, ps[items.len() - 1]),
{
}

/// The text of a table cell: its children rendered, whitespace collapsed to single spaces.
pub open spec fn cell_text(cfg: Markdown, cell: MdV, w: int, p: Paint) -> Seq<char>
    decreases cell,
{
    match cell {
        MdV::TableCell(cc) => crate::text::join_by(
            crate::text::words_of(crate::ansi::concat_all(md_render_all(cfg, cc, w, Seq::empty(), p.kids))),
            seq![' '],
        ),
        _ => Seq::empty(),
    }
}

/// The texts of the cells of a row.
pub open spec fn row_cells(cfg: Markdown, cells: Seq<MdV>, w: int, ps: Seq<Paint>) -> Seq<Seq<char>>
    decreases cells,
{
    if cells.len() == 0 {
        Seq::empty()
    } else {
        row_cells(cfg, cells.drop_last(), w, ps).push(cell_text(cfg, cells.last(), w, ps[cells.len() - 1]))
    }
}

/// The rows of a table with at least one cell, as cell texts.
pub open spec fn table_rows(cfg: Markdown, rows: Seq<MdV>, w: int, ps: Seq<Paint>) -> Seq<Seq<Seq<char>>>
    decreases rows,
{
    if rows.len() == 0 {
        Seq::empty()
    } else {
        let prev = table_rows(cfg, rows.drop_last(), w, ps);
        match rows.last() {
            MdV::TableRow(cells) => if cells.len() > 0 {
                prev.push(row_cells(cfg, cells, w, ps[rows.len() - 1].kids))
            } else {
                prev
            },
            _ => prev,
        }
    }
}

} // verus!

verus! {

/// The children rendered with `a` and with `b` agree where the paints agree.
pub proof fn lemma_render_all_frame(cfg: Markdown, ch: Seq<MdV>, w: int, indent: Seq<char>, a: Seq<Paint>, b: Seq<Paint>)
    requires
        a.len() >= ch.len(),
        b.len() >= ch.len(),
        a.take(ch.len() as int) == b.take(ch.len() as int),
    ensures
        md_render_all(cfg, ch, w, indent, a) == md_render_all(cfg, ch, w, indent, b),
    decreases ch.len(),
{
    if ch.len() > 0 {
        let k = ch.len() - 1;
        assert(a.take(k) =~= a.take(ch.len() as int).take(k));
        assert(b.take(k) =~= b.take(ch.len() as int).take(k));
        lemma_render_all_frame(cfg, ch.drop_last(), w, indent, a, b);
        assert(a[k] == a.take(ch.len() as int)[k]);
        assert(b[k] == b.take(ch.len() as int)[k]);
    }
}

/// Runs character vectors together.
pub fn concat_exec(parts: &Vec<Vec<char>>) -> (r: Vec<char>)
    ensures
        r@ == crate::ansi::concat_all(cviews(parts@)),
{
    let mut r: Vec<char> = Vec::new();
    let mut i: usize = 0;
    assert(cviews(parts@).take(0) =~= Seq::<Seq<char>>::empty());
    while i < parts.len()
        invariant
            i <= parts@.len(),
            r@ == crate::ansi::concat_all(cviews(parts@).take(i as int)),
        decreases parts.len() - i,
    {
        extend_chars(&mut r, parts[i].as_slice());
        assert(cviews(parts@).take(i + 1) =~= cviews(parts@).take(i as int).push(parts@[i as int]@));
        proof {
            crate::ansi::lemma_concat_push(cviews(parts@).take(i as int), parts@[i as int]@);
        }
        i += 1;
    }
    assert(cviews(parts@).take(parts@.len() as int) =~= cviews(parts@));
    r
}

fn indent_lines_exec(ls: &Vec<Vec<char>>, indent: &Vec<char>) -> (r: Vec<char>)
    ensures
        r@ == indent_lines(cviews(ls@), indent@),
{
    let mut r: Vec<char> = Vec::new();
    let ghost f = Seq::new(ls@.len(), |i: int| indent@ + cviews(ls@)[i] + nl());
    let mut i: usize = 0;
    assert(f.take(0) =~= Seq::<Seq<char>>::empty());
    while i < ls.len()
        invariant
            i <= ls@.len(),
            f == Seq::new(ls@.len(), |k: int| indent@ + cviews(ls@)[k] + nl()),
            r@ == crate::ansi::concat_all(f.take(i as int)),
        decreases ls.len() - i,
    {
        let ghost before = r@;
        extend_chars(&mut r, indent.as_slice());
        extend_chars(&mut r, ls[i].as_slice());
        r.push('\n');
        assert(f.take(i + 1) =~= f.take(i as int).push(f[i as int]));
        proof {
            crate::ansi::lemma_concat_push(f.take(i as int), f[i as int]);
        }
        assert(r@ =~= before + f[i as int]);
        i += 1;
    }
    assert(f.take(ls@.len() as int) =~= f);
    r
}

fn wrap_exec(text: &Vec<char>, w: usize) -> (r: Vec<Vec<char>>)
    ensures
        cviews(r@) == wrap_terminal_text_spec(text@, w as nat),
{
    let r = crate::ansi::wrap_text_chars(text, w);
    assert(cviews(r@) =~= r@.map_values(|c: Vec<char>| c@));
    r
}

fn lines_exec(text: &Vec<char>) -> (r: Vec<Vec<char>>)
    ensures
        cviews(r@) == lines_of(text@),
{
    let r = crate::text::lines_chars(text.as_slice());
    assert(cviews(r@) =~= r@.map_values(|c: Vec<char>| c@));
    r
}

pub(crate) fn colored_exec(s: &Vec<char>, color: Option<TermColor>) -> (r: (Vec<char>, Ghost<bool>))
    ensures
        r.0@ == colored(s@, color, r.1@),
{
    match color {
        Some(c) => {
            let st = TextStyle { fg: Some(c), bg: None, bold: false, dim: false, italic: false, underlined: false };
            paint_logged(s, st)
        },
        None => (s.clone(), Ghost(true)),
    }
}

fn reps_exec(c: char, n: usize) -> (r: Vec<char>)
    ensures
        r@ == reps(c, n as int),
{
    crate::text::repeat_char_exec(c, n)
}

/// Code wrapped to a width without highlighting (see `wrap_plain_spec`).
pub fn wrap_plain_code(code: &Vec<char>, w: usize) -> (r: Vec<char>)
    ensures
        r@ == wrap_plain_spec(code@, w as int),
{
    if w == 0 {
        return code.clone();
    }
    let ls = lines_exec(code);
    let ghost lv = lines_of(code@);
    let ghost parts = Seq::new(lv.len(), |i: int| if visible_width_spec(lv[i]) <= w { seq![lv[i]] } else { wrap_terminal_text_spec(lv[i], w as nat) });
    let mut out: Vec<Vec<char>> = Vec::new();
    let mut i: usize = 0;
    assert(parts.take(0) =~= Seq::<Seq<Seq<char>>>::empty());
    while i < ls.len()
        invariant
            lv == lines_of(code@),
            cviews(ls@) == lv,
            w > 0,
            i <= ls@.len(),
            parts == Seq::new(lv.len(), |k: int| if visible_width_spec(lv[k]) <= w { seq![lv[k]] } else { wrap_terminal_text_spec(lv[k], w as nat) }),
            cviews(out@) == concat_seqs(parts.take(i as int)),
        decreases ls.len() - i,
    {
        assert(lv[i as int] == ls@[i as int]@);
        let vw = crate::ansi::visible_width_chars(ls[i].as_slice());
        let piece: Vec<Vec<char>> = if vw <= w {
            let v = vec![ls[i].clone()];
            assert(cviews(v@) =~= seq![lv[i as int]]);
            v
        } else {
            wrap_exec(&ls[i], w)
        };
        let ghost before = cviews(out@);
        let mut k: usize = 0;
        while k < piece.len()
            invariant
                k <= piece@.len(),
                cviews(out@) == before + cviews(piece@).take(k as int),
            decreases piece.len() - k,
        {
            let ghost b = out@;
            out.push(piece[k].clone());
            assert(cviews(out@) =~= cviews(b).push(piece@[k as int]@));
            assert(cviews(piece@).take(k + 1) =~= cviews(piece@).take(k as int).push(piece@[k as int]@));
            k += 1;
        }
        assert(cviews(piece@).take(piece@.len() as int) =~= cviews(piece@));
        assert(cviews(piece@) == parts[i as int]);
        assert(parts.take(i + 1).drop_last() =~= parts.take(i as int));
        assert(parts.take(i + 1).last() == parts[i as int]);
        i += 1;
    }
    assert(parts.take(ls@.len() as int) =~= parts);
    crate::text::join_with_exec(&out, '\n')
}

impl Markdown {
    fn code_block_exec(&self, code: &String, lang: &Option<String>, w: usize) -> (r: (Vec<char>, Ghost<Seq<bool>>))
        ensures
            r.0@ == code_block(*self, code@, match lang {
                Some(l) => Some(l@),
                None => None,
            }, w as int, r.1@),
    {
        let sc = self.stripe_style.char();
        let raw_prefix: Vec<char> = vec![sc, ' '];
        assert(raw_prefix@ =~= seq![stripe_char(self.stripe_style), ' ']);
        let (prefix, f0) = colored_exec(&raw_prefix, self.stripe_color);
        let pw = crate::ansi::visible_width_chars(raw_prefix.as_slice());
        let aw = if w > pw { w - pw } else { 0 };
        let ghost mut f1 = true;
        if aw == 0 {
            let ghost f = seq![f0@, f1];
            return (Vec::new(), Ghost(f));
        }
        let mut lines: Vec<Vec<char>> = Vec::new();
        match lang {
            Some(l) => {
                let lv = chars_of(l.as_str());
                let t = if crate::ansi::visible_width_chars(lv.as_slice()) > aw {
                    let t = crate::ansi::slice_vec(&lv, 0, if aw < lv.len() { aw } else { lv.len() });
                    assert(t@ =~= lv@.take(crate::block::min_int(aw as int, lv@.len() as int)));
                    t
                } else {
                    lv
                };
                let (sl, g) = colored_exec(&t, self.stripe_color);
                proof {
                    f1 = g@;
                }
                let mut head = prefix.clone();
                extend_chars(&mut head, sl.as_slice());
                lines.push(head);
                assert(t@ == (if visible_width_spec(l@) > aw { l@.take(crate::block::min_int(aw as int, l@.len() as int)) } else { l@ }));
                assert(cviews(lines@) =~= seq![prefix@ + colored(t@, self.stripe_color, f1)]);
            },
            None => {
                assert(cviews(lines@) =~= Seq::<Seq<char>>::empty());
            },
        }
        let ghost head = cviews(lines@);
        let cv = chars_of(code.as_str());
        let c1 = crate::text::replace_crlf_exec(cv.as_slice());
        let nlv: Vec<char> = vec!['\n'];
        assert(nlv@ =~= seq!['\n']);
        let c2 = crate::text::replace_char_exec(c1.as_slice(), '\r', nlv.as_slice());
        let clean = string_of(c2.as_slice());
        let lname: Option<&str> = match lang {
            Some(l) => Some(l.as_str()),
            None => None,
        };
        let hs = SyntaxHighlighter::highlight(clean.as_str(), lname, &self.theme, Some(aw));
        let ghost hf = choose|hf: Seq<bool>| hs@ == highlight_spec(clean@, name_view(lname), self.theme, Some(aw), hf);
        let ghost f = seq![f0@, f1] + hf;
        assert(f.skip(2) =~= hf);
        let wrapped = chars_of(hs.as_str());
        let body = crate::text::split_chars(wrapped.as_slice(), '\n');
        let ghost bv = crate::text::split_on(wrapped@, '\n');
        let mut i: usize = 0;
        while i < body.len()
            invariant
                i <= body@.len(),
                body@.len() == bv.len(),
                forall|q: int| 0 <= q < body@.len() ==> #[trigger] body@[q]@ == bv[q],
                cviews(lines@) == head + Seq::new(i as nat, |k: int| if bv[k].len() == 0 { prefix@ } else { prefix@ + bv[k] }),
            decreases body.len() - i,
        {
            let mut line = prefix.clone();
            extend_chars(&mut line, body[i].as_slice());
            let ghost b = lines@;
            lines.push(line);
            assert(cviews(lines@) =~= head + Seq::new((i + 1) as nat, |k: int| if bv[k].len() == 0 { prefix@ } else { prefix@ + bv[k] })) by {
                assert(cviews(lines@) =~= cviews(b).push(line@));
                if bv[i as int].len() == 0 {
                    assert(line@ =~= prefix@);
                }
            }
            i += 1;
        }
        assert(c2@ == clean_breaks(code@));
        let ghost olang = match lang {
            Some(l) => Some(l@),
            None => None::<Seq<char>>,
        };
        let ghost sprefix = colored(seq![stripe_char(self.stripe_style), ' '], self.stripe_color, f[0]);
        assert(sprefix == prefix@);
        let ghost shead = match olang {
            Some(l) => {
                let t = if visible_width_spec(l) > aw { l.take(crate::block::min_int(aw as int, l.len() as int)) } else { l };
                seq![sprefix + colored(t, self.stripe_color, f[1])]
            },
            None => Seq::<Seq<char>>::empty(),
        };
        assert(shead == head);
        assert(name_view(lname) == olang);
        let ghost sbody = crate::text::split_on(highlight_spec(clean_breaks(code@), olang, self.theme, Some(aw), f.skip(2)), '\n');
        assert(sbody == bv);
        assert(cviews(lines@) =~= shead + Seq::new(sbody.len(), |k: int| if sbody[k].len() == 0 { sprefix } else { sprefix + sbody[k] }));
        let mut out = crate::text::join_with_exec(&lines, '\n');
        out.push('\n');
        assert(out@ =~= code_block(*self, code@, match lang {
            Some(l) => Some(l@),
            None => None,
        }, w as int, f));
        (out, Ghost(f))
    }
}

} // verus!

verus! {

impl Markdown {
    /// Renders the children (see `md_render_all`).
    fn render_all(&self, ch: &Vec<MdNode>, w: usize, indent: &Vec<char>) -> (r: (Vec<Vec<char>>, Ghost<Seq<Paint>>))
        ensures
            cviews(r.0@) == md_render_all(*self, md_views(ch@), w as int, indent@, r.1@),
            r.1@.len() == ch@.len(),
        decreases ch, 2int,
    {
        let ghost cv = md_views(ch@);
        proof {
            lemma_md_views(ch@);
        }
        let mut out: Vec<Vec<char>> = Vec::new();
        let ghost mut ps: Seq<Paint> = Seq::empty();
        let mut i: usize = 0;
        assert(cv.take(0) =~= Seq::<MdV>::empty());
        while i < ch.len()
            invariant
                cv == md_views(ch@),
                cv.len() == ch@.len(),
                forall|q: int| 0 <= q < ch@.len() ==> #[trigger] cv[q] == md_view(ch@[q]),
                i <= ch@.len(),
                ps.len() == i,
                cviews(out@) == md_render_all(*self, cv.take(i as int), w as int, indent@, ps),
            decreases ch.len() - i,
        {
            proof {
                assert(decreases_to!(ch => ch@[i as int]));
            }
            let (x, p) = self.render_node(&ch[i], w, indent);
            let ghost prev = ps;
            proof {
                ps = ps.push(p@);
                assert(ps.take(i as int) =~= prev.take(i as int));
                lemma_render_all_frame(*self, cv.take(i as int), w as int, indent@, ps, prev);
            }
            let ghost b = out@;
            out.push(x);
            assert(cv.take(i + 1).drop_last() =~= cv.take(i as int));
            assert(cv.take(i + 1).last() == md_view(ch@[i as int]));
            assert(cviews(out@) =~= cviews(b).push(x@));
            i += 1;
        }
        assert(cv.take(ch@.len() as int) =~= cv);
        (out, Ghost(ps))
    }

    /// Renders a node (see `md_render`).
    fn render_node(&self, n: &MdNode, w: usize, indent: &Vec<char>) -> (r: (Vec<char>, Ghost<Paint>))
        ensures
            r.0@ == md_render(*self, n@, w as int, indent@, r.1@),
        decreases n, 1int,
    {
        match n {
            MdNode::Root(ch) => {
                let (parts, ps) = self.render_all(ch, w, indent);
                let ghost p = Paint { flags: Seq::empty(), kids: ps@ };
                (crate::text::join_with_exec(&parts, '\n'), Ghost(p))
            },
            MdNode::Paragraph(ch) => {
                let (parts, ps) = self.render_all(ch, w, indent);
                let inner = concat_exec(&parts);
                let ls = wrap_exec(&inner, w);
                let ghost p = Paint { flags: Seq::empty(), kids: ps@ };
                (indent_lines_exec(&ls, indent), Ghost(p))
            },
            MdNode::Heading(_, _) => self.heading_exec(n, w, indent),
            MdNode::Text(t) => {
                let ghost p = Paint { flags: Seq::empty(), kids: Seq::empty() };
                (chars_of(t.as_str()), Ghost(p))
            },
            MdNode::Strong(ch) => {
                let (parts, ps) = self.render_all(ch, w, indent);
                let inner = concat_exec(&parts);
                let st = TextStyle { fg: None, bg: None, bold: true, dim: false, italic: false, underlined: false };
                let ghost p = Paint { flags: Seq::empty(), kids: ps@ };
                (crate::paint::fixed_styled(&inner, st), Ghost(p))
            },
            MdNode::Emphasis(ch) => {
                let (parts, ps) = self.render_all(ch, w, indent);
                let inner = concat_exec(&parts);
                let st = TextStyle { fg: None, bg: None, bold: false, dim: false, italic: true, underlined: false };
                let ghost p = Paint { flags: Seq::empty(), kids: ps@ };
                (crate::paint::fixed_styled(&inner, st), Ghost(p))
            },
            MdNode::InlineCode(t) => {
                let tv = chars_of(t.as_str());
                match self.code_color {
                    Some(c) => {
                        let st = TextStyle { fg: Some(c), bg: None, bold: false, dim: false, italic: false, underlined: false };
                        let (x, on) = paint_logged(&tv, st);
                        let ghost p = Paint { flags: seq![on@], kids: Seq::empty() };
                        (x, Ghost(p))
                    },
                    None => {
                        let st = TextStyle { fg: None, bg: None, bold: false, dim: true, italic: false, underlined: false };
                        let ghost p = Paint { flags: Seq::empty(), kids: Seq::empty() };
                        (crate::paint::fixed_styled(&tv, st), Ghost(p))
                    },
                }
            },
            MdNode::Code(t, lang) => {
                let (x, f) = self.code_block_exec(t, lang, w);
                let ghost p = Paint { flags: f@, kids: Seq::empty() };
                (x, Ghost(p))
            },
            MdNode::Blockquote(ch) => {
                let sc = self.stripe_style.char();
                let bar: Vec<char> = vec![sc, ' '];
                assert(bar@ =~= seq![stripe_char(self.stripe_style), ' ']);
                let bw = crate::ansi::visible_width_chars(bar.as_slice());
                let iw = if w > bw { w - bw } else { 0 };
                let (prefix, on) = colored_exec(&bar, self.stripe_color);
                let empty: Vec<char> = Vec::new();
                let (parts, ps) = self.render_all(ch, iw, &empty);
                let inner = concat_exec(&parts);
                let ls = lines_exec(&inner);
                let mut out: Vec<Vec<char>> = Vec::new();
                let mut i: usize = 0;
                while i < ls.len()
                    invariant
                        i <= ls@.len(),
                        cviews(out@) == Seq::new(i as nat, |k: int| indent@ + prefix@ + cviews(ls@)[k]),
                    decreases ls.len() - i,
                {
                    let mut line = indent.clone();
                    extend_chars(&mut line, prefix.as_slice());
                    extend_chars(&mut line, ls[i].as_slice());
                    let ghost b = out@;
                    out.push(line);
                    assert(cviews(out@) =~= Seq::new((i + 1) as nat, |k: int| indent@ + prefix@ + cviews(ls@)[k])) by {
                        assert(cviews(out@) =~= cviews(b).push(line@));
                    }
                    i += 1;
                }
                let mut x = crate::text::join_with_exec(&out, '\n');
                x.push('\n');
                let ghost p = Paint { flags: seq![on@], kids: ps@ };
                assert(empty@ =~= Seq::<char>::empty());
                (x, Ghost(p))
            },
            MdNode::List(_, _) => {
                let (x, ps) = self.list_exec(n, w, indent);
                let ghost p = Paint { flags: Seq::empty(), kids: ps@ };
                (x, Ghost(p))
            },
            MdNode::ListItem(ch) => {
                let (parts, ps) = self.render_all(ch, w, indent);
                let ghost p = Paint { flags: Seq::empty(), kids: ps@ };
                (concat_exec(&parts), Ghost(p))
            },
            MdNode::Table(align, _) => {
                let (texts, ps) = self.table_rows_exec(n, w);
                let ghost p = Paint { flags: Seq::empty(), kids: ps@ };
                (crate::table::table_layout_exec(&texts, align, w), Ghost(p))
            },
            _ => {
                let ghost p = Paint { flags: Seq::empty(), kids: Seq::empty() };
                (Vec::new(), Ghost(p))
            },
        }
    }
}

} // verus!

verus! {

/// `items` rendered with `a` and with `b` agree where the paints agree.
pub proof fn lemma_list_frame(cfg: Markdown, items: Seq<MdV>, ordered: bool, w: int, indent: Seq<char>, a: Seq<Paint>, b: Seq<Paint>)
    requires
        a.len() >= items.len(),
        b.len() >= items.len(),
        a.take(items.len() as int) == b.take(items.len() as int),
    ensures
        list_items(cfg, items, ordered, w, indent, a) == list_items(cfg, items, ordered, w, indent, b),
    decreases items.len(),
{
    if items.len() > 0 {
        let k = items.len() - 1;
        assert(a.take(k) =~= a.take(items.len() as int).take(k));
        assert(b.take(k) =~= b.take(items.len() as int).take(k));
        lemma_list_frame(cfg, items.drop_last(), ordered, w, indent, a, b);
        assert(a[k] == a.take(items.len() as int)[k]);
        assert(b[k] == b.take(items.len() as int)[k]);
    }
}

fn trim_start_exec(s: &Vec<char>) -> (r: Vec<char>)
    ensures
        r@ == trim_start(s@),
{
    let mut i: usize = 0;
    while i < s.len() && crate::text::is_whitespace(s[i])
        invariant
            i <= s@.len(),
            crate::text::first_non_ws(s@, 0) == crate::text::first_non_ws(s@, i as int),
        decreases s.len() - i,
    {
        i += 1;
    }
    let r = crate::ansi::slice_vec(s, i, s.len());
    assert(r@ =~= s@.skip(i as int));
    r
}

impl Markdown {
    fn heading_exec(&self, n: &MdNode, w: usize, indent: &Vec<char>) -> (r: (Vec<char>, Ghost<Paint>))
        requires
            n is Heading,
        ensures
            r.0@ == md_render(*self, n@, w as int, indent@, r.1@),
        decreases n, 0int,
    {
        let (d, ch) = match n {
            MdNode::Heading(d, ch) => (*d, ch),
            _ => {
                proof {
                    assert(false);
                }
                return (Vec::new(), Ghost(Paint { flags: Seq::empty(), kids: Seq::empty() }));
            },
        };
        if d == 1 || d == 2 {
            let (parts, ps) = self.render_all(ch, w, indent);
            let inner = concat_exec(&parts);
            let ls = wrap_exec(&inner, w);
            let st = if d == 1 {
                TextStyle { fg: None, bg: None, bold: true, dim: false, italic: false, underlined: true }
            } else {
                TextStyle { fg: None, bg: None, bold: true, dim: false, italic: false, underlined: false }
            };
            let ghost f = Seq::new(ls@.len(), |i: int| indent@ + styled_spec(cviews(ls@)[i], st, true) + nl());
            let mut out: Vec<char> = Vec::new();
            let mut i: usize = 0;
            assert(f.take(0) =~= Seq::<Seq<char>>::empty());
            while i < ls.len()
                invariant
                    i <= ls@.len(),
                    st.fg is None && st.bg is None,
                    f == Seq::new(ls@.len(), |k: int| indent@ + styled_spec(cviews(ls@)[k], st, true) + nl()),
                    out@ == crate::ansi::concat_all(f.take(i as int)),
                decreases ls.len() - i,
            {
                let ghost before = out@;
                extend_chars(&mut out, indent.as_slice());
                let sl = crate::paint::fixed_styled(&ls[i], st);
                extend_chars(&mut out, sl.as_slice());
                out.push('\n');
                assert(f.take(i + 1) =~= f.take(i as int).push(f[i as int]));
                proof {
                    crate::ansi::lemma_concat_push(f.take(i as int), f[i as int]);
                }
                assert(out@ =~= before + f[i as int]);
                i += 1;
            }
            assert(f.take(ls@.len() as int) =~= f);
            let ghost p = Paint { flags: Seq::empty(), kids: ps@ };
            let ghost sst = if d == 1 { TextStyle { bold: true, underlined: true, ..plain_spec() } } else { bold_st() };
            let ghost sls = wrap_terminal_text_spec(crate::ansi::concat_all(md_render_all(*self, md_views(ch@), w as int, indent@, ps@)), w as nat);
            assert(st == sst);
            assert(cviews(ls@) == sls);
            assert(f =~= Seq::new(sls.len(), |i: int| indent@ + styled_spec(sls[i], sst, true) + nl()));
            (out, Ghost(p))
        } else {
            let symbol = chars_of(self.bullet_style.render_symbol(0).as_str());
            let mut raw = symbol.clone();
            raw.push(' ');
            let pw = crate::ansi::visible_width_chars(raw.as_slice());
            let iw = if w > pw { w - pw } else { 0 };
            let mut child_indent = indent.clone();
            extend_chars(&mut child_indent, reps_exec(' ', pw).as_slice());
            let (parts, ps) = self.render_all(ch, iw, &child_indent);
            let inner = concat_exec(&parts);
            let ls = wrap_exec(&inner, iw);
            let (sym, on) = colored_exec(&symbol, self.bullet_color);
            let st = TextStyle { fg: None, bg: None, bold: true, dim: false, italic: false, underlined: false };
            let mut first = indent.clone();
            extend_chars(&mut first, sym.as_slice());
            first.push(' ');
            let ghost f = Seq::new(ls@.len(), |i: int| (if i == 0 { first@ } else { child_indent@ }) + styled_spec(cviews(ls@)[i], st, true) + nl());
            let mut out: Vec<char> = Vec::new();
            let mut i: usize = 0;
            assert(f.take(0) =~= Seq::<Seq<char>>::empty());
            while i < ls.len()
                invariant
                    i <= ls@.len(),
                    st == bold_st(),
                    f == Seq::new(ls@.len(), |k: int| (if k == 0 { first@ } else { child_indent@ }) + styled_spec(cviews(ls@)[k], st, true) + nl()),
                    out@ == crate::ansi::concat_all(f.take(i as int)),
                decreases ls.len() - i,
            {
                let ghost before = out@;
                if i == 0 {
                    extend_chars(&mut out, first.as_slice());
                } else {
                    extend_chars(&mut out, child_indent.as_slice());
                }
                let sl = crate::paint::fixed_styled(&ls[i], st);
                extend_chars(&mut out, sl.as_slice());
                out.push('\n');
                assert(f.take(i + 1) =~= f.take(i as int).push(f[i as int]));
                proof {
                    crate::ansi::lemma_concat_push(f.take(i as int), f[i as int]);
                }
                assert(out@ =~= before + f[i as int]);
                i += 1;
            }
            assert(f.take(ls@.len() as int) =~= f);
            let ghost p = Paint { flags: seq![on@], kids: ps@ };
            let ghost ssym = bullet_symbol(self.bullet_style, 0);
            let ghost spw = visible_width_spec(ssym + seq![' ']) as int;
            let ghost sci = indent@ + reps(' ', spw);
            let ghost sls = wrap_terminal_text_spec(crate::ansi::concat_all(md_render_all(*self, md_views(ch@), sub0(w as int, spw), sci, ps@)), sub0(w as int, spw) as nat);
            assert(symbol@ == ssym);
            assert(raw@ =~= ssym + seq![' ']);
            assert(child_indent@ =~= sci);
            assert(cviews(ls@) == sls);
            assert(first@ =~= indent@ + colored(ssym, self.bullet_color, on@) + seq![' ']);
            assert(f =~= Seq::new(sls.len(), |i: int| (if i == 0 { indent@ + colored(ssym, self.bullet_color, on@) + seq![' '] } else { sci })
                + styled_spec(sls[i], bold_st(), true) + nl()));
            (out, Ghost(p))
        }
    }

    /// One entry of a list (see `list_entry`).
    fn list_entry_exec(&self, item: &MdNode, idx: usize, ordered: bool, w: usize, indent: &Vec<char>) -> (r: (Vec<char>, Ghost<Paint>))
        requires
            idx < usize::MAX,
        ensures
            r.0@ == list_entry(*self, item@, idx as nat, ordered, w as int, indent@, r.1@),
        decreases item, 2int,
    {
        let sym_s = if ordered { BulletStyle::Number.render_symbol(idx) } else { self.bullet_style.render_symbol(idx) };
        let symbol = chars_of(sym_s.as_str());
        let mut raw = symbol.clone();
        raw.push(' ');
        let pw = crate::ansi::visible_width_chars(raw.as_slice());
        let iw = if w > pw { w - pw } else { 0 };
        let mut child_indent = indent.clone();
        child_indent.push(' ');
        child_indent.push(' ');
        let (text, kids) = match item {
            MdNode::ListItem(lc) => {
                proof {
                    assert(decreases_to!(item => lc));
                }
                let (parts, ps2) = self.render_all(lc, iw, &child_indent);
                (concat_exec(&parts), ps2)
            },
            other => {
                let (x, p1) = self.render_node(other, iw, &child_indent);
                let ghost k = seq![p1@];
                (x, Ghost(k))
            },
        };
        let (sym, on) = colored_exec(&symbol, self.bullet_color);
        let ls = lines_exec(&text);
        let first = if ls.len() > 0 { trim_start_exec(&ls[0]) } else { Vec::new() };
        let mut out: Vec<char> = indent.clone();
        extend_chars(&mut out, sym.as_slice());
        out.push(' ');
        extend_chars(&mut out, first.as_slice());
        out.push('\n');
        let ghost rest = if ls@.len() > 0 { cviews(ls@).skip(1) } else { Seq::<Seq<char>>::empty() };
        let ghost rf = Seq::new(rest.len(), |k: int| rest[k] + nl());
        let ghost mid = out@;
        let mut k: usize = 1;
        assert(rf.take(0) =~= Seq::<Seq<char>>::empty());
        while k < ls.len()
            invariant
                1 <= k,
                k <= ls@.len() || k == 1,
                rest == (if ls@.len() > 0 { cviews(ls@).skip(1) } else { Seq::<Seq<char>>::empty() }),
                rf == Seq::new(rest.len(), |q: int| rest[q] + nl()),
                out@ == mid + crate::ansi::concat_all(rf.take(k - 1)),
            decreases ls.len() - k,
        {
            let ghost b = out@;
            extend_chars(&mut out, ls[k].as_slice());
            out.push('\n');
            assert(rest[k - 1] == ls@[k as int]@);
            assert(rf.take(k as int) =~= rf.take(k - 1).push(rf[k - 1]));
            proof {
                crate::ansi::lemma_concat_push(rf.take(k - 1), rf[k - 1]);
            }
            assert(out@ =~= b + rf[k - 1]);
            k += 1;
        }
        assert(rf.take(rest.len() as int) =~= rf);
        let ghost p = Paint { flags: seq![on@], kids: kids@ };
        let ghost ssym = if ordered { bullet_symbol(BulletStyle::Number, idx as nat) } else { bullet_symbol(self.bullet_style, idx as nat) };
        let ghost spw = visible_width_spec(ssym + seq![' ']) as int;
        let ghost sci = indent@ + seq![' ', ' '];
        assert(symbol@ == ssym);
        assert(raw@ =~= ssym + seq![' ']);
        assert(child_indent@ =~= sci);
        assert(text@ == list_entry_text(*self, item@, sub0(w as int, spw), sci, p));
        assert(cviews(ls@).len() == ls@.len());
        assert(k - 1 == rest.len());
        assert(out@ == mid + crate::ansi::concat_all(rf));
        assert(sym@ == colored(ssym, self.bullet_color, on@));
        assert(mid =~= indent@ + sym@ + seq![' '] + first@ + nl());
        assert(out@ =~= indent@ + colored(ssym, self.bullet_color, on@) + seq![' '] + first@ + nl() + crate::ansi::concat_all(rf));
        (out, Ghost(p))
    }

    fn list_exec(&self, n: &MdNode, w: usize, indent: &Vec<char>) -> (r: (Vec<char>, Ghost<Seq<Paint>>))
        requires
            n is List,
        ensures
            match n@ {
                MdV::List(ordered, items) => r.0@ == list_items(*self, items, ordered, w as int, indent@, r.1@),
                _ => false,
            },
        decreases n, 0int,
    {
        let (ordered, items) = match n {
            MdNode::List(o, items) => {
                proof {
                    assert(decreases_to!(n => items));
                }
                (*o, items)
            },
            _ => {
                proof {
                    assert(false);
                }
                return (Vec::new(), Ghost(Seq::empty()));
            },
        };
        let ghost iv = md_views(items@);
        proof {
            lemma_md_views(items@);
        }
        let mut out: Vec<char> = Vec::new();
        let ghost mut ps: Seq<Paint> = Seq::empty();
        let mut i: usize = 0;
        assert(iv.take(0) =~= Seq::<MdV>::empty());
        while i < items.len()
            invariant
                iv == md_views(items@),
                decreases_to!(n => items),
                iv.len() == items@.len(),
                forall|q: int| 0 <= q < items@.len() ==> #[trigger] iv[q] == md_view(items@[q]),
                i <= items@.len(),
                ps.len() == i,
                out@ == list_items(*self, iv.take(i as int), ordered, w as int, indent@, ps),
            decreases items.len() - i,
        {
            proof {
                assert(decreases_to!(items => items@));
                assert(decreases_to!(items@ => items@[i as int]));
                assert(decreases_to!(n => items@[i as int]));
            }
            let (piece, p) = self.list_entry_exec(&items[i], i, ordered, w, indent);
            let ghost before = out@;
            extend_chars(&mut out, piece.as_slice());
            let ghost prev = ps;
            proof {
                ps = ps.push(p@);
                assert(ps.take(i as int) =~= prev.take(i as int));
                lemma_list_frame(*self, iv.take(i as int), ordered, w as int, indent@, ps, prev);
                assert(iv.take(i + 1).drop_last() =~= iv.take(i as int));
                assert(iv.take(i + 1).last() == md_view(items@[i as int]));
                lemma_list_items_step(*self, iv.take(i + 1), ordered, w as int, indent@, ps);
            }
            i += 1;
        }
        assert(iv.take(items@.len() as int) =~= iv);
        (out, Ghost(ps))
    }
}


/// Rows of cells read with `a` and with `b` agree where the paints agree.
pub proof fn lemma_row_cells_frame(cfg: Markdown, cells: Seq<MdV>, w: int, a: Seq<Paint>, b: Seq<Paint>)
    requires
        a.len() >= cells.len(),
        b.len() >= cells.len(),
        a.take(cells.len() as int) == b.take(cells.len() as int),
    ensures
        row_cells(cfg, cells, w, a) == row_cells(cfg, cells, w, b),
    decreases cells.len(),
{
    if cells.len() > 0 {
        let k = cells.len() - 1;
        assert(a.take(k) =~= a.take(cells.len() as int).take(k));
        assert(b.take(k) =~= b.take(cells.len() as int).take(k));
        lemma_row_cells_frame(cfg, cells.drop_last(), w, a, b);
        assert(a[k] == a.take(cells.len() as int)[k]);
        assert(b[k] == b.take(cells.len() as int)[k]);
    }
}

/// Table rows read with `a` and with `b` agree where the paints agree.
pub proof fn lemma_table_rows_frame(cfg: Markdown, rows: Seq<MdV>, w: int, a: Seq<Paint>, b: Seq<Paint>)
    requires
        a.len() >= rows.len(),
        b.len() >= rows.len(),
        a.take(rows.len() as int) == b.take(rows.len() as int),
    ensures
        table_rows(cfg, rows, w, a) == table_rows(cfg, rows, w, b),
    decreases rows.len(),
{
    if rows.len() > 0 {
        let k = rows.len() - 1;
        assert(a.take(k) =~= a.take(rows.len() as int).take(k));
        assert(b.take(k) =~= b.take(rows.len() as int).take(k));
        lemma_table_rows_frame(cfg, rows.drop_last(), w, a, b);
        assert(a[k] == a.take(rows.len() as int)[k]);
        assert(b[k] == b.take(rows.len() as int)[k]);
    }
}

impl Markdown {
    /// The cell texts of a table's rows (see `table_rows`).
    fn table_rows_exec(&self, n: &MdNode, w: usize) -> (r: (Vec<Vec<Vec<char>>>, Ghost<Seq<Paint>>))
        requires
            n is Table,
        ensures
            match n@ {
                MdV::Table(_, rows) => crate::table::rows_views(r.0@) == table_rows(*self, rows, w as int, r.1@),
                _ => false,
            },
        decreases n, 0int,
    {
        let rows = match n {
            MdNode::Table(_, rows) => {
                proof {
                    assert(decreases_to!(n => rows));
                }
                rows
            },
            _ => {
                proof {
                    assert(false);
                }
                return (Vec::new(), Ghost(Seq::empty()));
            },
        };
        let ghost rv = md_views(rows@);
        proof {
            lemma_md_views(rows@);
        }
        let empty: Vec<char> = Vec::new();
        let space: Vec<char> = vec![' '];
        assert(space@ =~= seq![' ']);
        assert(empty@ =~= Seq::<char>::empty());
        let mut out: Vec<Vec<Vec<char>>> = Vec::new();
        let ghost mut ps: Seq<Paint> = Seq::empty();
        let mut i: usize = 0;
        assert(rv.take(0) =~= Seq::<MdV>::empty());
        while i < rows.len()
            invariant
                rv == md_views(rows@),
                decreases_to!(n => rows),
                rv.len() == rows@.len(),
                forall|q: int| 0 <= q < rows@.len() ==> #[trigger] rv[q] == md_view(rows@[q]),
                empty@ == Seq::<char>::empty(),
                space@ == seq![' '],
                i <= rows@.len(),
                ps.len() == i,
                crate::table::rows_views(out@) == table_rows(*self, rv.take(i as int), w as int, ps),
            decreases rows.len() - i,
        {
            proof {
                assert(decreases_to!(rows => rows@));
                assert(decreases_to!(rows@ => rows@[i as int]));
                assert(decreases_to!(n => rows@[i as int]));
            }
            let ghost p: Paint;
            let ghost before = crate::table::rows_views(out@);
            match &rows[i] {
                MdNode::TableRow(cells) => {
                    proof {
                        assert(decreases_to!(rows@[i as int] => cells));
                        assert(decreases_to!(n => cells));
                    }
                    let ghost cv = md_views(cells@);
                    proof {
                        lemma_md_views(cells@);
                    }
                    let mut texts: Vec<Vec<char>> = Vec::new();
                    let ghost mut cps: Seq<Paint> = Seq::empty();
                    let mut j: usize = 0;
                    assert(cv.take(0) =~= Seq::<MdV>::empty());
                    while j < cells.len()
                        invariant
                            cv == md_views(cells@),
                            decreases_to!(n => cells),
                            cv.len() == cells@.len(),
                            forall|q: int| 0 <= q < cells@.len() ==> #[trigger] cv[q] == md_view(cells@[q]),
                            empty@ == Seq::<char>::empty(),
                            space@ == seq![' '],
                            j <= cells@.len(),
                            cps.len() == j,
                            cviews(texts@) == row_cells(*self, cv.take(j as int), w as int, cps),
                        decreases cells.len() - j,
                    {
                        proof {
                            assert(decreases_to!(cells => cells@));
                            assert(decreases_to!(cells@ => cells@[j as int]));
                            assert(decreases_to!(n => cells@[j as int]));
                        }
                        let ghost cp: Paint;
                        let t = match &cells[j] {
                            MdNode::TableCell(cc) => {
                                proof {
                                    assert(decreases_to!(n => cc));
                                }
                                let (parts, kp) = self.render_all(cc, w, &empty);
                                let inner = concat_exec(&parts);
                                let ws = crate::text::words_exec(inner.as_slice());
                                proof {
                                    cp = Paint { flags: Seq::empty(), kids: kp@ };
                                }
                                crate::text::join_by_exec(&ws, space.as_slice())
                            },
                            _ => {
                                proof {
                                    cp = Paint { flags: Seq::empty(), kids: Seq::empty() };
                                }
                                Vec::new()
                            },
                        };
                        assert(t@ == cell_text(*self, md_view(cells@[j as int]), w as int, cp));
                        let ghost prev = cps;
                        proof {
                            cps = cps.push(cp);
                            assert(cps.take(j as int) =~= prev.take(j as int));
                            lemma_row_cells_frame(*self, cv.take(j as int), w as int, cps, prev);
                        }
                        let ghost b = texts@;
                        texts.push(t);
                        assert(cv.take(j + 1).drop_last() =~= cv.take(j as int));
                        assert(cv.take(j + 1).last() == md_view(cells@[j as int]));
                        assert(cviews(texts@) =~= cviews(b).push(t@));
                        j += 1;
                    }
                    assert(cv.take(cells@.len() as int) =~= cv);
                    proof {
                        p = Paint { flags: Seq::empty(), kids: cps };
                    }
                    if cells.len() > 0 {
                        let ghost b = out@;
                        out.push(texts);
                        assert(crate::table::rows_views(out@) =~= crate::table::rows_views(b).push(cviews(texts@)));
                    }
                },
                _ => {
                    proof {
                        p = Paint { flags: Seq::empty(), kids: Seq::empty() };
                    }
                },
            }
            let ghost prev = ps;
            proof {
                ps = ps.push(p);
                assert(ps.take(i as int) =~= prev.take(i as int));
                lemma_table_rows_frame(*self, rv.take(i as int), w as int, ps, prev);
                assert(rv.take(i + 1).drop_last() =~= rv.take(i as int));
                assert(rv.take(i + 1).last() == md_view(rows@[i as int]));
            }
            i += 1;
        }
        assert(rv.take(rows@.len() as int) =~= rv);
        (out, Ghost(ps))
    }
}

} // verus!

verus! {

impl Default for Markdown {
    fn default() -> (r: Markdown)
        ensures
            r == Markdown::default_spec(),
    {
        Markdown::new()
    }
}

impl Markdown {
    /// Renders a parsed markdown tree for the terminal in `max_width` columns.
    /// Colored parts (stripes, bullets, inline code with a color) carry their
    /// escape codes when color output is on.
    pub fn render_tree(&self, tree: &MdNode, max_width: usize) -> (r: String)
        ensures
            exists|p: Paint| r@ == md_render(*self, tree@, max_width as int, Seq::empty(), p),
    {
        let empty: Vec<char> = Vec::new();
        let (x, p) = self.render_node(tree, max_width, &empty);
        assert(empty@ =~= Seq::<char>::empty());
        let r = string_of(x.as_slice());
        assert(r@ == md_render(*self, tree@, max_width as int, Seq::empty(), p@));
        r
    }

    /// Renders markdown text for the terminal in `max_width` columns; text
    /// that the parser refuses comes back unchanged.
    pub fn render(&self, content: &str, max_width: usize) -> (r: String)
        ensures
            match md_parse(content@) {
                Some(t) => exists|p: Paint| r@ == md_render(*self, t, max_width as int, Seq::empty(), p),
                None => r@ == content@,
            },
    {
        match parse_markdown(content) {
            Some(tree) => self.render_tree(&tree, max_width),
            None => {
                let v = chars_of(content);
                string_of(v.as_slice())
            },
        }
    }
}

/// Renders markdown text with the default settings.
pub fn markdown(content: &str, max_width: usize) -> (r: String)
    ensures
        match md_parse(content@) {
            Some(t) => exists|p: Paint| r@ == md_render(Markdown::default_spec(), t, max_width as int, Seq::empty(), p),
            None => r@ == content@,
        },
{
    let m = Markdown::new();
    m.render(content, max_width)
}

impl Markdown {
    /// The default settings.
    pub open spec fn default_spec() -> Markdown {
        Markdown {
            stripe_style: StripeStyle::Single,
            stripe_color: Some(TermColor::DarkGrey),
            bullet_style: BulletStyle::Dot,
            bullet_color: Some(TermColor::DarkGrey),
            code_color: None,
            theme: crate::theme::catppuccin::mocha_spec(),
        }
    }
}


/// A heading of depth 1 or 2 is a title: each line its text wraps into is
/// the indentation, then the line in bold (underlined too at depth 1), then a
/// line break, with no bullet before it.
pub proof fn law_title_heading(cfg: Markdown, d: u8, t: Seq<char>, w: int, indent: Seq<char>, p: Paint)
    requires
        d == 1 || d == 2,
    ensures
        ({
            let ls = wrap_terminal_text_spec(t, w as nat);
            let st = TextStyle { bold: true, underlined: d == 1, ..plain_spec() };
            md_render(cfg, MdV::Heading(d, seq![MdV::Text(t)]), w, indent, p)
                == crate::ansi::concat_all(Seq::new(ls.len(), |i: int| indent + styled_spec(ls[i], st, true) + nl()))
        }),
{
    let ch = seq![MdV::Text(t)];
    assert(ch.drop_last() =~= Seq::<MdV>::empty());
    assert(md_render_all(cfg, ch.drop_last(), w, indent, p.kids) =~= Seq::<Seq<char>>::empty());
    assert(ch.last() == MdV::Text(t));
    assert(md_render(cfg, MdV::Text(t), w, indent, p.kids[0]) == t);
    assert(md_render_all(cfg, ch, w, indent, p.kids) =~= seq![t]);
    assert(seq![t].drop_last() =~= Seq::<Seq<char>>::empty());
    assert(crate::ansi::concat_all(seq![t].drop_last()) =~= Seq::<char>::empty());
    assert(crate::ansi::concat_all(seq![t]) =~= t);
    assert(bold_st() == TextStyle { bold: true, underlined: false, ..plain_spec() });
}

} // verus!
