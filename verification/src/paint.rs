//! Terminal colors and text attributes, rendered through `crossterm`.
use vstd::prelude::*;
use crate::ansi::esc;
use crate::text::decimal;
use crossterm::style::Attribute as A;
use crossterm::style::Color as K;

verus! {

/// A terminal color (the palette of `crossterm`).
#[derive(Debug, Clone, Copy, PartialEq, Eq, Structural)]
pub enum TermColor {
    Reset,
    Black,
    DarkGrey,
    Red,
    DarkRed,
    Green,
    DarkGreen,
    Yellow,
    DarkYellow,
    Blue,
    DarkBlue,
    Magenta,
    DarkMagenta,
    Cyan,
    DarkCyan,
    White,
    Grey,
    Rgb { r: u8, g: u8, b: u8 },
    AnsiValue(u8),
}

/// A text attribute.
#[derive(Debug, Clone, Copy, PartialEq, Eq, Structural)]
pub enum TextAttr {
    Bold,
    Dim,
    Italic,
    Underlined,
}

/// `crossterm`'s color type, carried through opaquely.
#[verifier::external_type_specification]
#[verifier::external_body]
pub struct ExCrosstermColor(crossterm::style::Color);

/// `crossterm`'s text attribute type, carried through opaquely.
#[verifier::external_type_specification]
#[verifier::external_body]
pub struct ExCrosstermAttribute(crossterm::style::Attribute);

/// Converts a color of this library into the `crossterm` color of the same name.
#[verifier::external_body]
fn to_crossterm_color(c: TermColor) -> crossterm::style::Color {
    match c {
        TermColor::Reset => K::Reset, TermColor::Black => K::Black, TermColor::DarkGrey => K::DarkGrey,
        TermColor::Red => K::Red, TermColor::DarkRed => K::DarkRed, TermColor::Green => K::Green,
        TermColor::DarkGreen => K::DarkGreen, TermColor::Yellow => K::Yellow, TermColor::DarkYellow => K::DarkYellow,
        TermColor::Blue => K::Blue, TermColor::DarkBlue => K::DarkBlue, TermColor::Magenta => K::Magenta,
        TermColor::DarkMagenta => K::DarkMagenta, TermColor::Cyan => K::Cyan, TermColor::DarkCyan => K::DarkCyan,
        TermColor::White => K::White, TermColor::Grey => K::Grey,
        TermColor::Rgb { r, g, b } => K::Rgb { r, g, b }, TermColor::AnsiValue(v) => K::AnsiValue(v),
    }
}

/// Converts a text attribute of this library into the `crossterm` attribute of the same name.
#[verifier::external_body]
fn to_crossterm_attr(a: TextAttr) -> crossterm::style::Attribute {
    match a {
        TextAttr::Bold => A::Bold, TextAttr::Dim => A::Dim,
        TextAttr::Italic => A::Italic, TextAttr::Underlined => A::Underlined,
    }
}

/// The color parameters `crossterm` writes after `38;` or `48;`.
pub open spec fn color_code(c: TermColor) -> Seq<char> {
    match c {
        TermColor::Black => seq!['5', ';', '0'],
        TermColor::DarkGrey => seq!['5', ';', '8'],
        TermColor::Red => seq!['5', ';', '9'],
        TermColor::DarkRed => seq!['5', ';', '1'],
        TermColor::Green => seq!['5', ';', '1', '0'],
        TermColor::DarkGreen => seq!['5', ';', '2'],
        TermColor::Yellow => seq!['5', ';', '1', '1'],
        TermColor::DarkYellow => seq!['5', ';', '3'],
        TermColor::Blue => seq!['5', ';', '1', '2'],
        TermColor::DarkBlue => seq!['5', ';', '4'],
        TermColor::Magenta => seq!['5', ';', '1', '3'],
        TermColor::DarkMagenta => seq!['5', ';', '5'],
        TermColor::Cyan => seq!['5', ';', '1', '4'],
        TermColor::DarkCyan => seq!['5', ';', '6'],
        TermColor::White => seq!['5', ';', '1', '5'],
        TermColor::Grey => seq!['5', ';', '7'],
        TermColor::Rgb { r, g, b } => seq!['2', ';'] + decimal(r as nat) + seq![';'] + decimal(g as nat) + seq![';']
            + decimal(b as nat),
        TermColor::AnsiValue(v) => seq!['5', ';'] + decimal(v as nat),
        TermColor::Reset => Seq::empty(),
    }
}

/// `ESC [ params m`.
pub open spec fn csi_m(params: Seq<char>) -> Seq<char> {
    seq![esc(), '['] + params + seq!['m']
}

/// Parameters selecting a foreground (`base` 3) or background (`base` 4) color;
/// empty when `crossterm` has color output switched off (`NO_COLOR`).
pub open spec fn color_params(c: TermColor, base: char, colors_on: bool) -> Seq<char> {
    if !colors_on {
        Seq::empty()
    } else if c == TermColor::Reset {
        seq![base, '9']
    } else {
        seq![base, '8', ';'] + color_code(c)
    }
}

pub open spec fn opt_color_seq(c: Option<TermColor>, base: char, colors_on: bool) -> Seq<char> {
    match c {
        Some(col) => csi_m(color_params(col, base, colors_on)),
        None => Seq::empty(),
    }
}

pub open spec fn attr_seq(attrs: Seq<TextAttr>, a: TextAttr, code: char) -> Seq<char> {
    if attrs.contains(a) {
        csi_m(seq![code])
    } else {
        Seq::empty()
    }
}

/// The sequences setting the attributes, in `crossterm`'s fixed order.
pub open spec fn attrs_seq(attrs: Seq<TextAttr>) -> Seq<char> {
    attr_seq(attrs, TextAttr::Bold, '1') + attr_seq(attrs, TextAttr::Dim, '2') + attr_seq(attrs, TextAttr::Italic, '3')
        + attr_seq(attrs, TextAttr::Underlined, '4')
}

/// The sequences closing the styled text: a full reset after attributes, else
/// a return to the default background and foreground colors.
pub open spec fn closing_seq(fg: Option<TermColor>, bg: Option<TermColor>, attrs: Seq<TextAttr>, colors_on: bool) -> Seq<char> {
    if attrs.len() > 0 {
        csi_m(seq!['0'])
    } else {
        opt_color_seq(match bg { Some(_) => Some(TermColor::Reset), None => None }, '4', colors_on)
            + opt_color_seq(match fg { Some(_) => Some(TermColor::Reset), None => None }, '3', colors_on)
    }
}

/// The text `crossterm` prints for `s` styled with the given colors and attributes.
pub open spec fn paint_spec(s: Seq<char>, fg: Option<TermColor>, bg: Option<TermColor>, attrs: Seq<TextAttr>, colors_on: bool) -> Seq<char> {
    opt_color_seq(bg, '4', colors_on) + opt_color_seq(fg, '3', colors_on) + attrs_seq(attrs) + s
        + closing_seq(fg, bg, attrs, colors_on)
}

/// Styles `s` through `crossterm` (`ContentStyle::apply` and its `Display`).
/// The text is exactly `paint_spec` with color output on or off: `crossterm`
/// switches colors off process-wide when `NO_COLOR` is set, which the
/// contract cannot see, so it states both outcomes.
#[verifier::external_body]
fn paint_raw(s: &str, fg: Option<TermColor>, bg: Option<TermColor>, attrs: &[TextAttr]) -> (r: String)
    ensures
        r@ == paint_spec(s@, fg, bg, attrs@, true) || r@ == paint_spec(s@, fg, bg, attrs@, false),
{
    let list: Vec<crossterm::style::Attribute> = attrs.iter().copied().map(to_crossterm_attr).collect();
    let mut cs = crossterm::style::ContentStyle::new();
    cs.foreground_color = fg.map(to_crossterm_color);
    cs.background_color = bg.map(to_crossterm_color);
    cs.attributes = crossterm::style::Attributes::from(list.as_slice());
    cs.apply(s).to_string()
}

/// A complete text style.
#[derive(Debug, Clone, Copy, PartialEq, Eq, Structural)]
pub struct TextStyle {
    pub fg: Option<TermColor>,
    pub bg: Option<TermColor>,
    pub bold: bool,
    pub dim: bool,
    pub italic: bool,
    pub underlined: bool,
}

/// The attributes a style sets, in their fixed order.
pub open spec fn style_attrs(st: TextStyle) -> Seq<TextAttr> {
    (if st.bold { seq![TextAttr::Bold] } else { Seq::empty() })
        + (if st.dim { seq![TextAttr::Dim] } else { Seq::empty() })
        + (if st.italic { seq![TextAttr::Italic] } else { Seq::empty() })
        + (if st.underlined { seq![TextAttr::Underlined] } else { Seq::empty() })
}

/// The text printed for `s` in style `st`.
pub open spec fn styled_spec(s: Seq<char>, st: TextStyle, colors_on: bool) -> Seq<char> {
    paint_spec(s, st.fg, st.bg, style_attrs(st), colors_on)
}

/// Whether `out` is what `crossterm` prints for `s` in style `st`, with color
/// output either on or off.
pub open spec fn is_styled(out: Seq<char>, s: Seq<char>, st: TextStyle) -> bool {
    out == styled_spec(s, st, true) || out == styled_spec(s, st, false)
}

/// Without colors the printed text does not depend on whether color output is on.
pub proof fn lemma_styled_no_color(s: Seq<char>, st: TextStyle)
    requires
        st.fg is None,
        st.bg is None,
    ensures
        styled_spec(s, st, true) == styled_spec(s, st, false),
{
}

fn style_attr_list(st: TextStyle) -> (r: Vec<TextAttr>)
    ensures
        r@ == style_attrs(st),
{
    let mut r: Vec<TextAttr> = Vec::new();
    if st.bold {
        r.push(TextAttr::Bold);
    }
    if st.dim {
        r.push(TextAttr::Dim);
    }
    if st.italic {
        r.push(TextAttr::Italic);
    }
    if st.underlined {
        r.push(TextAttr::Underlined);
    }
    assert(r@ =~= style_attrs(st));
    r
}

/// Renders `s` in style `st`.
pub fn styled(s: &str, st: TextStyle) -> (r: String)
    ensures
        is_styled(r@, s@, st),
{
    let attrs = style_attr_list(st);
    paint_raw(s, st.fg, st.bg, attrs.as_slice())
}

/// The plain style.
pub open spec fn plain_spec() -> TextStyle {
    TextStyle { fg: None, bg: None, bold: false, dim: false, italic: false, underlined: false }
}

/// The bold style.
pub open spec fn bold_spec() -> TextStyle {
    TextStyle { bold: true, ..plain_spec() }
}

/// Renders `s` in bold: `ESC[1m`, the text, `ESC[0m`.
pub fn bold(s: &str) -> (r: String)
    ensures
        r@ == styled_spec(s@, bold_spec(), true),
{
    let st = TextStyle { fg: None, bg: None, bold: true, dim: false, italic: false, underlined: false };
    proof {
        lemma_styled_no_color(s@, st);
    }
    styled(s, st)
}

/// Renders `s` in style `st`, giving also whether color output was on.
pub(crate) fn paint_logged(s: &Vec<char>, st: TextStyle) -> (r: (Vec<char>, Ghost<bool>))
    ensures
        r.0@ == styled_spec(s@, st, r.1@),
{
    let t = crate::text::string_of(s.as_slice());
    let u = styled(t.as_str(), st);
    let c = crate::text::chars_of(u.as_str());
    let ghost on = c@ == styled_spec(s@, st, true);
    (c, Ghost(on))
}

/// Renders `s` in a style without colors, which prints the same whatever the color setting.
pub(crate) fn fixed_styled(s: &Vec<char>, st: TextStyle) -> (r: Vec<char>)
    requires
        st.fg is None,
        st.bg is None,
    ensures
        r@ == styled_spec(s@, st, true),
{
    proof {
        lemma_styled_no_color(s@, st);
    }
    let t = crate::text::string_of(s.as_slice());
    let u = styled(t.as_str(), st);
    crate::text::chars_of(u.as_str())
}

} // verus!
