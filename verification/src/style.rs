//! Block decorations: padding, margins, borders, titles, and the symbol sets
//! of lines, spinners, stripes, bullets and separators.
use vstd::prelude::*;
use crate::text::{decimal, decimal_chars, push_char, string_of};

verus! {

/// Horizontal and vertical placement of a title on a block's border.
#[derive(Debug, Clone, Copy, PartialEq, Eq, Structural, Default)]
pub enum Align {
    /// Aligned to the left of the top border.
    #[default]
    TopLeft,
    /// Centered along the top border.
    TopCenter,
    /// Aligned to the right of the top border.
    TopRight,
    /// Aligned to the left of the bottom border.
    BottomLeft,
    /// Centered along the bottom border.
    BottomCenter,
    /// Aligned to the right of the bottom border.
    BottomRight,
}

/// A title attached to a block's border.
#[derive(Debug, Clone)]
pub struct Title {
    /// The text content of the title.
    pub text: String,
    /// The alignment of the title along the block border.
    pub align: Align,
}

/// Internal spacing between the block's border and its content.
#[derive(Debug, Clone, Copy, PartialEq, Eq, Structural, Default)]
pub struct Padding {
    pub top: usize,
    pub right: usize,
    pub bottom: usize,
    pub left: usize,
}

impl Padding {
    /// Creates a padding with explicit values for each side.
    pub fn new(top: usize, right: usize, bottom: usize, left: usize) -> (r: Self)
        ensures
            r == (Padding { top, right, bottom, left }),
    {
        Padding { top, right, bottom, left }
    }

    /// Equal `top` and `bottom`, no horizontal padding.
    pub fn ver(indent: usize) -> (r: Self)
        ensures
            r == (Padding { top: indent, right: 0, bottom: indent, left: 0 }),
    {
        Self::new(indent, 0, indent, 0)
    }

    /// Equal `left` and `right`, no vertical padding.
    pub fn hor(indent: usize) -> (r: Self)
        ensures
            r == (Padding { top: 0, right: indent, bottom: 0, left: indent }),
    {
        Self::new(0, indent, 0, indent)
    }

    /// Sets the top padding.
    pub fn top(self, indent: usize) -> (r: Self)
        ensures
            r == (Padding { top: indent, ..self }),
    {
        Padding { top: indent, ..self }
    }

    /// Sets the bottom padding.
    pub fn bottom(self, indent: usize) -> (r: Self)
        ensures
            r == (Padding { bottom: indent, ..self }),
    {
        Padding { bottom: indent, ..self }
    }

    /// Sets the left padding.
    pub fn left(self, indent: usize) -> (r: Self)
        ensures
            r == (Padding { left: indent, ..self }),
    {
        Padding { left: indent, ..self }
    }

    /// Sets the right padding.
    pub fn right(self, indent: usize) -> (r: Self)
        ensures
            r == (Padding { right: indent, ..self }),
    {
        Padding { right: indent, ..self }
    }
}

/// External spacing outside the block's border.
#[derive(Debug, Clone, Copy, PartialEq, Eq, Structural, Default)]
pub struct Margin {
    pub top: usize,
    pub right: usize,
    pub bottom: usize,
    pub left: usize,
}

impl Margin {
    /// Creates a margin with explicit values for each side.
    pub fn new(top: usize, right: usize, bottom: usize, left: usize) -> (r: Self)
        ensures
            r == (Margin { top, right, bottom, left }),
    {
        Margin { top, right, bottom, left }
    }

    /// Equal `top` and `bottom`, no horizontal margin.
    pub fn ver(indent: usize) -> (r: Self)
        ensures
            r == (Margin { top: indent, right: 0, bottom: indent, left: 0 }),
    {
        Self::new(indent, 0, indent, 0)
    }

    /// Equal `left` and `right`, no vertical margin.
    pub fn hor(indent: usize) -> (r: Self)
        ensures
            r == (Margin { top: 0, right: indent, bottom: 0, left: indent }),
    {
        Self::new(0, indent, 0, indent)
    }

    /// Sets the top margin.
    pub fn top(self, indent: usize) -> (r: Self)
        ensures
            r == (Margin { top: indent, ..self }),
    {
        Margin { top: indent, ..self }
    }

    /// Sets the bottom margin.
    pub fn bottom(self, indent: usize) -> (r: Self)
        ensures
            r == (Margin { bottom: indent, ..self }),
    {
        Margin { bottom: indent, ..self }
    }

    /// Sets the left margin.
    pub fn left(self, indent: usize) -> (r: Self)
        ensures
            r == (Margin { left: indent, ..self }),
    {
        Margin { left: indent, ..self }
    }

    /// Sets the right margin.
    pub fn right(self, indent: usize) -> (r: Self)
        ensures
            r == (Margin { right: indent, ..self }),
    {
        Margin { right: indent, ..self }
    }
}

/// Visual style of a block's border.
#[derive(Debug, Clone, Copy, PartialEq, Eq, Structural, Default)]
pub enum BorderStyle {
    /// No border is drawn.
    #[default]
    Hidden,
    /// Single thin line (`┌ ┐ └ ┘ ─ │`).
    Solid,
    /// Single thin line with rounded corners (`╭ ╮ ╰ ╯ ─ │`).
    Rounded,
    /// Double line (`╔ ╗ ╚ ╝ ═ ║`).
    Double,
}

/// Border characters `(top_left, top_right, bottom_left, bottom_right, horizontal, vertical)`.
pub open spec fn border_chars(b: BorderStyle) -> (char, char, char, char, char, char) {
    match b {
        BorderStyle::Hidden => (' ', ' ', ' ', ' ', ' ', ' '),
        BorderStyle::Solid => ('┌', '┐', '└', '┘', '─', '│'),
        BorderStyle::Rounded => ('╭', '╮', '╰', '╯', '─', '│'),
        BorderStyle::Double => ('╔', '╗', '╚', '╝', '═', '║'),
    }
}

impl BorderStyle {
    /// The characters forming the border corners and sides, in the order
    /// `(top_left, top_right, bottom_left, bottom_right, horizontal, vertical)`.
    pub fn as_chars(&self) -> (r: (char, char, char, char, char, char))
        ensures
            r == border_chars(*self),
    {
        match self {
            BorderStyle::Hidden => (' ', ' ', ' ', ' ', ' ', ' '),
            BorderStyle::Solid => ('┌', '┐', '└', '┘', '─', '│'),
            BorderStyle::Rounded => ('╭', '╮', '╰', '╯', '─', '│'),
            BorderStyle::Double => ('╔', '╗', '╚', '╝', '═', '║'),
        }
    }
}

/// Visual style of a horizontal divider line.
#[derive(Debug, Clone, Copy, PartialEq, Eq, Structural, Default)]
pub enum LineStyle {
    #[default]
    Hidden,
    Solid,
    Dashed,
    Dotted,
    Double,
    Heavy,
}

pub open spec fn line_char(l: LineStyle) -> char {
    match l {
        LineStyle::Hidden => ' ',
        LineStyle::Solid => '─',
        LineStyle::Dashed => '╌',
        LineStyle::Dotted => '┈',
        LineStyle::Double => '═',
        LineStyle::Heavy => '━',
    }
}

impl LineStyle {
    /// The character the line is drawn with.
    pub fn as_char(&self) -> (r: char)
        ensures
            r == line_char(*self),
    {
        match self {
            LineStyle::Hidden => ' ',
            LineStyle::Solid => '─',
            LineStyle::Dashed => '╌',
            LineStyle::Dotted => '┈',
            LineStyle::Double => '═',
            LineStyle::Heavy => '━',
        }
    }
}

/// Animation presets for the spinner.
#[derive(Debug, Clone, Copy, PartialEq, Eq, Structural, Default)]
pub enum SpinnerStyle {
    /// Braille dots: `⠋ ⠙ ⠹ ⠸ ⠼ ⠴ ⠦ ⠧ ⠇ ⠏`.
    #[default]
    Dots,
    /// Mini Braille dots: `⠄ ⠆ ⠇ ⠋ ⠙ ⠸ ⠰ ⠠`.
    MiniDots,
    /// ASCII pipe: `| / - \`.
    Line,
    /// No spinner icon.
    Hidden,
}

pub open spec fn spinner_frames(st: SpinnerStyle) -> Seq<char> {
    match st {
        SpinnerStyle::Dots => seq!['⠋', '⠙', '⠹', '⠸', '⠼', '⠴', '⠦', '⠧', '⠇', '⠏'],
        SpinnerStyle::MiniDots => seq!['⠄', '⠆', '⠇', '⠋', '⠙', '⠸', '⠰', '⠠'],
        SpinnerStyle::Line => seq!['|', '/', '-', '\\'],
        SpinnerStyle::Hidden => Seq::empty(),
    }
}

impl SpinnerStyle {
    /// The animation frames of the spinner.
    pub fn frames(&self) -> (r: Vec<char>)
        ensures
            r@ == spinner_frames(*self),
    {
        let r = match self {
            SpinnerStyle::Dots => vec!['⠋', '⠙', '⠹', '⠸', '⠼', '⠴', '⠦', '⠧', '⠇', '⠏'],
            SpinnerStyle::MiniDots => vec!['⠄', '⠆', '⠇', '⠋', '⠙', '⠸', '⠰', '⠠'],
            SpinnerStyle::Line => vec!['|', '/', '-', '\\'],
            SpinnerStyle::Hidden => Vec::new(),
        };
        assert(r@ =~= spinner_frames(*self));
        r
    }
}

/// Styles of the vertical stripe left of a quote or code block.
#[derive(Debug, Clone, Copy, PartialEq, Eq, Structural, Default)]
pub enum StripeStyle {
    #[default]
    Hidden,
    Single,
    Double,
    Thick,
    Dotted,
    Custom(char),
}

pub open spec fn stripe_char(st: StripeStyle) -> char {
    match st {
        StripeStyle::Hidden => ' ',
        StripeStyle::Single => '│',
        StripeStyle::Double => '║',
        StripeStyle::Thick => '▌',
        StripeStyle::Dotted => '┊',
        StripeStyle::Custom(ch) => ch,
    }
}

impl StripeStyle {
    /// The character the stripe is drawn with.
    pub fn char(&self) -> (r: char)
        ensures
            r == stripe_char(*self),
    {
        match self {
            StripeStyle::Hidden => ' ',
            StripeStyle::Single => '│',
            StripeStyle::Double => '║',
            StripeStyle::Thick => '▌',
            StripeStyle::Dotted => '┊',
            StripeStyle::Custom(ch) => *ch,
        }
    }
}

/// Bullet point styles for lists.
#[derive(Debug, Clone, Copy, PartialEq, Eq, Default)]
pub enum BulletStyle {
    #[default]
    Dot,
    Circle,
    Square,
    Dash,
    Arrow,
    Triangle,
    Star,
    Check,
    Cross,
    /// Numbered (`1.`, `2.`, ...).
    Number,
    /// A custom symbol.
    Custom(&'static str),
}

/// The bullet symbol of item `index`.
pub open spec fn bullet_symbol(b: BulletStyle, index: nat) -> Seq<char> {
    match b {
        BulletStyle::Dot => seq!['•'],
        BulletStyle::Circle => seq!['◦'],
        BulletStyle::Square => seq!['▪'],
        BulletStyle::Dash => seq!['-'],
        BulletStyle::Arrow => seq!['➔'],
        BulletStyle::Triangle => seq!['▶'],
        BulletStyle::Star => seq!['★'],
        BulletStyle::Check => seq!['✔'],
        BulletStyle::Cross => seq!['✖'],
        BulletStyle::Number => decimal(index + 1).push('.'),
        BulletStyle::Custom(s) => s@,
    }
}

fn one_char(c: char) -> (r: String)
    ensures
        r@ == seq![c],
{
    let mut s = String::new();
    push_char(&mut s, c);
    s
}

impl BulletStyle {
    /// The bullet symbol for the item at `index` (numbers count from 1).
    pub fn render_symbol(&self, index: usize) -> (r: String)
        requires
            index < usize::MAX,
        ensures
            r@ == bullet_symbol(*self, index as nat),
    {
        match self {
            BulletStyle::Dot => one_char('•'),
            BulletStyle::Circle => one_char('◦'),
            BulletStyle::Square => one_char('▪'),
            BulletStyle::Dash => one_char('-'),
            BulletStyle::Arrow => one_char('➔'),
            BulletStyle::Triangle => one_char('▶'),
            BulletStyle::Star => one_char('★'),
            BulletStyle::Check => one_char('✔'),
            BulletStyle::Cross => one_char('✖'),
            BulletStyle::Number => {
                let mut d = decimal_chars(index + 1);
                d.push('.');
                string_of(d.as_slice())
            },
            BulletStyle::Custom(s) => String::from_str(s),
        }
    }
}

/// Separators between key-value pairs.
#[derive(Debug, Clone, Copy, PartialEq, Eq, Default)]
pub enum SeparatorStyle {
    #[default]
    Colon,
    Arrow,
    FatArrow,
    Pipe,
    Dot,
    Tilde,
    Custom(&'static str),
}

pub open spec fn separator_text(s: SeparatorStyle) -> Seq<char> {
    match s {
        SeparatorStyle::Colon => seq![':'],
        SeparatorStyle::Arrow => seq!['➔'],
        SeparatorStyle::FatArrow => seq!['⇒'],
        SeparatorStyle::Pipe => seq!['|'],
        SeparatorStyle::Dot => seq!['•'],
        SeparatorStyle::Tilde => seq!['~'],
        SeparatorStyle::Custom(t) => t@,
    }
}

impl SeparatorStyle {
    /// The separator text.
    pub fn as_str(&self) -> (r: &'static str)
        ensures
            r@ == separator_text(*self),
    {
        match self {
            SeparatorStyle::Colon => {
                proof { reveal_strlit(":"); }
                ":"
            },
            SeparatorStyle::Arrow => {
                proof { reveal_strlit("➔"); }
                "➔"
            },
            SeparatorStyle::FatArrow => {
                proof { reveal_strlit("⇒"); }
                "⇒"
            },
            SeparatorStyle::Pipe => {
                proof { reveal_strlit("|"); }
                "|"
            },
            SeparatorStyle::Dot => {
                proof { reveal_strlit("•"); }
                "•"
            },
            SeparatorStyle::Tilde => {
                proof { reveal_strlit("~"); }
                "~"
            },
            SeparatorStyle::Custom(s) => s,
        }
    }
}

} // verus!
