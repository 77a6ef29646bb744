//! Color themes for code highlighting: a color for each kind of token.
use vstd::prelude::*;
use crate::paint::TermColor;

pub mod atom;
pub mod catppuccin;
pub mod dracula;
pub mod github;
pub mod vscode;

verus! {

/// The color of each kind of token.
#[derive(Debug, Clone, Copy)]
pub struct CodeTheme {
    pub keyword: TermColor,
    pub types: TermColor,
    pub function: TermColor,
    pub macro_name: TermColor,
    pub builtin: TermColor,
    pub operator: TermColor,
    pub string: TermColor,
    pub number: TermColor,
    pub comment: TermColor,
    pub variable: TermColor,
    pub property: TermColor,
    pub constant: TermColor,
}

/// The capture names a highlighter is configured with, in index order:
/// keyword, type, constructor, function, function.method, function.macro,
/// builtin, operator, string, number, boolean, comment, variable, property,
/// constant.
pub open spec fn capture_names() -> Seq<Seq<char>> {
    seq![
        "keyword"@, "type"@, "constructor"@, "function"@, "function.method"@, "function.macro"@,
        "builtin"@, "operator"@, "string"@, "number"@, "boolean"@, "comment"@, "variable"@,
        "property"@, "constant"@,
    ]
}

/// The capture names (see `capture_names`).
pub fn highlight_names() -> (r: Vec<&'static str>)
    ensures
        r@.map_values(|s: &str| s@) == capture_names(),
{
    let r = vec![
        "keyword", "type", "constructor", "function", "function.method", "function.macro", "builtin", "operator",
        "string", "number", "boolean", "comment", "variable", "property", "constant",
    ];
    assert(r@.map_values(|s: &str| s@) =~= capture_names());
    r
}

/// The color for capture `index` (see `highlight_names`); the reset color
/// past the names.
pub open spec fn color_for(t: CodeTheme, index: int) -> TermColor {
    if index == 0 {
        t.keyword
    } else if index == 1 || index == 2 {
        t.types
    } else if index == 3 || index == 4 {
        t.function
    } else if index == 5 {
        t.macro_name
    } else if index == 6 {
        t.builtin
    } else if index == 7 {
        t.operator
    } else if index == 8 {
        t.string
    } else if index == 9 || index == 10 {
        t.number
    } else if index == 11 {
        t.comment
    } else if index == 12 {
        t.variable
    } else if index == 13 {
        t.property
    } else if index == 14 {
        t.constant
    } else {
        TermColor::Reset
    }
}

impl CodeTheme {
    /// The color for capture `index` (see `color_for`).
    pub fn color_for_index(&self, index: usize) -> (r: TermColor)
        ensures
            r == color_for(*self, index as int),
    {
        match index {
            0 => self.keyword,
            1 | 2 => self.types,
            3 | 4 => self.function,
            5 => self.macro_name,
            6 => self.builtin,
            7 => self.operator,
            8 => self.string,
            9 | 10 => self.number,
            11 => self.comment,
            12 => self.variable,
            13 => self.property,
            14 => self.constant,
            _ => TermColor::Reset,
        }
    }
}

impl Default for CodeTheme {
    /// The Catppuccin Mocha palette.
    fn default() -> (r: CodeTheme)
        ensures
            r == crate::theme::catppuccin::mocha_spec(),
    {
        crate::theme::catppuccin::mocha()
    }
}

} // verus!
