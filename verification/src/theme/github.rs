//! GitHub palettes.
use vstd::prelude::*;
use crate::paint::TermColor;
use crate::theme::CodeTheme;

verus! {

/// The GitHub dark palette.
pub open spec fn dark_spec() -> CodeTheme {
    CodeTheme {
        keyword: TermColor::Rgb { r: 255, g: 123, b: 114 },
        types: TermColor::Rgb { r: 121, g: 192, b: 255 },
        function: TermColor::Rgb { r: 210, g: 168, b: 255 },
        macro_name: TermColor::Rgb { r: 255, g: 166, b: 87 },
        builtin: TermColor::Rgb { r: 121, g: 192, b: 255 },
        operator: TermColor::Rgb { r: 255, g: 123, b: 114 },
        string: TermColor::Rgb { r: 165, g: 214, b: 255 },
        number: TermColor::Rgb { r: 121, g: 192, b: 255 },
        comment: TermColor::Rgb { r: 139, g: 148, b: 158 },
        variable: TermColor::Rgb { r: 201, g: 209, b: 217 },
        property: TermColor::Rgb { r: 121, g: 192, b: 255 },
        constant: TermColor::Rgb { r: 121, g: 192, b: 255 },
    }
}

/// The GitHub dark palette.
pub fn dark() -> (r: CodeTheme)
    ensures
        r == dark_spec(),
{
    CodeTheme {
        keyword: TermColor::Rgb { r: 255, g: 123, b: 114 },
        types: TermColor::Rgb { r: 121, g: 192, b: 255 },
        function: TermColor::Rgb { r: 210, g: 168, b: 255 },
        macro_name: TermColor::Rgb { r: 255, g: 166, b: 87 },
        builtin: TermColor::Rgb { r: 121, g: 192, b: 255 },
        operator: TermColor::Rgb { r: 255, g: 123, b: 114 },
        string: TermColor::Rgb { r: 165, g: 214, b: 255 },
        number: TermColor::Rgb { r: 121, g: 192, b: 255 },
        comment: TermColor::Rgb { r: 139, g: 148, b: 158 },
        variable: TermColor::Rgb { r: 201, g: 209, b: 217 },
        property: TermColor::Rgb { r: 121, g: 192, b: 255 },
        constant: TermColor::Rgb { r: 121, g: 192, b: 255 },
    }
}

/// The GitHub light palette.
pub open spec fn light_spec() -> CodeTheme {
    CodeTheme {
        keyword: TermColor::Rgb { r: 207, g: 34, b: 46 },
        types: TermColor::Rgb { r: 14, g: 116, b: 144 },
        function: TermColor::Rgb { r: 130, g: 80, b: 223 },
        macro_name: TermColor::Rgb { r: 149, g: 56, b: 0 },
        builtin: TermColor::Rgb { r: 5, g: 80, b: 174 },
        operator: TermColor::Rgb { r: 207, g: 34, b: 46 },
        string: TermColor::Rgb { r: 10, g: 48, b: 105 },
        number: TermColor::Rgb { r: 5, g: 80, b: 174 },
        comment: TermColor::Rgb { r: 108, g: 117, b: 125 },
        variable: TermColor::Rgb { r: 36, g: 41, b: 47 },
        property: TermColor::Rgb { r: 5, g: 80, b: 174 },
        constant: TermColor::Rgb { r: 5, g: 80, b: 174 },
    }
}

/// The GitHub light palette.
pub fn light() -> (r: CodeTheme)
    ensures
        r == light_spec(),
{
    CodeTheme {
        keyword: TermColor::Rgb { r: 207, g: 34, b: 46 },
        types: TermColor::Rgb { r: 14, g: 116, b: 144 },
        function: TermColor::Rgb { r: 130, g: 80, b: 223 },
        macro_name: TermColor::Rgb { r: 149, g: 56, b: 0 },
        builtin: TermColor::Rgb { r: 5, g: 80, b: 174 },
        operator: TermColor::Rgb { r: 207, g: 34, b: 46 },
        string: TermColor::Rgb { r: 10, g: 48, b: 105 },
        number: TermColor::Rgb { r: 5, g: 80, b: 174 },
        comment: TermColor::Rgb { r: 108, g: 117, b: 125 },
        variable: TermColor::Rgb { r: 36, g: 41, b: 47 },
        property: TermColor::Rgb { r: 5, g: 80, b: 174 },
        constant: TermColor::Rgb { r: 5, g: 80, b: 174 },
    }
}

} // verus!
