//! The Visual Studio Code Dark+ palette.
use vstd::prelude::*;
use crate::paint::TermColor;
use crate::theme::CodeTheme;

verus! {

/// The Visual Studio Code Dark+ palette.
pub open spec fn dark_plus_spec() -> CodeTheme {
    CodeTheme {
        keyword: TermColor::Rgb { r: 197, g: 134, b: 192 },
        types: TermColor::Rgb { r: 78, g: 201, b: 176 },
        function: TermColor::Rgb { r: 220, g: 220, b: 170 },
        macro_name: TermColor::Rgb { r: 78, g: 201, b: 176 },
        builtin: TermColor::Rgb { r: 86, g: 156, b: 214 },
        operator: TermColor::Rgb { r: 214, g: 214, b: 214 },
        string: TermColor::Rgb { r: 206, g: 145, b: 120 },
        number: TermColor::Rgb { r: 181, g: 206, b: 168 },
        comment: TermColor::Rgb { r: 106, g: 153, b: 85 },
        variable: TermColor::Rgb { r: 156, g: 220, b: 254 },
        property: TermColor::Rgb { r: 156, g: 220, b: 254 },
        constant: TermColor::Rgb { r: 79, g: 193, b: 255 },
    }
}

/// The Visual Studio Code Dark+ palette.
pub fn dark_plus() -> (r: CodeTheme)
    ensures
        r == dark_plus_spec(),
{
    CodeTheme {
        keyword: TermColor::Rgb { r: 197, g: 134, b: 192 },
        types: TermColor::Rgb { r: 78, g: 201, b: 176 },
        function: TermColor::Rgb { r: 220, g: 220, b: 170 },
        macro_name: TermColor::Rgb { r: 78, g: 201, b: 176 },
        builtin: TermColor::Rgb { r: 86, g: 156, b: 214 },
        operator: TermColor::Rgb { r: 214, g: 214, b: 214 },
        string: TermColor::Rgb { r: 206, g: 145, b: 120 },
        number: TermColor::Rgb { r: 181, g: 206, b: 168 },
        comment: TermColor::Rgb { r: 106, g: 153, b: 85 },
        variable: TermColor::Rgb { r: 156, g: 220, b: 254 },
        property: TermColor::Rgb { r: 156, g: 220, b: 254 },
        constant: TermColor::Rgb { r: 79, g: 193, b: 255 },
    }
}

} // verus!
