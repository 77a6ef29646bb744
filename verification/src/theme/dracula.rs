//! The Dracula palette.
use vstd::prelude::*;
use crate::paint::TermColor;
use crate::theme::CodeTheme;

verus! {

/// The Dracula palette.
pub open spec fn official_spec() -> CodeTheme {
    CodeTheme {
        keyword: TermColor::Rgb { r: 255, g: 121, b: 198 },
        types: TermColor::Rgb { r: 139, g: 233, b: 253 },
        function: TermColor::Rgb { r: 80, g: 250, b: 123 },
        macro_name: TermColor::Rgb { r: 255, g: 184, b: 108 },
        builtin: TermColor::Rgb { r: 139, g: 233, b: 253 },
        operator: TermColor::Rgb { r: 255, g: 121, b: 198 },
        string: TermColor::Rgb { r: 241, g: 250, b: 140 },
        number: TermColor::Rgb { r: 189, g: 147, b: 249 },
        comment: TermColor::Rgb { r: 98, g: 114, b: 164 },
        variable: TermColor::Rgb { r: 248, g: 248, b: 242 },
        property: TermColor::Rgb { r: 255, g: 121, b: 198 },
        constant: TermColor::Rgb { r: 189, g: 147, b: 249 },
    }
}

/// The Dracula palette.
pub fn official() -> (r: CodeTheme)
    ensures
        r == official_spec(),
{
    CodeTheme {
        keyword: TermColor::Rgb { r: 255, g: 121, b: 198 },
        types: TermColor::Rgb { r: 139, g: 233, b: 253 },
        function: TermColor::Rgb { r: 80, g: 250, b: 123 },
        macro_name: TermColor::Rgb { r: 255, g: 184, b: 108 },
        builtin: TermColor::Rgb { r: 139, g: 233, b: 253 },
        operator: TermColor::Rgb { r: 255, g: 121, b: 198 },
        string: TermColor::Rgb { r: 241, g: 250, b: 140 },
        number: TermColor::Rgb { r: 189, g: 147, b: 249 },
        comment: TermColor::Rgb { r: 98, g: 114, b: 164 },
        variable: TermColor::Rgb { r: 248, g: 248, b: 242 },
        property: TermColor::Rgb { r: 255, g: 121, b: 198 },
        constant: TermColor::Rgb { r: 189, g: 147, b: 249 },
    }
}

} // verus!
