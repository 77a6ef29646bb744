//! Atom One palettes.
use vstd::prelude::*;
use crate::paint::TermColor;
use crate::theme::CodeTheme;

verus! {

/// The Atom One Dark palette.
pub open spec fn one_dark_spec() -> CodeTheme {
    CodeTheme {
        keyword: TermColor::Rgb { r: 198, g: 120, b: 221 },
        types: TermColor::Rgb { r: 229, g: 192, b: 123 },
        function: TermColor::Rgb { r: 97, g: 175, b: 239 },
        macro_name: TermColor::Rgb { r: 224, g: 108, b: 117 },
        builtin: TermColor::Rgb { r: 86, g: 182, b: 194 },
        operator: TermColor::Rgb { r: 86, g: 182, b: 194 },
        string: TermColor::Rgb { r: 152, g: 195, b: 121 },
        number: TermColor::Rgb { r: 209, g: 154, b: 102 },
        comment: TermColor::Rgb { r: 92, g: 99, b: 112 },
        variable: TermColor::Rgb { r: 171, g: 178, b: 191 },
        property: TermColor::Rgb { r: 224, g: 108, b: 117 },
        constant: TermColor::Rgb { r: 209, g: 154, b: 102 },
    }
}

/// The Atom One Dark palette.
pub fn one_dark() -> (r: CodeTheme)
    ensures
        r == one_dark_spec(),
{
    CodeTheme {
        keyword: TermColor::Rgb { r: 198, g: 120, b: 221 },
        types: TermColor::Rgb { r: 229, g: 192, b: 123 },
        function: TermColor::Rgb { r: 97, g: 175, b: 239 },
        macro_name: TermColor::Rgb { r: 224, g: 108, b: 117 },
        builtin: TermColor::Rgb { r: 86, g: 182, b: 194 },
        operator: TermColor::Rgb { r: 86, g: 182, b: 194 },
        string: TermColor::Rgb { r: 152, g: 195, b: 121 },
        number: TermColor::Rgb { r: 209, g: 154, b: 102 },
        comment: TermColor::Rgb { r: 92, g: 99, b: 112 },
        variable: TermColor::Rgb { r: 171, g: 178, b: 191 },
        property: TermColor::Rgb { r: 224, g: 108, b: 117 },
        constant: TermColor::Rgb { r: 209, g: 154, b: 102 },
    }
}

/// The Atom One Light palette of the Rust documentation.
pub open spec fn rust_docs_spec() -> CodeTheme {
    CodeTheme {
        keyword: TermColor::Rgb { r: 137, g: 89, b: 168 },
        types: TermColor::Rgb { r: 40, g: 116, b: 166 },
        function: TermColor::Rgb { r: 66, g: 113, b: 174 },
        macro_name: TermColor::Rgb { r: 62, g: 153, b: 159 },
        builtin: TermColor::Rgb { r: 199, g: 37, b: 78 },
        operator: TermColor::Rgb { r: 62, g: 153, b: 159 },
        string: TermColor::Rgb { r: 113, g: 140, b: 0 },
        number: TermColor::Rgb { r: 249, g: 145, b: 87 },
        comment: TermColor::Rgb { r: 142, g: 144, b: 140 },
        variable: TermColor::Rgb { r: 77, g: 78, b: 76 },
        property: TermColor::Rgb { r: 200, g: 40, b: 40 },
        constant: TermColor::Rgb { r: 249, g: 145, b: 87 },
    }
}

/// The Atom One Light palette of the Rust documentation.
pub fn rust_docs() -> (r: CodeTheme)
    ensures
        r == rust_docs_spec(),
{
    CodeTheme {
        keyword: TermColor::Rgb { r: 137, g: 89, b: 168 },
        types: TermColor::Rgb { r: 40, g: 116, b: 166 },
        function: TermColor::Rgb { r: 66, g: 113, b: 174 },
        macro_name: TermColor::Rgb { r: 62, g: 153, b: 159 },
        builtin: TermColor::Rgb { r: 199, g: 37, b: 78 },
        operator: TermColor::Rgb { r: 62, g: 153, b: 159 },
        string: TermColor::Rgb { r: 113, g: 140, b: 0 },
        number: TermColor::Rgb { r: 249, g: 145, b: 87 },
        comment: TermColor::Rgb { r: 142, g: 144, b: 140 },
        variable: TermColor::Rgb { r: 77, g: 78, b: 76 },
        property: TermColor::Rgb { r: 200, g: 40, b: 40 },
        constant: TermColor::Rgb { r: 249, g: 145, b: 87 },
    }
}

} // verus!
