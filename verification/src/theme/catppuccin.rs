//! Catppuccin palettes.
use vstd::prelude::*;
use crate::paint::TermColor;
use crate::theme::CodeTheme;

verus! {

/// The Catppuccin Mocha palette (the default).
pub open spec fn mocha_spec() -> CodeTheme {
    CodeTheme {
        keyword: TermColor::Rgb { r: 203, g: 166, b: 247 },
        types: TermColor::Rgb { r: 249, g: 226, b: 175 },
        function: TermColor::Rgb { r: 137, g: 180, b: 250 },
        macro_name: TermColor::Rgb { r: 245, g: 194, b: 231 },
        builtin: TermColor::Rgb { r: 148, g: 226, b: 213 },
        operator: TermColor::Rgb { r: 137, g: 220, b: 235 },
        string: TermColor::Rgb { r: 166, g: 227, b: 161 },
        number: TermColor::Rgb { r: 250, g: 179, b: 135 },
        comment: TermColor::Rgb { r: 147, g: 153, b: 178 },
        variable: TermColor::Rgb { r: 245, g: 224, b: 220 },
        property: TermColor::Rgb { r: 242, g: 205, b: 205 },
        constant: TermColor::Rgb { r: 254, g: 100, b: 11 },
    }
}

/// The Catppuccin Mocha palette (the default).
pub fn mocha() -> (r: CodeTheme)
    ensures
        r == mocha_spec(),
{
    CodeTheme {
        keyword: TermColor::Rgb { r: 203, g: 166, b: 247 },
        types: TermColor::Rgb { r: 249, g: 226, b: 175 },
        function: TermColor::Rgb { r: 137, g: 180, b: 250 },
        macro_name: TermColor::Rgb { r: 245, g: 194, b: 231 },
        builtin: TermColor::Rgb { r: 148, g: 226, b: 213 },
        operator: TermColor::Rgb { r: 137, g: 220, b: 235 },
        string: TermColor::Rgb { r: 166, g: 227, b: 161 },
        number: TermColor::Rgb { r: 250, g: 179, b: 135 },
        comment: TermColor::Rgb { r: 147, g: 153, b: 178 },
        variable: TermColor::Rgb { r: 245, g: 224, b: 220 },
        property: TermColor::Rgb { r: 242, g: 205, b: 205 },
        constant: TermColor::Rgb { r: 254, g: 100, b: 11 },
    }
}

/// The Catppuccin Macchiato palette.
pub open spec fn macchiato_spec() -> CodeTheme {
    CodeTheme {
        keyword: TermColor::Rgb { r: 198, g: 160, b: 246 },
        types: TermColor::Rgb { r: 238, g: 212, b: 159 },
        function: TermColor::Rgb { r: 138, g: 173, b: 244 },
        macro_name: TermColor::Rgb { r: 245, g: 189, b: 230 },
        builtin: TermColor::Rgb { r: 139, g: 213, b: 202 },
        operator: TermColor::Rgb { r: 145, g: 215, b: 227 },
        string: TermColor::Rgb { r: 166, g: 218, b: 149 },
        number: TermColor::Rgb { r: 245, g: 169, b: 127 },
        comment: TermColor::Rgb { r: 147, g: 154, b: 183 },
        variable: TermColor::Rgb { r: 244, g: 219, b: 214 },
        property: TermColor::Rgb { r: 240, g: 198, b: 198 },
        constant: TermColor::Rgb { r: 237, g: 135, b: 150 },
    }
}

/// The Catppuccin Macchiato palette.
pub fn macchiato() -> (r: CodeTheme)
    ensures
        r == macchiato_spec(),
{
    CodeTheme {
        keyword: TermColor::Rgb { r: 198, g: 160, b: 246 },
        types: TermColor::Rgb { r: 238, g: 212, b: 159 },
        function: TermColor::Rgb { r: 138, g: 173, b: 244 },
        macro_name: TermColor::Rgb { r: 245, g: 189, b: 230 },
        builtin: TermColor::Rgb { r: 139, g: 213, b: 202 },
        operator: TermColor::Rgb { r: 145, g: 215, b: 227 },
        string: TermColor::Rgb { r: 166, g: 218, b: 149 },
        number: TermColor::Rgb { r: 245, g: 169, b: 127 },
        comment: TermColor::Rgb { r: 147, g: 154, b: 183 },
        variable: TermColor::Rgb { r: 244, g: 219, b: 214 },
        property: TermColor::Rgb { r: 240, g: 198, b: 198 },
        constant: TermColor::Rgb { r: 237, g: 135, b: 150 },
    }
}

/// The Catppuccin Frappé palette.
pub open spec fn frappe_spec() -> CodeTheme {
    CodeTheme {
        keyword: TermColor::Rgb { r: 202, g: 158, b: 230 },
        types: TermColor::Rgb { r: 229, g: 200, b: 144 },
        function: TermColor::Rgb { r: 140, g: 170, b: 238 },
        macro_name: TermColor::Rgb { r: 244, g: 184, b: 228 },
        builtin: TermColor::Rgb { r: 129, g: 200, b: 190 },
        operator: TermColor::Rgb { r: 153, g: 209, b: 219 },
        string: TermColor::Rgb { r: 166, g: 209, b: 137 },
        number: TermColor::Rgb { r: 239, g: 159, b: 118 },
        comment: TermColor::Rgb { r: 147, g: 153, b: 178 },
        variable: TermColor::Rgb { r: 242, g: 213, b: 207 },
        property: TermColor::Rgb { r: 238, g: 190, b: 190 },
        constant: TermColor::Rgb { r: 231, g: 130, b: 132 },
    }
}

/// The Catppuccin Frappé palette.
pub fn frappe() -> (r: CodeTheme)
    ensures
        r == frappe_spec(),
{
    CodeTheme {
        keyword: TermColor::Rgb { r: 202, g: 158, b: 230 },
        types: TermColor::Rgb { r: 229, g: 200, b: 144 },
        function: TermColor::Rgb { r: 140, g: 170, b: 238 },
        macro_name: TermColor::Rgb { r: 244, g: 184, b: 228 },
        builtin: TermColor::Rgb { r: 129, g: 200, b: 190 },
        operator: TermColor::Rgb { r: 153, g: 209, b: 219 },
        string: TermColor::Rgb { r: 166, g: 209, b: 137 },
        number: TermColor::Rgb { r: 239, g: 159, b: 118 },
        comment: TermColor::Rgb { r: 147, g: 153, b: 178 },
        variable: TermColor::Rgb { r: 242, g: 213, b: 207 },
        property: TermColor::Rgb { r: 238, g: 190, b: 190 },
        constant: TermColor::Rgb { r: 231, g: 130, b: 132 },
    }
}

/// The Catppuccin Latte palette.
pub open spec fn latte_spec() -> CodeTheme {
    CodeTheme {
        keyword: TermColor::Rgb { r: 136, g: 57, b: 239 },
        types: TermColor::Rgb { r: 223, g: 142, b: 29 },
        function: TermColor::Rgb { r: 30, g: 102, b: 245 },
        macro_name: TermColor::Rgb { r: 234, g: 118, b: 203 },
        builtin: TermColor::Rgb { r: 23, g: 146, b: 153 },
        operator: TermColor::Rgb { r: 4, g: 165, b: 229 },
        string: TermColor::Rgb { r: 64, g: 160, b: 43 },
        number: TermColor::Rgb { r: 254, g: 100, b: 11 },
        comment: TermColor::Rgb { r: 156, g: 160, b: 176 },
        variable: TermColor::Rgb { r: 220, g: 138, b: 120 },
        property: TermColor::Rgb { r: 221, g: 120, b: 120 },
        constant: TermColor::Rgb { r: 210, g: 15, b: 57 },
    }
}

/// The Catppuccin Latte palette.
pub fn latte() -> (r: CodeTheme)
    ensures
        r == latte_spec(),
{
    CodeTheme {
        keyword: TermColor::Rgb { r: 136, g: 57, b: 239 },
        types: TermColor::Rgb { r: 223, g: 142, b: 29 },
        function: TermColor::Rgb { r: 30, g: 102, b: 245 },
        macro_name: TermColor::Rgb { r: 234, g: 118, b: 203 },
        builtin: TermColor::Rgb { r: 23, g: 146, b: 153 },
        operator: TermColor::Rgb { r: 4, g: 165, b: 229 },
        string: TermColor::Rgb { r: 64, g: 160, b: 43 },
        number: TermColor::Rgb { r: 254, g: 100, b: 11 },
        comment: TermColor::Rgb { r: 156, g: 160, b: 176 },
        variable: TermColor::Rgb { r: 220, g: 138, b: 120 },
        property: TermColor::Rgb { r: 221, g: 120, b: 120 },
        constant: TermColor::Rgb { r: 210, g: 15, b: 57 },
    }
}

} // verus!
