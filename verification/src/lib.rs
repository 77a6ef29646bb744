//! Inline terminal UI building blocks: ANSI-aware text layout, markdown
//! rendering, command-line routing and interactive widget state machines.
pub mod text;
pub mod ansi;
pub mod styled;
pub mod paint;
pub mod style;
pub mod superscript;
pub mod parser;
pub mod input;
pub mod block;
pub mod frame_loop;
pub mod print;
pub mod md;
pub mod table;
pub mod text_widget;
pub mod highlight;
pub mod fields;
pub mod tree;
pub mod select;
pub mod confirm;
pub mod line;
pub mod list;
pub mod progress;
pub mod table_widget;
pub mod theme;
