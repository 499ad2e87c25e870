//! A markdown processor with pluggable renderers.
//!
//! Markdown text is held in a [`Markdown`] value and rendered with any type
//! that implements [`Render`].  An [`Html`] renderer is provided.

pub mod autolink;
pub mod block;
pub mod buffer;
pub mod chars;
pub mod document;
pub mod escape;
pub mod extensions;
pub mod html_blocks;
pub mod independence;
pub mod inline;
pub mod keeps;
pub mod laws;
pub mod lines;
pub mod markdown;
pub mod parser;
pub mod refs;
pub mod renderer;
pub mod replay;
pub mod scan;
pub mod smartypants;
pub mod tree;

pub use buffer::Buffer;
pub use extensions::{
    Extension, AUTOLINK, DISABLE_INDENTED_CODE, FENCED_CODE, FOOTNOTES, HIGHLIGHT, MATH,
    MATH_EXPLICIT, NO_INTRA_EMPHASIS, QUOTE, SPACE_HEADERS, STRIKETHROUGH, SUPERSCRIPT, TABLES,
    UNDERLINE,
};
pub use markdown::Markdown;
pub use renderer::{Render, Renderer};
pub use renderer::html::Html;
pub use renderer::trace::Trace;
pub use renderer::wrapper::Wrapper;
