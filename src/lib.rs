//! Conversion of notebook documents into Markdown with embedded HTML.
pub mod document;
pub mod markdown_parser;
pub mod markdown_writer;
pub mod params;
pub mod parser;
pub mod text;
pub mod util;
