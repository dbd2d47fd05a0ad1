//! The conversion settings.
use vstd::prelude::*;

verus! {

/// The settings of one conversion.
pub struct Params {
    /// The notebook file to read.
    pub input_path: String,
    /// The Markdown file to write; images go under its directory.
    pub output_path: String,
    /// Whether cell outputs are rendered at all.
    pub show_output: bool,
    /// Whether a horizontal rule separates consecutive cells.
    pub block_separator: bool,
    /// The image directory, relative to the output file's directory.
    pub image_dir: String,
}

} // verus!
