//! Rendering of a notebook model as Markdown with embedded HTML.
use vstd::prelude::*;
use crate::markdown_parser::{cell_views, CellType, CellView, Notebook};
use crate::params::Params;
use crate::text::concat;

verus! {

pub open spec fn error_block_open() -> Seq<char> {
    "<p style='font-family: Consolas,system-ui'>"@
}

/// The Markdown of one cell, before the separator that follows it.
pub open spec fn cell_markdown(c: CellView, show_output: bool) -> Seq<char> {
    match c.cell_type {
        CellType::Code => {
            let out = if show_output && c.outputs.len() > 0 {
                "\n<p>\n"@ + c.outputs + "\n</p>\n\n"@
            } else {
                Seq::empty()
            };
            let err = if show_output && c.error_outputs.len() > 0 {
                error_block_open() + c.error_outputs + "\n</p>\n\n"@
            } else {
                Seq::empty()
            };
            "```python\n"@ + c.source + "\n```\n"@ + out + err
        },
        CellType::Markdown => c.source + "\n"@ + "\n"@,
    }
}

/// What follows the `i`-th of `n` cells.
pub open spec fn separator(i: int, n: int, block_separator: bool) -> Seq<char> {
    if block_separator && i != n - 1 {
        "\n------\n\n"@
    } else {
        "\n"@
    }
}

/// The Markdown of the first `k` of `cells`, each followed by its separator.
pub open spec fn markdown_prefix(cells: Seq<CellView>, k: int, show_output: bool, block_separator: bool) -> Seq<char> {
    concat(Seq::new(k as nat, |i: int| cell_markdown(cells[i], show_output) + separator(i, cells.len() as int, block_separator)))
}

/// The Markdown document of `cells`.
pub open spec fn markdown_of(cells: Seq<CellView>, show_output: bool, block_separator: bool) -> Seq<char> {
    markdown_prefix(cells, cells.len() as int, show_output, block_separator)
}

/// The Markdown of one cell, before its separator.
pub fn cell_markdown_string(cell: &crate::markdown_parser::Cell, show_output: bool) -> (r: String)
    ensures
        r@ == cell_markdown(cell@, show_output),
{
    let mut markdown = String::new();
    match cell.cell_type {
        CellType::Code => {
            markdown.append("```python\n");
            markdown.append(cell.source.as_str());
            markdown.append("\n```\n");
            let ghost head = markdown@;
            if show_output && cell.outputs.as_str().unicode_len() > 0 {
                markdown.append("\n<p>\n");
                markdown.append(cell.outputs.as_str());
                markdown.append("\n</p>\n\n");
            }
            let ghost mid = markdown@;
            if show_output && cell.error_outputs.as_str().unicode_len() > 0 {
                markdown.append("<p style='font-family: Consolas,system-ui'>");
                markdown.append(cell.error_outputs.as_str());
                markdown.append("\n</p>\n\n");
            }
            assert(markdown@ =~= cell_markdown(cell@, show_output));
        },
        CellType::Markdown => {
            markdown.append(cell.source.as_str());
            markdown.append("\n");
            markdown.append("\n");
            assert(markdown@ =~= cell_markdown(cell@, show_output));
        },
    }
    markdown
}

/// Renders `notebook` as a Markdown document under the settings `params`.
pub fn get_markdown_string(notebook: &Notebook, params: &Params) -> (r: String)
    ensures
        r@ == markdown_of(cell_views(notebook.cells@), params.show_output, params.block_separator),
{
    let ghost cells = cell_views(notebook.cells@);
    let mut markdown = String::new();
    let cell_count = notebook.cells.len();
    let mut i: usize = 0;
    while i < cell_count
        invariant
            cell_count == notebook.cells.len(),
            cells == cell_views(notebook.cells@),
            i <= cell_count,
            markdown@ == markdown_prefix(cells, i as int, params.show_output, params.block_separator),
        decreases cell_count - i,
    {
        let ghost before = markdown@;
        let piece = cell_markdown_string(&notebook.cells[i], params.show_output);
        markdown.append(piece.as_str());
        if params.block_separator && i != cell_count - 1 {
            markdown.append("\n------\n\n");
        } else {
            markdown.append("\n");
        }
        proof {
            let f = |j: int| cell_markdown(cells[j], params.show_output) + separator(j, cells.len() as int, params.block_separator);
            assert(Seq::new((i + 1) as nat, f).drop_last() =~= Seq::new(i as nat, f));
            assert(cells[i as int] == notebook.cells@[i as int]@);
            assert(markdown@ =~= before + f(i as int));
        }
        i = i + 1;
    }
    markdown
}

} // verus!

verus! {

/// Rendering depends on the notebook and the settings alone: two renderings
/// of the same notebook under the same settings are the same text.
pub proof fn lemma_render_deterministic(nb: Notebook, params: Params, first: Seq<char>, second: Seq<char>)
    requires
        first == markdown_of(cell_views(nb.cells@), params.show_output, params.block_separator),
        second == markdown_of(cell_views(nb.cells@), params.show_output, params.block_separator),
    ensures
        first == second,
{
}

/// `c` with nothing but its kind and source.
pub open spec fn without_outputs(c: CellView) -> CellView {
    CellView {
        cell_type: c.cell_type,
        source: c.source,
        outputs: Seq::empty(),
        error_outputs: Seq::empty(),
        image_paths: Seq::empty(),
    }
}

/// With outputs hidden the document holds only code blocks and Markdown
/// text: it is the document of the same cells stripped of every output.
pub proof fn lemma_hidden_outputs(cells: Seq<CellView>, block_separator: bool)
    ensures
        markdown_of(cells, false, block_separator)
            == markdown_of(cells.map_values(|c: CellView| without_outputs(c)), true, block_separator),
{
    let stripped = cells.map_values(|c: CellView| without_outputs(c));
    let f = |i: int| cell_markdown(cells[i], false) + separator(i, cells.len() as int, block_separator);
    let g = |i: int| cell_markdown(stripped[i], true) + separator(i, stripped.len() as int, block_separator);
    assert forall|i: int| 0 <= i < cells.len() implies #[trigger] f(i) == g(i) by {
        assert(stripped[i] == without_outputs(cells[i]));
        assert(cell_markdown(cells[i], false) =~= cell_markdown(stripped[i], true));
    }
    assert(Seq::new(cells.len(), f) =~= Seq::new(stripped.len(), g));
}

} // verus!
