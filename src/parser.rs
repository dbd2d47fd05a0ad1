//! A lighter notebook model: text outputs and tracebacks, without image extraction.
use vstd::prelude::*;
use crate::document::{field, members, parse_json, parsed_json, str_of, Json};
use crate::markdown_parser::{
    errors_text, get_error_output, get_source, get_text_output, source_text, text_outputs,
};
use crate::text::str_eq;
pub use crate::text::convert_space;

verus! {

/// The kind of a notebook cell.
#[derive(PartialEq, Eq, Structural, Clone, Copy, Debug)]
pub enum CellType {
    Code,
    Markdown,
}

/// A cell of a notebook, its outputs rendered as text.
pub struct Cell {
    pub cell_type: CellType,
    pub source: String,
    pub outputs: String,
    pub error_outputs: String,
}

/// What a cell holds.
pub struct CellView {
    pub cell_type: CellType,
    pub source: Seq<char>,
    pub outputs: Seq<char>,
    pub error_outputs: Seq<char>,
}

impl View for Cell {
    type V = CellView;

    open spec fn view(&self) -> CellView {
        CellView {
            cell_type: self.cell_type,
            source: self.source@,
            outputs: self.outputs@,
            error_outputs: self.error_outputs@,
        }
    }
}

impl Cell {
    pub fn new(cell_type: CellType, source: String, outputs: String, error_outputs: String) -> (r: Self)
        ensures
            r.cell_type == cell_type,
            r.source == source,
            r.outputs == outputs,
            r.error_outputs == error_outputs,
    {
        Cell { cell_type, source, outputs, error_outputs }
    }
}

pub open spec fn cell_kind(c: Json) -> Option<CellType> {
    match str_of(field(c, "cell_type"@)) {
        Some(t) => if t == "code"@ {
            Some(CellType::Code)
        } else if t == "markdown"@ {
            Some(CellType::Markdown)
        } else {
            None
        },
        None => None,
    }
}

/// The models of the cells among `cs` whose kind is known, in order.
pub open spec fn built_cells(cs: Seq<Json>) -> Seq<CellView>
    decreases cs.len(),
{
    if cs.len() == 0 {
        Seq::empty()
    } else {
        let prev = built_cells(cs.drop_last());
        let c = cs.last();
        let os = members(field(c, "outputs"@));
        match cell_kind(c) {
            Some(k) => prev.push(CellView {
                cell_type: k,
                source: source_text(field(c, "source"@)),
                outputs: text_outputs(os),
                error_outputs: errors_text(os),
            }),
            None => prev,
        }
    }
}

/// A notebook: its cells in order.
pub struct Notebook {
    pub cells: Vec<Cell>,
}

pub open spec fn cell_views(cells: Seq<Cell>) -> Seq<CellView> {
    cells.map_values(|c: Cell| c@)
}

impl Notebook {
    /// Builds the notebook model of the document `root`; `None` when it has no `cells` array.
    pub fn build(root: &Json) -> (r: Option<Self>)
        ensures
            r is Some == (field(*root, "cells"@) is Array),
            r matches Some(nb) ==> cell_views(nb.cells@) == built_cells(members(field(*root, "cells"@))),
    {
        let cells_part = root.get("cells");
        match cells_part {
            Some(Json::Array(_)) => {},
            _ => {
                return None;
            },
        }
        let cs = crate::document::members_at(cells_part);
        let mut cells: Vec<Cell> = Vec::new();
        let mut i: usize = 0;
        while i < cs.len()
            invariant
                i <= cs.len(),
                cs@ == members(field(*root, "cells"@)),
                cell_views(cells@) == built_cells(cs@.take(i as int)),
            decreases cs.len() - i,
        {
            assert(cs@.take(i + 1).drop_last() =~= cs@.take(i as int));
            let cell = &cs[i];
            let ghost before = cells@;
            let kind = match cell.get("cell_type") {
                Some(Json::Str(t)) => if str_eq(t.as_str(), "code") {
                    Some(CellType::Code)
                } else if str_eq(t.as_str(), "markdown") {
                    Some(CellType::Markdown)
                } else {
                    None
                },
                _ => None,
            };
            assert(kind == cell_kind(cs@[i as int]));
            if let Some(cell_type) = kind {
                let source = get_source(cell.get("source"));
                let outputs = get_text_output(cell.get("outputs"));
                let error_outputs = get_error_output(cell.get("outputs"));
                let c = Cell::new(cell_type, source, outputs, error_outputs);
                cells.push(c);
                assert(cell_views(cells@) =~= cell_views(before).push(c@));
            }
            i = i + 1;
        }
        assert(cs@.take(i as int) =~= cs@);
        Some(Notebook { cells })
    }

    /// Parses the JSON text `json_string` and builds its notebook model;
    /// `None` when the text is not JSON or has no `cells` array.
    pub fn from_string(json_string: &str) -> (r: Option<Self>)
        ensures
            r is Some == (parsed_json(json_string@) matches Some(root) && field(root, "cells"@) is Array),
            r matches Some(nb) ==> cell_views(nb.cells@) == built_cells(
                members(field(parsed_json(json_string@)->0, "cells"@)),
            ),
    {
        match parse_json(json_string) {
            Some(root) => Notebook::build(&root),
            None => None,
        }
    }
}

} // verus!
