use ipynb_markdown::markdown_parser::{CellType, Context, ImageNameGenerator, Notebook};
use ipynb_markdown::markdown_writer::get_markdown_string;
use ipynb_markdown::params::Params;
use ipynb_markdown::parser;
use ipynb_markdown::text::{convert_space, decimal_of, trim_end_of};
use ipynb_markdown::util::get_directory;

const PNG: &str = "iVBORw0KGgoAAAANSUhEUgAAAAEAAAABCAIAAACQd1PeAAAADElEQVR4nGP4z8AAAAMBAQDJ/pLvAAAAAElFTkSuQmCC";

fn params(show_output: bool, block_separator: bool) -> Params {
    Params {
        input_path: "in.ipynb".to_string(),
        output_path: "out/output.md".to_string(),
        show_output,
        block_separator,
        image_dir: "./images".to_string(),
    }
}

fn build(text: &str) -> Notebook {
    Notebook::from_string(text, "./images".to_string()).expect("notebook")
}

fn display_cell(payload: &str, key: &str) -> String {
    format!(
        "{{\"cell_type\": \"code\", \"source\": \"plot()\", \"outputs\": [{{\"output_type\": \"display_data\", \"data\": {{\"{}\": \"{}\"}}}}]}}",
        key, payload
    )
}

#[test]
fn two_cell_notebook_renders_exactly() {
    let text = r##"{"cells": [
        {"cell_type": "markdown", "source": "# Title"},
        {"cell_type": "code", "source": "print(1)", "outputs": [{"output_type": "stream", "text": ["1\n"]}]}
    ]}"##;
    let nb = build(text);
    let md = get_markdown_string(&nb, &params(true, false));
    assert_eq!(md, "# Title\n\n\n```python\nprint(1)\n```\n\n<p>\n1<br/>\n\n</p>\n\n\n");
}

#[test]
fn display_image_is_extracted() {
    let text = format!("{{\"cells\": [{}]}}", display_cell(PNG, "image/png"));
    let nb = build(&text);
    assert_eq!(nb.cells.len(), 1);
    assert_eq!(nb.cells[0].images.len(), 1);
    assert_eq!(nb.cells[0].images[0].path, "./images/image_1.png");
    assert_eq!(nb.cells[0].outputs, "<img src=\"./images/image_1.png\"/>");
    assert!(nb.warnings.is_empty());
}

#[test]
fn invalid_image_payload_gives_one_warning() {
    let text = format!("{{\"cells\": [{}]}}", display_cell("not*base64!", "image/png"));
    let nb = build(&text);
    assert_eq!(nb.cells[0].images.len(), 0);
    assert_eq!(nb.cells[0].outputs, "");
    assert_eq!(nb.warnings, vec!["Failed to decode image".to_string()]);
}

#[test]
fn base64_of_non_image_bytes_gives_warning() {
    let text = format!("{{\"cells\": [{}]}}", display_cell("aGVsbG8gd29ybGQ=", "image/png"));
    let nb = build(&text);
    assert_eq!(nb.cells[0].images.len(), 0);
    assert_eq!(nb.warnings.len(), 1);
}

#[test]
fn images_are_numbered_across_cells() {
    let text = format!(
        "{{\"cells\": [{}, {{\"cell_type\": \"markdown\", \"source\": \"x\"}}, {}]}}",
        display_cell(PNG, "image/png"),
        display_cell(PNG, "image/gif")
    );
    let nb = build(&text);
    assert_eq!(nb.cells[0].images[0].path, "./images/image_1.png");
    assert_eq!(nb.cells[2].images[0].path, "./images/image_2.gif");
}

#[test]
fn missing_or_scalar_cells_give_none() {
    assert!(Notebook::from_string("{}", "i".to_string()).is_none());
    assert!(Notebook::from_string("{\"cells\": 3}", "i".to_string()).is_none());
    assert!(Notebook::from_string("{\"cells\": {}}", "i".to_string()).is_none());
    assert!(Notebook::from_string("not json", "i".to_string()).is_none());
    assert!(parser::Notebook::from_string("{\"cells\": \"x\"}").is_none());
    assert!(Notebook::from_string("{\"cells\": []}", "i".to_string()).is_some());
}

#[test]
fn unknown_cell_types_are_dropped() {
    let text = r#"{"cells": [
        {"cell_type": "raw", "source": "a"},
        {"source": "b"},
        {"cell_type": "code", "source": "c"},
        {"cell_type": 7, "source": "d"},
        {"cell_type": "markdown", "source": "e"}
    ]}"#;
    let nb = build(text);
    assert_eq!(nb.cells.len(), 2);
    assert!(nb.cells[0].cell_type == CellType::Code);
    assert_eq!(nb.cells[0].source, "c");
    assert!(nb.cells[1].cell_type == CellType::Markdown);
    assert_eq!(nb.cells[1].source, "e");
}

#[test]
fn source_array_equals_source_string() {
    let a = build(r#"{"cells": [{"cell_type": "code", "source": ["a\n", "b\n"]}]}"#);
    let b = build(r#"{"cells": [{"cell_type": "code", "source": "a\nb\n"}]}"#);
    assert_eq!(a.cells[0].source, "a\nb\n");
    assert_eq!(a.cells[0].source, b.cells[0].source);
    let c = build(r#"{"cells": [{"cell_type": "code", "source": ["a", 5, "b"]}]}"#);
    assert_eq!(c.cells[0].source, "ab");
}

#[test]
fn rendering_twice_is_identical() {
    let text = format!("{{\"cells\": [{}, {{\"cell_type\": \"markdown\", \"source\": \"m\"}}]}}", display_cell(PNG, "image/png"));
    let nb = build(&text);
    let p = params(true, true);
    assert_eq!(get_markdown_string(&nb, &p), get_markdown_string(&nb, &p));
}

#[test]
fn hidden_output_leaves_only_sources() {
    let text = format!(
        "{{\"cells\": [{}, {{\"cell_type\": \"code\", \"source\": \"x\", \"outputs\": [{{\"output_type\": \"error\", \"traceback\": [\"E\"]}}]}}]}}",
        display_cell(PNG, "image/png")
    );
    let nb = build(&text);
    let md = get_markdown_string(&nb, &params(false, false));
    assert_eq!(md, "```python\nplot()\n```\n\n```python\nx\n```\n\n");
    assert!(!md.contains("<p"));
    assert!(!md.contains("<img"));
}

#[test]
fn spaces_outside_tags_become_nbsp() {
    assert_eq!(
        convert_space("a b<span style='x y'>c d</span> e"),
        "a&nbsp;b<span style='x y'>c&nbsp;d</span>&nbsp;e"
    );
    assert_eq!(convert_space(""), "");
}

#[test]
fn traceback_is_converted_and_joined() {
    let text = r#"{"cells": [{"cell_type": "code", "source": "f()", "outputs": [
        {"output_type": "error", "traceback": ["Line one\nnext", "x y"]},
        {"output_type": "error", "traceback": ["\u001b[31mred\u001b[0m z"]}
    ]}]}"#;
    let nb = build(text);
    assert_eq!(
        nb.cells[0].error_outputs,
        "Line&nbsp;one<br/>\nnext<br/>\nx&nbsp;y<span style='color:var(--red,#a00)'>red</span>&nbsp;z"
    );
    assert_eq!(nb.cells[0].outputs, "");
    let md = get_markdown_string(&nb, &params(true, false));
    assert!(md.contains("<p style='font-family: Consolas,system-ui'>Line&nbsp;one"));
}

#[test]
fn execute_result_keeps_known_mime_types() {
    let text = r#"{"cells": [{"cell_type": "code", "source": "v", "outputs": [
        {"output_type": "execute_result", "data": {"text/plain": ["42  \n", "7"], "application/json": ["{}"], "text/html": ["<b>x</b> \n"]}}
    ]}]}"#;
    let nb = build(text);
    assert_eq!(nb.cells[0].outputs, "42<br/>\n7<br/>\n<b>x</b>\n");
}

#[test]
fn stream_lines_are_trimmed() {
    let text = r#"{"cells": [{"cell_type": "code", "source": "p", "outputs": [
        {"output_type": "stream", "text": ["a \t\n", "b"]},
        {"output_type": "unknown", "text": ["c"]},
        {"output_type": "stream", "text": "d\n"}
    ]}]}"#;
    let nb = build(text);
    assert_eq!(nb.cells[0].outputs, "a<br/>\nb<br/>\nd<br/>\n");
}

#[test]
fn block_separator_between_cells_only() {
    let text = r#"{"cells": [{"cell_type": "markdown", "source": "a"}, {"cell_type": "markdown", "source": "b"}]}"#;
    let nb = build(text);
    assert_eq!(get_markdown_string(&nb, &params(true, true)), "a\n\n\n------\n\nb\n\n\n");
    let empty = build(r#"{"cells": []}"#);
    assert_eq!(get_markdown_string(&empty, &params(true, true)), "");
}

#[test]
fn text_only_parser_ignores_images() {
    let text = format!("{{\"cells\": [{}, {{\"cell_type\": \"code\", \"source\": [\"q\"], \"outputs\": [{{\"output_type\": \"stream\", \"text\": [\"s\"]}}]}}]}}", display_cell(PNG, "image/png"));
    let nb = parser::Notebook::from_string(&text).expect("notebook");
    assert_eq!(nb.cells.len(), 2);
    assert_eq!(nb.cells[0].outputs, "");
    assert_eq!(nb.cells[1].outputs, "s<br/>\n");
    assert!(nb.cells[1].cell_type == parser::CellType::Code);
}

#[test]
fn directory_of_output_file() {
    assert_eq!(get_directory("a/b/c.md"), "a/b");
    assert_eq!(get_directory("a\\b\\c.md"), "a/b");
    assert_eq!(get_directory("c.md"), ".");
    assert_eq!(get_directory("/c.md"), "");
}

#[test]
fn image_names_count_up() {
    let mut g = ImageNameGenerator { counter: 0 };
    assert_eq!(g.generate("png"), "image_1.png");
    assert_eq!(g.generate("jpeg"), "image_2.jpeg");
    let mut ctx = Context::new("imgs".to_string());
    assert_eq!(ctx.generate_image_path("png"), "imgs/image_1.png");
    assert_eq!(ctx.generate_image_path("png"), "imgs/image_2.png");
}

#[test]
fn helpers_compute_exact_values() {
    assert_eq!(decimal_of(0), "0");
    assert_eq!(decimal_of(120), "120");
    assert_eq!(trim_end_of("ab \u{3000}\n"), "ab");
    assert_eq!(trim_end_of(" x"), " x");
}

#[test]
fn stream_string_is_split_into_lines() {
    let text = r#"{"cells": [{"cell_type": "code", "source": "p", "outputs": [
        {"output_type": "stream", "text": "a  \nb"}
    ]}]}"#;
    let nb = build(text);
    assert_eq!(nb.cells[0].outputs, "a<br/>\nb<br/>\n");
}

#[test]
fn markdown_cells_hold_no_images() {
    let md_cell = display_cell(PNG, "image/png").replace("\"code\"", "\"markdown\"");
    let text = format!("{{\"cells\": [{}, {}]}}", md_cell, display_cell(PNG, "image/png"));
    let nb = build(&text);
    assert!(nb.cells[0].cell_type == CellType::Markdown);
    assert!(nb.cells[0].images.is_empty());
    assert_eq!(nb.cells[0].outputs, "");
    assert_eq!(nb.cells[1].images[0].path, "./images/image_1.png");
}
