//! The notebook model, built from a parsed notebook document, with image extraction.
use vstd::prelude::*;
use base64::Engine;
pub use crate::text::convert_space;
use crate::document::{
    entries, field, fragments, members, parse_json, parsed_json, text_fragments, text_of, Json,
};
use crate::text::{
    br, concat, decimal, lines, split_lines, decimal_of, join, newlines_to_br,
    replace_newlines, spaces_to_nbsp, starts_with, str_eq, trim_end, trim_end_of,
};

verus! {

#[verifier::external_type_specification]
#[verifier::external_body]
pub struct ExDynamicImage(image::DynamicImage);

/// What `BASE64_STANDARD.decode` gives for the text `s`: the bytes, or `None` on malformed input.
pub uninterp spec fn base64_decoded(s: Seq<char>) -> Option<Seq<u8>>;

/// What `ansi_to_html::convert` gives for `s`, the empty string where it fails.
pub uninterp spec fn ansi_html(s: Seq<char>) -> Seq<char>;

/// Relies on `base64`'s standard engine: decodes padded standard base64.
#[verifier::external_body]
fn decode_base64(s: &str) -> (r: Option<Vec<u8>>)
    ensures
        r is Some == base64_decoded(s@) is Some,
        r matches Some(b) ==> base64_decoded(s@) == Some(b@),
{
    base64::prelude::BASE64_STANDARD.decode(s).ok()
}

/// Relies on `image::load_from_memory`: guesses the format from the bytes and
/// decodes them. The formats it knows can be extended at run time, so nothing
/// is stated of which bytes load.
#[verifier::external_body]
fn load_image(b: &[u8]) -> (r: Option<image::DynamicImage>) {
    image::load_from_memory(b).ok()
}

/// Relies on `ansi_to_html::convert`: ANSI escape codes become inline styling markup.
#[verifier::external_body]
fn ansi_to_html_text(s: &str) -> (r: String)
    ensures
        r@ == ansi_html(s@),
{
    ansi_to_html::convert(s).unwrap_or_default()
}

/// The file name of the `n`-th image of a run.
pub open spec fn image_name(n: nat, ext: Seq<char>) -> Seq<char> {
    "image_"@ + decimal(n) + "."@ + ext
}

/// The path of the `n`-th image of a run, under the image directory `dir`.
pub open spec fn image_path(dir: Seq<char>, n: nat, ext: Seq<char>) -> Seq<char> {
    dir + "/"@ + image_name(n, ext)
}

/// The inline tag that shows the image at `path`.
pub open spec fn img_tag(path: Seq<char>) -> Seq<char> {
    "<img src=\""@ + path + "\"/>"@
}

pub open spec fn is_image_key(key: Seq<char>) -> bool {
    "image/"@.len() <= key.len() && key.take("image/"@.len() as int) == "image/"@
}

/// The file extension that an image MIME key names.
pub open spec fn image_ext(key: Seq<char>) -> Seq<char> {
    key.skip("image/"@.len() as int)
}

pub open spec fn decode_warning() -> Seq<char> {
    "Failed to decode image"@
}

/// `n` copies of the warning for an image that could not be extracted.
pub open spec fn warnings(n: nat) -> Seq<Seq<char>> {
    Seq::new(n, |i: int| decode_warning())
}

/// Whether the `n`-th image number of a run is still available.
pub open spec fn number_available(used: nat) -> bool {
    used < usize::MAX
}

/// Whether `ok` can be the decode outcomes of the entries `es`: one per entry,
/// and a payload decodes only under an image key and only if it is base64.
pub open spec fn outcomes_fit(es: Seq<(String, Json)>, ok: Seq<bool>) -> bool {
    &&& ok.len() == es.len()
    &&& forall|i: int| 0 <= i < ok.len() && #[trigger] ok[i]
        ==> is_image_key(es[i].0@) && base64_decoded(text_of(es[i].1)) is Some
}

/// Whether `oks` can be the decode outcomes of the records `os`, one sequence per record.
pub open spec fn record_outcomes_fit(os: Seq<Json>, oks: Seq<Seq<bool>>) -> bool {
    &&& oks.len() == os.len()
    &&& forall|j: int| 0 <= j < oks.len() ==> outcomes_fit(entries(field(os[j], "data"@)), #[trigger] oks[j])
}

/// The paths of the images that the entries `es` of a `display_data` record
/// yield, where `ok[i]` says whether the payload of entry `i` decoded, numbered
/// on from `start` images before them in the run.
pub open spec fn display_paths(es: Seq<(String, Json)>, ok: Seq<bool>, dir: Seq<char>, start: nat) -> Seq<Seq<char>>
    decreases es.len(),
{
    if es.len() == 0 {
        Seq::empty()
    } else {
        let prev = display_paths(es.drop_last(), ok, dir, start);
        let key = es.last().0@;
        if is_image_key(key) && ok[es.len() - 1]
            && number_available(start + prev.len()) {
            prev.push(image_path(dir, start + prev.len() + 1, image_ext(key)))
        } else {
            prev
        }
    }
}

/// The number of image entries among `es` that yield no image.
pub open spec fn display_failures(es: Seq<(String, Json)>, ok: Seq<bool>, dir: Seq<char>, start: nat) -> nat
    decreases es.len(),
{
    if es.len() == 0 {
        0
    } else {
        let prev = display_failures(es.drop_last(), ok, dir, start);
        let key = es.last().0@;
        if is_image_key(key) && !(ok[es.len() - 1]
            && number_available(start + display_paths(es.drop_last(), ok, dir, start).len())) {
            prev + 1
        } else {
            prev
        }
    }
}

/// Each fragment without its trailing whitespace, followed by `suffix`, all concatenated.
pub open spec fn suffixed(lines: Seq<Seq<char>>, suffix: Seq<char>) -> Seq<char> {
    concat(lines.map_values(|l: Seq<char>| trim_end(l) + suffix))
}

pub open spec fn kind_of(o: Json) -> Seq<char> {
    text_of(field(o, "output_type"@))
}

/// The rendering of a `stream` record.
pub open spec fn stream_text(o: Json) -> Seq<char> {
    suffixed(lines(concat(fragments(field(o, "text"@)))), br())
}

/// The rendering of one MIME entry of an `execute_result` record.
pub open spec fn result_entry_text(key: Seq<char>, v: Json) -> Seq<char> {
    if key == "text/plain"@ {
        suffixed(fragments(v), br())
    } else if key == "text/html"@ || key == "text/markdown"@ {
        suffixed(fragments(v), "\n"@)
    } else {
        Seq::empty()
    }
}

/// The rendering of an `execute_result` record, entries in document order.
pub open spec fn result_text(o: Json) -> Seq<char> {
    concat(entries(field(o, "data"@)).map_values(|e: (String, Json)| result_entry_text(e.0@, e.1)))
}

/// The rendering of a `display_data` record.
pub open spec fn display_text(o: Json, ok: Seq<bool>, dir: Seq<char>, start: nat) -> Seq<char> {
    join(display_paths(entries(field(o, "data"@)), ok, dir, start).map_values(|p: Seq<char>| img_tag(p)), "\n"@)
}

/// The rendering of one output record that is not an error.
pub open spec fn output_text(o: Json, ok: Seq<bool>, dir: Seq<char>, start: nat) -> Seq<char> {
    if kind_of(o) == "stream"@ {
        stream_text(o)
    } else if kind_of(o) == "execute_result"@ {
        result_text(o)
    } else if kind_of(o) == "display_data"@ {
        display_text(o, ok, dir, start)
    } else {
        Seq::empty()
    }
}

pub open spec fn output_paths(o: Json, ok: Seq<bool>, dir: Seq<char>, start: nat) -> Seq<Seq<char>> {
    if kind_of(o) == "display_data"@ {
        display_paths(entries(field(o, "data"@)), ok, dir, start)
    } else {
        Seq::empty()
    }
}

pub open spec fn output_failures(o: Json, ok: Seq<bool>, dir: Seq<char>, start: nat) -> nat {
    if kind_of(o) == "display_data"@ {
        display_failures(entries(field(o, "data"@)), ok, dir, start)
    } else {
        0
    }
}

/// The image paths of the records `os`, with `oks[j]` the decode outcomes of
/// record `j`, numbered on from `start`.
pub open spec fn outputs_paths(os: Seq<Json>, oks: Seq<Seq<bool>>, dir: Seq<char>, start: nat) -> Seq<Seq<char>>
    decreases os.len(),
{
    if os.len() == 0 {
        Seq::empty()
    } else {
        let prev = outputs_paths(os.drop_last(), oks, dir, start);
        prev + output_paths(os.last(), oks[os.len() - 1], dir, start + prev.len())
    }
}

/// The rendering of the records `os` that are not errors, concatenated.
pub open spec fn outputs_text(os: Seq<Json>, oks: Seq<Seq<bool>>, dir: Seq<char>, start: nat) -> Seq<char>
    decreases os.len(),
{
    if os.len() == 0 {
        Seq::empty()
    } else {
        outputs_text(os.drop_last(), oks, dir, start)
            + output_text(os.last(), oks[os.len() - 1], dir, start + outputs_paths(os.drop_last(), oks, dir, start).len())
    }
}

pub open spec fn outputs_failures(os: Seq<Json>, oks: Seq<Seq<bool>>, dir: Seq<char>, start: nat) -> nat
    decreases os.len(),
{
    if os.len() == 0 {
        0
    } else {
        outputs_failures(os.drop_last(), oks, dir, start)
            + output_failures(os.last(), oks[os.len() - 1], dir, start + outputs_paths(os.drop_last(), oks, dir, start).len())
    }
}

/// The rendering of one record when images are not extracted: streams and results only.
pub open spec fn text_output(o: Json) -> Seq<char> {
    if kind_of(o) == "stream"@ {
        stream_text(o)
    } else if kind_of(o) == "execute_result"@ {
        result_text(o)
    } else {
        Seq::empty()
    }
}

/// The renderings of the records `os` when images are not extracted, concatenated.
pub open spec fn text_outputs(os: Seq<Json>) -> Seq<char> {
    concat(os.map_values(|o: Json| text_output(o)))
}

/// One traceback line after ANSI conversion, with explicit breaks and kept spaces.
pub open spec fn traceback_line(converted: Seq<char>) -> Seq<char> {
    spaces_to_nbsp(newlines_to_br(converted))
}

/// The rendering of the traceback lines once each went through ANSI conversion.
pub open spec fn traceback_text(converted: Seq<Seq<char>>) -> Seq<char> {
    join(converted.map_values(|c: Seq<char>| traceback_line(c)), br())
}

/// The rendering of an `error` record.
pub open spec fn error_text(o: Json) -> Seq<char> {
    traceback_text(members(field(o, "traceback"@)).map_values(|l: Json| ansi_html(text_of(l))))
}

/// The renderings of the `error` records among `os`, concatenated.
pub open spec fn errors_text(os: Seq<Json>) -> Seq<char>
    decreases os.len(),
{
    if os.len() == 0 {
        Seq::empty()
    } else if kind_of(os.last()) == "error"@ {
        errors_text(os.drop_last()) + error_text(os.last())
    } else {
        errors_text(os.drop_last())
    }
}

/// The source text of a cell: one string, or string fragments joined with no separator.
pub open spec fn source_text(v: Json) -> Seq<char> {
    concat(fragments(v))
}

} // verus!

verus! {

/// The run-scoped counter that numbers extracted images.
pub struct ImageNameGenerator {
    pub counter: usize,
}

impl ImageNameGenerator {
    /// The file name of the next image, with extension `image_type`.
    pub fn generate(&mut self, image_type: &str) -> (r: String)
        requires
            number_available(old(self).counter as nat),
        ensures
            final(self).counter == old(self).counter + 1,
            r@ == image_name(final(self).counter as nat, image_type@),
    {
        self.counter = self.counter + 1;
        let mut r = String::from_str("image_");
        let n = decimal_of(self.counter);
        r.append(n.as_str());
        r.append(".");
        r.append(image_type);
        r
    }
}

/// What the build pass carries from record to record.
pub struct Context {
    pub image_name_generator: ImageNameGenerator,
    pub image_dir: String,
}

impl Context {
    pub fn new(image_dir: String) -> (r: Self)
        ensures
            r.image_name_generator.counter == 0,
            r.image_dir == image_dir,
    {
        Context { image_name_generator: ImageNameGenerator { counter: 0 }, image_dir }
    }

    /// The path of the next image under the image directory.
    pub fn generate_image_path(&mut self, image_type: &str) -> (r: String)
        requires
            number_available(old(self).image_name_generator.counter as nat),
        ensures
            final(self).image_name_generator.counter == old(self).image_name_generator.counter + 1,
            final(self).image_dir == old(self).image_dir,
            r@ == image_path(old(self).image_dir@, final(self).image_name_generator.counter as nat, image_type@),
    {
        let name = self.image_name_generator.generate(image_type);
        let mut r = self.image_dir.clone();
        r.append("/");
        r.append(name.as_str());
        r
    }
}

/// Decodes a base64 payload into an image; `None` if either step fails.
pub fn get_image(data: &str) -> (r: Option<image::DynamicImage>)
    ensures
        r is Some ==> base64_decoded(data@) is Some,
{
    match decode_base64(data) {
        Some(bytes) => load_image(bytes.as_slice()),
        None => None,
    }
}

/// Concatenates `lines`, each without trailing whitespace and followed by `suffix`.
pub fn suffix_lines(lines: &Vec<String>, suffix: &str) -> (r: String)
    ensures
        r@ == suffixed(lines@.map_values(|s: String| s@), suffix@),
{
    let ghost ls = lines@.map_values(|s: String| s@);
    let ghost f = |l: Seq<char>| trim_end(l) + suffix@;
    let mut r = String::new();
    let mut i: usize = 0;
    while i < lines.len()
        invariant
            i <= lines.len(),
            ls == lines@.map_values(|s: String| s@),
            f == (|l: Seq<char>| trim_end(l) + suffix@),
            r@ == concat(ls.take(i as int).map_values(f)),
        decreases lines.len() - i,
    {
        let t = trim_end_of(lines[i].as_str());
        r.append(t.as_str());
        r.append(suffix);
        assert(ls.take(i + 1).map_values(f) =~= ls.take(i as int).map_values(f).push(f(ls[i as int])));
        assert(ls.take(i as int).map_values(f).push(f(ls[i as int])).drop_last()
            =~= ls.take(i as int).map_values(f));
        i = i + 1;
    }
    assert(ls.take(i as int) =~= ls);
    r
}

/// Concatenates `parts` with no separator.
pub fn concat_all(parts: &Vec<String>) -> (r: String)
    ensures
        r@ == concat(parts@.map_values(|s: String| s@)),
{
    let ghost ps = parts@.map_values(|s: String| s@);
    let mut r = String::new();
    let mut i: usize = 0;
    while i < parts.len()
        invariant
            i <= parts.len(),
            ps == parts@.map_values(|s: String| s@),
            r@ == concat(ps.take(i as int)),
        decreases parts.len() - i,
    {
        r.append(parts[i].as_str());
        assert(ps.take(i + 1).drop_last() =~= ps.take(i as int));
        i = i + 1;
    }
    assert(ps.take(i as int) =~= ps);
    r
}

/// Joins the converted traceback lines with explicit breaks, each line with
/// its newlines turned into breaks and its spaces outside tags kept visible.
pub fn traceback_html(converted: &Vec<String>) -> (r: String)
    ensures
        r@ == traceback_text(converted@.map_values(|s: String| s@)),
{
    let ghost cs = converted@.map_values(|s: String| s@);
    let ghost f = |c: Seq<char>| traceback_line(c);
    let mut r = String::new();
    let mut i: usize = 0;
    while i < converted.len()
        invariant
            i <= converted.len(),
            cs == converted@.map_values(|s: String| s@),
            f == (|c: Seq<char>| traceback_line(c)),
            r@ == join(cs.take(i as int).map_values(f), br()),
        decreases converted.len() - i,
    {
        let line = convert_space(replace_newlines(converted[i].as_str()).as_str());
        if i > 0 {
            r.append("<br/>\n");
        }
        r.append(line.as_str());
        assert(cs.take(i + 1).map_values(f).drop_last() =~= cs.take(i as int).map_values(f));
        i = i + 1;
    }
    assert(cs.take(i as int) =~= cs);
    r
}

} // verus!

verus! {

/// One extracted raster image and the relative path it is saved to.
pub struct Image {
    pub path: String,
    pub data: image::DynamicImage,
}

/// The kind of a notebook cell.
#[derive(PartialEq, Eq, Structural, Clone, Copy, Debug)]
pub enum CellType {
    Code,
    Markdown,
}

/// A cell of a notebook.
pub struct Cell {
    pub cell_type: CellType,
    pub source: String,
    pub outputs: String,
    pub error_outputs: String,
    pub images: Vec<Image>,
}

/// What a cell holds, with each image seen through its path.
pub struct CellView {
    pub cell_type: CellType,
    pub source: Seq<char>,
    pub outputs: Seq<char>,
    pub error_outputs: Seq<char>,
    pub image_paths: Seq<Seq<char>>,
}

pub open spec fn paths_of(images: Seq<Image>) -> Seq<Seq<char>> {
    images.map_values(|i: Image| i.path@)
}

pub open spec fn views_of(ws: Seq<String>) -> Seq<Seq<char>> {
    ws.map_values(|s: String| s@)
}

impl View for Cell {
    type V = CellView;

    open spec fn view(&self) -> CellView {
        CellView {
            cell_type: self.cell_type,
            source: self.source@,
            outputs: self.outputs@,
            error_outputs: self.error_outputs@,
            image_paths: paths_of(self.images@),
        }
    }
}

impl Cell {
    pub fn new(
        cell_type: CellType,
        source: String,
        outputs: String,
        error_outputs: String,
        images: Vec<Image>,
    ) -> (r: Self)
        ensures
            r.cell_type == cell_type,
            r.source == source,
            r.outputs == outputs,
            r.error_outputs == error_outputs,
            r.images == images,
    {
        Cell { cell_type, source, outputs, error_outputs, images }
    }
}

/// The source text of a cell, from its `source` field.
pub fn get_source(source_part: Option<&Json>) -> (r: String)
    ensures
        r@ == source_text(crate::document::at(source_part)),
{
    let parts = text_fragments(source_part);
    concat_all(&parts)
}

/// The rendering of a `stream` record.
pub fn get_stream_output(output_part: &Json) -> (r: String)
    ensures
        r@ == stream_text(*output_part),
{
    let joined = get_source(output_part.get("text"));
    let ls = split_lines(joined.as_str());
    suffix_lines(&ls, "<br/>\n")
}

/// The rendering of an `execute_result` record.
pub fn get_execute_result_output(output_part: &Json) -> (r: String)
    ensures
        r@ == result_text(*output_part),
{
    let data = crate::document::entries_at(output_part.get("data"));
    let ghost f = |e: (String, Json)| result_entry_text(e.0@, e.1);
    let mut res = String::new();
    let mut i: usize = 0;
    while i < data.len()
        invariant
            i <= data.len(),
            data@ == entries(field(*output_part, "data"@)),
            f == (|e: (String, Json)| result_entry_text(e.0@, e.1)),
            res@ == concat(data@.take(i as int).map_values(f)),
        decreases data.len() - i,
    {
        let key = data[i].0.as_str();
        let part = if str_eq(key, "text/plain") {
            suffix_lines(&text_fragments(Some(&data[i].1)), "<br/>\n")
        } else if str_eq(key, "text/html") || str_eq(key, "text/markdown") {
            suffix_lines(&text_fragments(Some(&data[i].1)), "\n")
        } else {
            String::new()
        };
        res.append(part.as_str());
        assert(data@.take(i + 1).map_values(f).drop_last() =~= data@.take(i as int).map_values(f));
        i = i + 1;
    }
    assert(data@.take(i as int) =~= data@);
    res
}

/// The rendering of an `error` record: its traceback lines, ANSI codes turned into markup.
pub fn get_traceback(output_part: &Json) -> (r: String)
    ensures
        r@ == error_text(*output_part),
{
    let lines = crate::document::members_at(output_part.get("traceback"));
    let ghost g = |l: Json| ansi_html(text_of(l));
    let mut converted: Vec<String> = Vec::new();
    let mut i: usize = 0;
    while i < lines.len()
        invariant
            i <= lines.len(),
            lines@ == members(field(*output_part, "traceback"@)),
            g == (|l: Json| ansi_html(text_of(l))),
            views_of(converted@) == lines@.take(i as int).map_values(g),
        decreases lines.len() - i,
    {
        let t = crate::document::text_or_empty(Some(&lines[i]));
        let c = ansi_to_html_text(t.as_str());
        let ghost before = converted@;
        converted.push(c);
        assert(converted@ == before.push(c));
        assert(views_of(converted@) =~= views_of(before).push(c@));
        assert(lines@.take(i + 1).map_values(g) =~= lines@.take(i as int).map_values(g).push(g(lines@[i as int])));
        i = i + 1;
    }
    assert(lines@.take(i as int) =~= lines@);
    traceback_html(&converted)
}

/// The renderings of the `error` records among the outputs, concatenated.
pub fn get_error_output(output_part: Option<&Json>) -> (r: String)
    ensures
        r@ == errors_text(members(crate::document::at(output_part))),
{
    let os = crate::document::members_at(output_part);
    let mut res = String::new();
    let mut i: usize = 0;
    while i < os.len()
        invariant
            i <= os.len(),
            os@ == members(crate::document::at(output_part)),
            res@ == errors_text(os@.take(i as int)),
        decreases os.len() - i,
    {
        assert(os@.take(i + 1).drop_last() =~= os@.take(i as int));
        let kind = crate::document::text_or_empty(os[i].get("output_type"));
        if str_eq(kind.as_str(), "error") {
            let t = get_traceback(&os[i]);
            res.append(t.as_str());
        }
        i = i + 1;
    }
    assert(os@.take(i as int) =~= os@);
    res
}

} // verus!

verus! {

/// What a `display_data` record `o` gives when `ok` are its decode outcomes:
/// the rendering `text`, the image `paths`, and the warnings added to `before`.
pub open spec fn display_done(
    o: Json,
    ok: Seq<bool>,
    dir: Seq<char>,
    start: nat,
    text: Seq<char>,
    paths: Seq<Seq<char>>,
    before: Seq<Seq<char>>,
    after: Seq<Seq<char>>,
) -> bool {
    let es = entries(field(o, "data"@));
    &&& outcomes_fit(es, ok)
    &&& text == display_text(o, ok, dir, start)
    &&& paths == display_paths(es, ok, dir, start)
    &&& after == before + warnings(display_failures(es, ok, dir, start))
}

pub open spec fn is_decoded(d: Option<image::DynamicImage>) -> bool {
    d is Some
}

/// Numbers, tags and collects the decoded images of the entries `data`, where
/// `decoded[i]` is what decoding the payload of entry `i` gave; an image entry
/// that did not decode adds a warning to `warns` instead.
pub fn place_images(
    data: &[(String, Json)],
    decoded: Vec<Option<image::DynamicImage>>,
    ctx: &mut Context,
    warns: &mut Vec<String>,
) -> (r: (String, Vec<Image>))
    requires
        decoded@.len() == data@.len(),
    ensures
        ({
            let ok = decoded@.map_values(|d: Option<image::DynamicImage>| is_decoded(d));
            let dir = old(ctx).image_dir@;
            let start = old(ctx).image_name_generator.counter as nat;
            let paths = display_paths(data@, ok, dir, start);
            &&& r.0@ == join(paths.map_values(|p: Seq<char>| img_tag(p)), "\n"@)
            &&& paths_of(r.1@) == paths
            &&& final(ctx).image_name_generator.counter == start + paths.len()
            &&& final(ctx).image_dir == old(ctx).image_dir
            &&& views_of(final(warns)@) == views_of(old(warns)@) + warnings(display_failures(data@, ok, dir, start))
        }),
{
    let ghost orig = decoded@;
    let ghost ok = decoded@.map_values(|d: Option<image::DynamicImage>| is_decoded(d));
    let ghost dir = ctx.image_dir@;
    let ghost start = ctx.image_name_generator.counter as nat;
    let ghost tag = |p: Seq<char>| img_tag(p);
    let mut decoded = decoded;
    let mut text = String::new();
    let mut images: Vec<Image> = Vec::new();
    let mut i: usize = 0;
    proof { reveal_strlit("image/"); }
    while i < data.len()
        invariant
            i <= data.len(),
            orig.len() == data@.len(),
            ok == orig.map_values(|d: Option<image::DynamicImage>| is_decoded(d)),
            decoded@ == orig.subrange(i as int, orig.len() as int),
            tag == (|p: Seq<char>| img_tag(p)),
            ctx.image_dir@ == dir,
            ctx.image_dir == old(ctx).image_dir,
            dir == old(ctx).image_dir@,
            start == old(ctx).image_name_generator.counter as nat,
            "image/"@.len() == 6,
            paths_of(images@) == display_paths(data@.take(i as int), ok, dir, start),
            ctx.image_name_generator.counter == start + paths_of(images@).len(),
            text@ == join(paths_of(images@).map_values(tag), "\n"@),
            views_of(warns@) == views_of(old(warns)@) + warnings(display_failures(data@.take(i as int), ok, dir, start)),
        decreases data.len() - i,
    {
        assert(data@.take(i + 1).drop_last() =~= data@.take(i as int));
        let ghost before_images = images@;
        let ghost before_warns = warns@;
        let d = decoded.remove(0);
        assert(d == orig[i as int]);
        assert(ok[i as int] == (d is Some));
        assert(decoded@ =~= orig.subrange(i + 1, orig.len() as int));
        let key = data[i].0.as_str();
        if starts_with(key, "image/") {
            let room = ctx.image_name_generator.counter < usize::MAX;
            match d {
                Some(img) if room => {
                    let ext = key.substring_char(6, key.unicode_len());
                    let name = ctx.generate_image_path(ext);
                    if images.len() > 0 {
                        text.append("\n");
                    }
                    text.append("<img src=\"");
                    text.append(name.as_str());
                    text.append("\"/>");
                    images.push(Image { path: name, data: img });
                    assert(paths_of(images@) =~= paths_of(before_images).push(name@));
                    assert(paths_of(images@).map_values(tag).drop_last()
                        =~= paths_of(before_images).map_values(tag));
                },
                _ => {
                    warns.push(String::from_str("Failed to decode image"));
                    assert(views_of(warns@) =~= views_of(before_warns).push(decode_warning()));
                    assert(warnings(display_failures(data@.take(i + 1), ok, dir, start))
                        =~= warnings(display_failures(data@.take(i as int), ok, dir, start)).push(decode_warning()));
                },
            }
        }
        i = i + 1;
    }
    assert(data@.take(i as int) =~= data@);
    (text, images)
}

/// The rendering and images of a `display_data` record. Whatever each payload
/// decoded to, the result is that of some decode outcomes that fit the record.
pub fn get_display_data_output(output_part: &Json, ctx: &mut Context, warns: &mut Vec<String>) -> (r: (
    String,
    Vec<Image>,
))
    ensures
        exists|ok: Seq<bool>| #[trigger] display_done(
            *output_part,
            ok,
            old(ctx).image_dir@,
            old(ctx).image_name_generator.counter as nat,
            r.0@,
            paths_of(r.1@),
            views_of(old(warns)@),
            views_of(final(warns)@),
        ),
        final(ctx).image_name_generator.counter == old(ctx).image_name_generator.counter + paths_of(r.1@).len(),
        final(ctx).image_dir == old(ctx).image_dir,
{
    let data = crate::document::entries_at(output_part.get("data"));
    let mut decoded: Vec<Option<image::DynamicImage>> = Vec::new();
    let mut i: usize = 0;
    while i < data.len()
        invariant
            i <= data.len(),
            data@ == entries(field(*output_part, "data"@)),
            decoded@.len() == i,
            forall|k: int| 0 <= k < i && #[trigger] is_decoded(decoded@[k])
                ==> is_image_key(data@[k].0@) && base64_decoded(text_of(data@[k].1)) is Some,
        decreases data.len() - i,
    {
        let key = data[i].0.as_str();
        if starts_with(key, "image/") {
            let payload = crate::document::text_or_empty(Some(&data[i].1));
            decoded.push(get_image(payload.as_str()));
        } else {
            decoded.push(None);
        }
        i = i + 1;
    }
    let ghost ok = decoded@.map_values(|d: Option<image::DynamicImage>| is_decoded(d));
    let ghost w0 = views_of(warns@);
    let ghost dir = ctx.image_dir@;
    let ghost start = ctx.image_name_generator.counter as nat;
    proof {
        assert forall|k: int| 0 <= k < ok.len() && #[trigger] ok[k]
            implies is_image_key(data@[k].0@) && base64_decoded(text_of(data@[k].1)) is Some by {
            assert(is_decoded(decoded@[k]));
        }
    }
    let r = place_images(data, decoded, ctx, warns);
    assert(display_done(*output_part, ok, dir, start, r.0@, paths_of(r.1@), w0, views_of(warns@)));
    r
}

} // verus!

verus! {

/// What the records `os` give when `oks` are their decode outcomes.
pub open spec fn outputs_done(
    os: Seq<Json>,
    oks: Seq<Seq<bool>>,
    dir: Seq<char>,
    start: nat,
    text: Seq<char>,
    paths: Seq<Seq<char>>,
    before: Seq<Seq<char>>,
    after: Seq<Seq<char>>,
) -> bool {
    &&& record_outcomes_fit(os, oks)
    &&& text == outputs_text(os, oks, dir, start)
    &&& paths == outputs_paths(os, oks, dir, start)
    &&& after == before + warnings(outputs_failures(os, oks, dir, start))
}

/// The results over the records `os` read only the outcomes of those records.
pub proof fn lemma_outputs_stable(os: Seq<Json>, a: Seq<Seq<bool>>, b: Seq<Seq<bool>>, dir: Seq<char>, start: nat)
    requires
        a.len() >= os.len(),
        b.len() >= os.len(),
        forall|j: int| 0 <= j < os.len() ==> a[j] == b[j],
    ensures
        outputs_paths(os, a, dir, start) == outputs_paths(os, b, dir, start),
        outputs_text(os, a, dir, start) == outputs_text(os, b, dir, start),
        outputs_failures(os, a, dir, start) == outputs_failures(os, b, dir, start),
    decreases os.len(),
{
    if os.len() > 0 {
        lemma_outputs_stable(os.drop_last(), a, b, dir, start);
    }
}

/// The rendering and images of the output records that are not errors, in order.
/// Whatever the payloads decoded to, the result is that of some decode outcomes
/// that fit the records.
pub fn get_output(output_part: Option<&Json>, ctx: &mut Context, warns: &mut Vec<String>) -> (r: (
    String,
    Vec<Image>,
))
    ensures
        exists|oks: Seq<Seq<bool>>| #[trigger] outputs_done(
            members(crate::document::at(output_part)),
            oks,
            old(ctx).image_dir@,
            old(ctx).image_name_generator.counter as nat,
            r.0@,
            paths_of(r.1@),
            views_of(old(warns)@),
            views_of(final(warns)@),
        ),
        final(ctx).image_name_generator.counter == old(ctx).image_name_generator.counter + paths_of(r.1@).len(),
        final(ctx).image_dir == old(ctx).image_dir,
{
    let os = crate::document::members_at(output_part);
    let ghost dir = ctx.image_dir@;
    let ghost start = ctx.image_name_generator.counter as nat;
    let ghost w0 = views_of(warns@);
    let ghost mut oks: Seq<Seq<bool>> = Seq::empty();
    let mut res = String::new();
    let mut images: Vec<Image> = Vec::new();
    let mut i: usize = 0;
    proof {
        reveal_strlit("stream");
        reveal_strlit("execute_result");
        reveal_strlit("display_data");
        assert("stream"@[0] != "display_data"@[0]);
        assert("execute_result"@[0] != "display_data"@[0]);
        assert(os@.take(0) =~= Seq::<Json>::empty());
        assert(w0 + warnings(0) =~= w0);
        assert(paths_of(images@) =~= Seq::<Seq<char>>::empty());
        assert(res@ =~= Seq::<char>::empty());
        assert(record_outcomes_fit(os@.take(0), oks));
    }
    while i < os.len()
        invariant
            i <= os.len(),
            "stream"@ != "display_data"@,
            "execute_result"@ != "display_data"@,
            os@ == members(crate::document::at(output_part)),
            ctx.image_dir == old(ctx).image_dir,
            dir == old(ctx).image_dir@,
            start == old(ctx).image_name_generator.counter as nat,
            w0 == views_of(old(warns)@),
            oks.len() == i,
            outputs_done(os@.take(i as int), oks, dir, start, res@, paths_of(images@), w0, views_of(warns@)),
            ctx.image_name_generator.counter == start + paths_of(images@).len(),
        decreases os.len() - i,
    {
        let ghost pre = os@.take(i as int);
        assert(os@.take(i + 1).drop_last() =~= pre);
        let ghost before_images = images@;
        let ghost before_warns = views_of(warns@);
        let ghost n = ctx.image_name_generator.counter as nat;
        let ghost es = entries(field(os@[i as int], "data"@));
        let ghost mut ok: Seq<bool> = Seq::new(es.len(), |k: int| false);
        let kind = crate::document::text_or_empty(os[i].get("output_type"));
        assert(kind@ == kind_of(os@[i as int]));
        if str_eq(kind.as_str(), "stream") {
            let t = get_stream_output(&os[i]);
            res.append(t.as_str());
        } else if str_eq(kind.as_str(), "execute_result") {
            let t = get_execute_result_output(&os[i]);
            res.append(t.as_str());
        } else if str_eq(kind.as_str(), "display_data") {
            let (t, mut imgs) = get_display_data_output(&os[i], ctx, warns);
            proof {
                ok = choose|ok: Seq<bool>| #[trigger] display_done(
                    os@[i as int], ok, dir, n, t@, paths_of(imgs@), before_warns, views_of(warns@),
                );
            }
            res.append(t.as_str());
            let ghost new_images = imgs@;
            images.append(&mut imgs);
            assert(paths_of(images@) =~= paths_of(before_images) + paths_of(new_images));
        }
        proof {
            let noks = oks.push(ok);
            lemma_outputs_stable(pre, oks, noks, dir, start);
            assert(os@.take(i + 1).drop_last() == pre);
            assert(noks[i as int] == ok);
            assert(outcomes_fit(es, ok));
            assert forall|j: int| 0 <= j < noks.len() implies outcomes_fit(entries(field(os@.take(i + 1)[j], "data"@)), #[trigger] noks[j]) by {
                if j < i {
                    assert(noks[j] == oks[j]);
                    assert(os@.take(i + 1)[j] == pre[j]);
                }
            }
            assert(warnings(outputs_failures(os@.take(i + 1), noks, dir, start)) =~= warnings(
                outputs_failures(pre, noks, dir, start),
            ) + warnings(output_failures(os@[i as int], ok, dir, n)));
            oks = noks;
        }
        assert(views_of(warns@) =~= w0 + warnings(outputs_failures(os@.take(i + 1), oks, dir, start)));
        i = i + 1;
    }
    assert(os@.take(i as int) =~= os@);
    let r = (res, images);
    assert(outputs_done(os@, oks, dir, start, r.0@, paths_of(r.1@), w0, views_of(warns@)));
    r
}

/// The rendering of the stream and result records among the outputs, used
/// where images are not extracted.
pub fn get_text_output(output_part: Option<&Json>) -> (r: String)
    ensures
        r@ == text_outputs(members(crate::document::at(output_part))),
{
    let os = crate::document::members_at(output_part);
    let ghost f = |o: Json| text_output(o);
    let mut res = String::new();
    let mut i: usize = 0;
    while i < os.len()
        invariant
            i <= os.len(),
            os@ == members(crate::document::at(output_part)),
            f == (|o: Json| text_output(o)),
            res@ == concat(os@.take(i as int).map_values(f)),
        decreases os.len() - i,
    {
        assert(os@.take(i + 1).map_values(f).drop_last() =~= os@.take(i as int).map_values(f));
        let kind = crate::document::text_or_empty(os[i].get("output_type"));
        assert(kind@ == kind_of(os@[i as int]));
        if str_eq(kind.as_str(), "stream") {
            let t = get_stream_output(&os[i]);
            res.append(t.as_str());
        } else if str_eq(kind.as_str(), "execute_result") {
            let t = get_execute_result_output(&os[i]);
            res.append(t.as_str());
        }
        i = i + 1;
    }
    assert(os@.take(i as int) =~= os@);
    res
}

} // verus!

verus! {

/// The kind of a cell by its `cell_type` field; `None` for a cell that is left out.
pub open spec fn cell_kind(c: Json) -> Option<CellType> {
    match crate::document::str_of(field(c, "cell_type"@)) {
        Some(t) => if t == "code"@ {
            Some(CellType::Code)
        } else if t == "markdown"@ {
            Some(CellType::Markdown)
        } else {
            None
        },
        None => None,
    }
}

pub open spec fn outputs_of(c: Json) -> Seq<Json> {
    members(field(c, "outputs"@))
}

/// The number of images that the code cells among `cs` yield, with `okss[i]`
/// the decode outcomes of cell `i`.
pub open spec fn images_used(cs: Seq<Json>, okss: Seq<Seq<Seq<bool>>>, dir: Seq<char>) -> nat
    decreases cs.len(),
{
    if cs.len() == 0 {
        0
    } else {
        let n = images_used(cs.drop_last(), okss, dir);
        if cell_kind(cs.last()) == Some(CellType::Code) {
            n + outputs_paths(outputs_of(cs.last()), okss[cs.len() - 1], dir, n).len()
        } else {
            n
        }
    }
}

/// The number of image payloads of the code cells among `cs` that yield no image.
pub open spec fn build_failures(cs: Seq<Json>, okss: Seq<Seq<Seq<bool>>>, dir: Seq<char>) -> nat
    decreases cs.len(),
{
    if cs.len() == 0 {
        0
    } else {
        let n = images_used(cs.drop_last(), okss, dir);
        let w = build_failures(cs.drop_last(), okss, dir);
        if cell_kind(cs.last()) == Some(CellType::Code) {
            w + outputs_failures(outputs_of(cs.last()), okss[cs.len() - 1], dir, n)
        } else {
            w
        }
    }
}

/// The model of the cell `c` of kind `k`. A code cell's images are numbered on
/// from `start`; a Markdown cell has text outputs only and no images.
pub open spec fn cell_model(c: Json, k: CellType, oks: Seq<Seq<bool>>, dir: Seq<char>, start: nat) -> CellView {
    let os = outputs_of(c);
    CellView {
        cell_type: k,
        source: source_text(field(c, "source"@)),
        outputs: if k == CellType::Code { outputs_text(os, oks, dir, start) } else { text_outputs(os) },
        error_outputs: errors_text(os),
        image_paths: if k == CellType::Code { outputs_paths(os, oks, dir, start) } else { Seq::empty() },
    }
}

/// The models of the cells among `cs` whose kind is known, in order.
pub open spec fn built_cells(cs: Seq<Json>, okss: Seq<Seq<Seq<bool>>>, dir: Seq<char>) -> Seq<CellView>
    decreases cs.len(),
{
    if cs.len() == 0 {
        Seq::empty()
    } else {
        let prev = built_cells(cs.drop_last(), okss, dir);
        match cell_kind(cs.last()) {
            Some(k) => prev.push(cell_model(cs.last(), k, okss[cs.len() - 1], dir, images_used(cs.drop_last(), okss, dir))),
            None => prev,
        }
    }
}

/// Whether `okss` can be the decode outcomes of the cells `cs`, one per cell.
pub open spec fn cells_fit(cs: Seq<Json>, okss: Seq<Seq<Seq<bool>>>) -> bool {
    &&& okss.len() == cs.len()
    &&& forall|i: int| 0 <= i < okss.len() ==> record_outcomes_fit(outputs_of(cs[i]), #[trigger] okss[i])
}

/// The results over the cells `cs` read only the outcomes of those cells.
pub proof fn lemma_cells_stable(cs: Seq<Json>, a: Seq<Seq<Seq<bool>>>, b: Seq<Seq<Seq<bool>>>, dir: Seq<char>)
    requires
        a.len() >= cs.len(),
        b.len() >= cs.len(),
        forall|j: int| 0 <= j < cs.len() ==> a[j] == b[j],
    ensures
        images_used(cs, a, dir) == images_used(cs, b, dir),
        build_failures(cs, a, dir) == build_failures(cs, b, dir),
        built_cells(cs, a, dir) == built_cells(cs, b, dir),
    decreases cs.len(),
{
    if cs.len() > 0 {
        lemma_cells_stable(cs.drop_last(), a, b, dir);
    }
}

pub open spec fn cell_views(cells: Seq<Cell>) -> Seq<CellView> {
    cells.map_values(|c: Cell| c@)
}

/// A notebook: its cells in order, and the warnings raised while building it.
pub struct Notebook {
    pub cells: Vec<Cell>,
    pub warnings: Vec<String>,
}

/// Whether a notebook document has a `cells` array.
pub open spec fn has_cells(root: Json) -> bool {
    field(root, "cells"@) is Array
}

/// What building the cells `cs` gives when `okss` are their decode outcomes.
pub open spec fn cells_done(cs: Seq<Json>, okss: Seq<Seq<Seq<bool>>>, dir: Seq<char>, cells: Seq<CellView>, warns: Seq<Seq<char>>) -> bool {
    &&& cells_fit(cs, okss)
    &&& cells == built_cells(cs, okss, dir)
    &&& warns == warnings(build_failures(cs, okss, dir))
}

/// What building the notebook document `root` gives, with images under `dir`,
/// for some decode outcomes that fit its image payloads.
pub open spec fn builds_to(root: Json, dir: Seq<char>, nb: Notebook) -> bool {
    exists|okss: Seq<Seq<Seq<bool>>>| #[trigger] cells_done(
        members(field(root, "cells"@)),
        okss,
        dir,
        cell_views(nb.cells@),
        views_of(nb.warnings@),
    )
}

impl Notebook {
    /// Builds the notebook model of the document `root`, with images under
    /// `image_dir`; `None` when the document has no `cells` array.
    pub fn build(root: &Json, image_dir: String) -> (r: Option<Self>)
        ensures
            r is Some == has_cells(*root),
            r matches Some(nb) ==> builds_to(*root, image_dir@, nb),
    {
        let cells_part = root.get("cells");
        match cells_part {
            Some(Json::Array(_)) => {},
            _ => {
                return None;
            },
        }
        let cs = crate::document::members_at(cells_part);
        let ghost dir = image_dir@;
        let ghost mut okss: Seq<Seq<Seq<bool>>> = Seq::empty();
        let mut context = Context::new(image_dir);
        let mut cells: Vec<Cell> = Vec::new();
        let mut warns: Vec<String> = Vec::new();
        let mut i: usize = 0;
        proof {
            assert(cs@.take(0) =~= Seq::<Json>::empty());
            assert(cell_views(cells@) =~= Seq::<CellView>::empty());
            assert(views_of(warns@) =~= warnings(0));
        }
        while i < cs.len()
            invariant
                i <= cs.len(),
                cs@ == members(field(*root, "cells"@)),
                context.image_dir@ == dir,
                okss.len() == i,
                cells_done(cs@.take(i as int), okss, dir, cell_views(cells@), views_of(warns@)),
                context.image_name_generator.counter == images_used(cs@.take(i as int), okss, dir),
            decreases cs.len() - i,
        {
            let ghost pre = cs@.take(i as int);
            assert(cs@.take(i + 1).drop_last() =~= pre);
            let cell = &cs[i];
            let ghost before_cells = cells@;
            let ghost before_warns = views_of(warns@);
            let ghost n = context.image_name_generator.counter as nat;
            let ghost os = outputs_of(cs@[i as int]);
            let ghost mut oks: Seq<Seq<bool>> = Seq::new(os.len(), |j: int| Seq::new(entries(field(os[j], "data"@)).len(), |k: int| false));
            let kind = match cell.get("cell_type") {
                Some(Json::Str(t)) => if str_eq(t.as_str(), "code") {
                    Some(CellType::Code)
                } else if str_eq(t.as_str(), "markdown") {
                    Some(CellType::Markdown)
                } else {
                    None
                },
                _ => None,
            };
            assert(kind == cell_kind(cs@[i as int]));
            match kind {
                Some(CellType::Code) => {
                    let source = get_source(cell.get("source"));
                    let (outputs, images) = get_output(cell.get("outputs"), &mut context, &mut warns);
                    proof {
                        oks = choose|oks: Seq<Seq<bool>>| #[trigger] outputs_done(
                            os, oks, dir, n, outputs@, paths_of(images@), before_warns, views_of(warns@),
                        );
                    }
                    let error_outputs = get_error_output(cell.get("outputs"));
                    let c = Cell::new(CellType::Code, source, outputs, error_outputs, images);
                    assert(c@ == cell_model(cs@[i as int], CellType::Code, oks, dir, n));
                    cells.push(c);
                    assert(cell_views(cells@) =~= cell_views(before_cells).push(c@));
                },
                Some(CellType::Markdown) => {
                    let source = get_source(cell.get("source"));
                    let outputs = get_text_output(cell.get("outputs"));
                    let error_outputs = get_error_output(cell.get("outputs"));
                    let c = Cell::new(CellType::Markdown, source, outputs, error_outputs, Vec::new());
                    assert(paths_of(c.images@) =~= Seq::<Seq<char>>::empty());
                    assert(c@ == cell_model(cs@[i as int], CellType::Markdown, oks, dir, n));
                    cells.push(c);
                    assert(cell_views(cells@) =~= cell_views(before_cells).push(c@));
                },
                None => {},
            }
            proof {
                assert forall|j: int| 0 <= j < oks.len() implies outcomes_fit(entries(field(os[j], "data"@)), #[trigger] oks[j]) by {
                    if kind != Some(CellType::Code) {
                        assert(oks[j] == Seq::new(entries(field(os[j], "data"@)).len(), |k: int| false));
                    }
                }
                let nokss = okss.push(oks);
                lemma_cells_stable(pre, okss, nokss, dir);
                assert(nokss[i as int] == oks);
                assert forall|j: int| 0 <= j < nokss.len() implies record_outcomes_fit(outputs_of(cs@.take(i + 1)[j]), #[trigger] nokss[j]) by {
                    if j < i {
                        assert(nokss[j] == okss[j]);
                        assert(cs@.take(i + 1)[j] == pre[j]);
                    }
                }
                assert(warnings(build_failures(cs@.take(i + 1), nokss, dir)) =~= warnings(
                    build_failures(pre, nokss, dir),
                ) + (if kind == Some(CellType::Code) { warnings(outputs_failures(os, oks, dir, n)) } else { Seq::empty() }));
                okss = nokss;
            }
            assert(views_of(warns@) =~= warnings(build_failures(cs@.take(i + 1), okss, dir)));
            i = i + 1;
        }
        assert(cs@.take(i as int) =~= cs@);
        let nb = Notebook { cells, warnings: warns };
        assert(cells_done(members(field(*root, "cells"@)), okss, dir, cell_views(nb.cells@), views_of(nb.warnings@)));
        Some(nb)
    }

    /// Parses the JSON text `json_string` and builds its notebook model, with
    /// images under `image_dir`; `None` when the text is not JSON or has no
    /// `cells` array.
    pub fn from_string(json_string: &str, image_dir: String) -> (r: Option<Self>)
        ensures
            r is Some == (parsed_json(json_string@) matches Some(root) && has_cells(root)),
            r matches Some(nb) ==> builds_to(parsed_json(json_string@)->0, image_dir@, nb),
    {
        match parse_json(json_string) {
            Some(root) => Notebook::build(&root, image_dir),
            None => None,
        }
    }
}

} // verus!

verus! {

/// Cells whose `cell_type` is neither `code` nor `markdown` leave no cell in
/// the model: there are never more cells than in the document, and strictly
/// fewer as soon as one of them has another type.
pub proof fn lemma_unknown_cells_dropped(cs: Seq<Json>, okss: Seq<Seq<Seq<bool>>>, dir: Seq<char>)
    ensures
        built_cells(cs, okss, dir).len() <= cs.len(),
        (exists|i: int| 0 <= i < cs.len() && cell_kind(#[trigger] cs[i]) is None)
            ==> built_cells(cs, okss, dir).len() < cs.len(),
    decreases cs.len(),
{
    if cs.len() > 0 {
        lemma_unknown_cells_dropped(cs.drop_last(), okss, dir);
        if exists|i: int| 0 <= i < cs.len() && cell_kind(#[trigger] cs[i]) is None {
            let i = choose|i: int| 0 <= i < cs.len() && cell_kind(#[trigger] cs[i]) is None;
            if i < cs.len() - 1 {
                assert(cell_kind(cs.drop_last()[i]) is None);
            }
        }
    }
}

/// A source given as an array of fragments reads as the single string that
/// joins them: `["a\n", "b\n"]` and `"a\nb\n"` give the same source text.
pub proof fn lemma_source_forms_agree(fragments_form: Json, string_form: Json)
    requires
        fragments_form is Array,
        string_form is Str,
        concat(crate::document::members(fragments_form).map_values(|m: Json| text_of(m)))
            == text_of(string_form),
    ensures
        source_text(fragments_form) == source_text(string_form),
{
    let t = text_of(string_form);
    assert(seq![t].drop_last() =~= Seq::<Seq<char>>::empty());
    assert(concat(seq![t]) == concat(Seq::<Seq<char>>::empty()) + t);
    assert(Seq::<char>::empty() + t =~= t);
    assert(fragments(string_form) == seq![t]);
}

/// Whether `paths` are the images numbered `start + 1`, `start + 2`, ... under `dir`.
pub open spec fn numbered_from(paths: Seq<Seq<char>>, dir: Seq<char>, start: nat) -> bool {
    forall|k: int| 0 <= k < paths.len() ==> is_numbered(#[trigger] paths[k], dir, start + k as nat + 1)
}

/// Whether `path` is the path of the `n`-th image under `dir`, whatever its extension.
pub open spec fn is_numbered(path: Seq<char>, dir: Seq<char>, n: nat) -> bool {
    exists|ext: Seq<char>| #[trigger] image_path(dir, n, ext) == path
}

proof fn lemma_display_numbered(es: Seq<(String, Json)>, ok: Seq<bool>, dir: Seq<char>, start: nat)
    ensures
        numbered_from(display_paths(es, ok, dir, start), dir, start),
    decreases es.len(),
{
    if es.len() > 0 {
        lemma_display_numbered(es.drop_last(), ok, dir, start);
        let prev = display_paths(es.drop_last(), ok, dir, start);
        let ps = display_paths(es, ok, dir, start);
        assert forall|k: int| 0 <= k < ps.len() implies is_numbered(ps[k], dir, start + k as nat + 1) by {
            if k < prev.len() {
                assert(ps[k] == prev[k]);
            } else {
                assert(image_path(dir, start + k as nat + 1, image_ext(es.last().0@)) == ps[k]);
            }
        }
    }
}

proof fn lemma_outputs_numbered(os: Seq<Json>, oks: Seq<Seq<bool>>, dir: Seq<char>, start: nat)
    ensures
        numbered_from(outputs_paths(os, oks, dir, start), dir, start),
    decreases os.len(),
{
    if os.len() > 0 {
        lemma_outputs_numbered(os.drop_last(), oks, dir, start);
        let prev = outputs_paths(os.drop_last(), oks, dir, start);
        let n = start + prev.len();
        let more = output_paths(os.last(), oks[os.len() - 1], dir, n);
        if kind_of(os.last()) == "display_data"@ {
            lemma_display_numbered(entries(field(os.last(), "data"@)), oks[os.len() - 1], dir, n);
        }
        let ps = outputs_paths(os, oks, dir, start);
        assert forall|k: int| 0 <= k < ps.len() implies is_numbered(ps[k], dir, start + k as nat + 1) by {
            if k < prev.len() {
                assert(ps[k] == prev[k]);
            } else {
                assert(ps[k] == more[k - prev.len()]);
                assert(n + (k - prev.len()) as nat + 1 == start + k as nat + 1);
            }
        }
    }
}

/// The image paths of all cells, in cell order.
pub open spec fn all_image_paths(cells: Seq<CellView>) -> Seq<Seq<char>>
    decreases cells.len(),
{
    if cells.len() == 0 {
        Seq::empty()
    } else {
        all_image_paths(cells.drop_last()) + cells.last().image_paths
    }
}

/// Images are numbered across the whole notebook in cell order, then output
/// order: the `k`-th extracted image is `image_<k+1>.<ext>`, whichever cell it
/// comes from, so the numbers strictly increase and no two are equal.
/// Markdown cells hold no images.
pub proof fn lemma_images_numbered_in_order(cs: Seq<Json>, okss: Seq<Seq<Seq<bool>>>, dir: Seq<char>)
    ensures
        all_image_paths(built_cells(cs, okss, dir)).len() == images_used(cs, okss, dir),
        numbered_from(all_image_paths(built_cells(cs, okss, dir)), dir, 0),
        forall|j: int| 0 <= j < built_cells(cs, okss, dir).len()
            && (#[trigger] built_cells(cs, okss, dir)[j]).cell_type == CellType::Markdown
            ==> built_cells(cs, okss, dir)[j].image_paths.len() == 0,
    decreases cs.len(),
{
    if cs.len() > 0 {
        lemma_images_numbered_in_order(cs.drop_last(), okss, dir);
        let prev = all_image_paths(built_cells(cs.drop_last(), okss, dir));
        let n = images_used(cs.drop_last(), okss, dir);
        let cells = built_cells(cs, okss, dir);
        let pcells = built_cells(cs.drop_last(), okss, dir);
        match cell_kind(cs.last()) {
            Some(k) => {
                let os = outputs_of(cs.last());
                let oks = okss[cs.len() - 1];
                lemma_outputs_numbered(os, oks, dir, n);
                let more = if k == CellType::Code { outputs_paths(os, oks, dir, n) } else { Seq::empty() };
                assert(cells.drop_last() == pcells);
                let ps = all_image_paths(cells);
                assert(ps == prev + more);
                assert forall|j: int| 0 <= j < ps.len() implies is_numbered(ps[j], dir, 0 + j as nat + 1) by {
                    if j < prev.len() {
                        assert(ps[j] == prev[j]);
                    } else {
                        assert(ps[j] == more[j - prev.len()]);
                        assert(n + (j - prev.len()) as nat + 1 == j as nat + 1);
                    }
                }
                assert forall|j: int| 0 <= j < cells.len() && (#[trigger] cells[j]).cell_type == CellType::Markdown
                    implies cells[j].image_paths.len() == 0 by {
                    if j < pcells.len() {
                        assert(cells[j] == pcells[j]);
                    }
                }
            },
            None => {},
        }
    }
}

} // verus!

verus! {

/// A `display_data` record whose one entry is a `image/png` payload that
/// decoded, first in the run, gives exactly one image, `<dir>/image_1.png`,
/// and its tag as the rendering.
pub proof fn lemma_single_png(key: String, payload: Json, dir: Seq<char>)
    requires
        key@ == "image/png"@,
    ensures
        display_paths(seq![(key, payload)], seq![true], dir, 0) == seq![dir + "/image_1.png"@],
        display_failures(seq![(key, payload)], seq![true], dir, 0) == 0,
{
    reveal_strlit("image/png");
    reveal_strlit("image/");
    reveal_strlit("image_");
    reveal_strlit("image_1.png");
    reveal_strlit("/image_1.png");
    reveal_strlit(".");
    reveal_strlit("/");
    reveal_strlit("png");
    let es = seq![(key, payload)];
    assert(es.drop_last() =~= Seq::<(String, Json)>::empty());
    assert(key@.take(6) =~= "image/"@);
    assert(image_ext(key@) =~= "png"@);
    assert(decimal(1) == seq!['1']);
    assert(image_path(dir, 1, "png"@) =~= dir + "/image_1.png"@);
    assert(es.last() == (key, payload));
    assert(is_image_key(key@));
    assert(seq![true][es.len() - 1]);
    assert(display_paths(es.drop_last(), seq![true], dir, 0) == Seq::<Seq<char>>::empty());
    assert(display_failures(es.drop_last(), seq![true], dir, 0) == 0);
    assert(number_available(0));
    assert(display_paths(es, seq![true], dir, 0) =~= seq![image_path(dir, 1, image_ext(key@))]);
}

} // verus!

verus! {

/// Cells are kept in document order: a cell of unknown type adds nothing, and
/// a code or Markdown cell adds one cell of its kind with its source text.
pub proof fn lemma_cell_kept_or_dropped(cs: Seq<Json>, c: Json, okss: Seq<Seq<Seq<bool>>>, dir: Seq<char>)
    ensures
        cell_kind(c) is None ==> built_cells(cs.push(c), okss, dir) == built_cells(cs, okss, dir),
        cell_kind(c) matches Some(k) ==> {
            let after = built_cells(cs.push(c), okss, dir);
            &&& after.drop_last() == built_cells(cs, okss, dir)
            &&& after.last().cell_type == k
            &&& after.last().source == source_text(field(c, "source"@))
        },
{
    assert(cs.push(c).drop_last() =~= cs);
    assert(cs.push(c).last() == c);
}

} // verus!
