//! Mermaid diagrams drawn as text. Flowcharts and sequence diagrams are
//! parsed from mermaid source, laid out on a character grid and drawn with
//! box-drawing or plain ASCII characters; markdown documents are rendered for
//! the terminal with their mermaid blocks drawn in place.
use vstd::prelude::*;

pub mod layout;
pub mod markdown;
pub mod parser;
pub mod render;
pub mod text;

use crate::layout::flowchart::{flow_layout, flow_layout_fits};
use crate::layout::sequence::{seq_layout, seq_layout_fits};
use crate::parser::{law_parse_errors, parse_diagram, Diagram, DiagramModel};
use crate::render::canvas::{all_cells, canvas_text, join_lines, model_wf, CanvasModel};
use crate::render::flowchart::{
    ascii_text, drawing_chars_in, flow_render_fits, is_ascii_char, law_flowchart_ascii, law_flowchart_fits_width,
    lemma_flowchart_cells, render_flowchart,
};
use crate::render::sequence::{
    law_sequence_ascii, law_sequence_fits_width, lemma_sequence_cells, render_sequence, seq_render_fits,
};
use crate::text::{
    chars_all, chars_of, lemma_chars_all_lines, lemma_chars_all_trim, lemma_lines_have_no_newline,
    lemma_trim_end_len, lemma_trim_idempotent, push_str, trim, trim_end,
};
use crate::parser::flowchart::law_flowchart_labels_from_input;
use crate::parser::sequence::law_sequence_labels_from_input;

verus! {

/// Rendering options for mermaid diagrams.
#[derive(Debug, Clone, Copy)]
pub struct RenderOptions {
    /// Maximum width in characters. Diagrams will be constrained to fit.
    pub max_width: usize,
    /// Use pure ASCII instead of Unicode box-drawing characters.
    pub ascii_only: bool,
}

impl Default for RenderOptions {
    fn default() -> (r: Self)
        ensures
            r.max_width == 80,
            !r.ascii_only,
    {
        Self { max_width: 80, ascii_only: false }
    }
}

/// Errors that can occur during mermaid parsing or rendering.
#[derive(Debug)]
pub enum RenderError {
    /// The input could not be parsed as a valid mermaid diagram.
    ParseError(String),
    /// The diagram type is not yet supported.
    UnsupportedDiagram(String),
    /// The diagram could not be laid out within the given constraints.
    LayoutError(String),
}

/// What a `RenderError` holds, with its text as chars.
pub enum ErrorModel {
    ParseError(Seq<char>),
    UnsupportedDiagram(Seq<char>),
    LayoutError(Seq<char>),
}

impl View for RenderError {
    type V = ErrorModel;

    open spec fn view(&self) -> ErrorModel {
        match self {
            RenderError::ParseError(m) => ErrorModel::ParseError(m@),
            RenderError::UnsupportedDiagram(k) => ErrorModel::UnsupportedDiagram(k@),
            RenderError::LayoutError(m) => ErrorModel::LayoutError(m@),
        }
    }
}

/// A result with its value and its error each taken by its view.
pub open spec fn result_view<T: View>(r: Result<T, RenderError>) -> Result<T::V, ErrorModel> {
    match r {
        Ok(v) => Ok(v@),
        Err(e) => Err(e@),
    }
}

/// The text that describes an error to a reader.
pub open spec fn error_message(e: ErrorModel) -> Seq<char> {
    match e {
        ErrorModel::ParseError(m) => "parse error: "@ + m,
        ErrorModel::UnsupportedDiagram(k) => "unsupported diagram type: "@ + k,
        ErrorModel::LayoutError(m) => "layout error: "@ + m,
    }
}

impl RenderError {
    /// The error described in words, e.g. `parse error: empty input`.
    pub fn message(&self) -> (s: String)
        ensures
            s@ == error_message(self@),
    {
        let (prefix, detail) = match self {
            RenderError::ParseError(m) => ("parse error: ", m),
            RenderError::UnsupportedDiagram(k) => ("unsupported diagram type: ", k),
            RenderError::LayoutError(m) => ("layout error: ", m),
        };
        let mut s = prefix.to_owned();
        push_str(&mut s, detail.as_str());
        s
    }
}

/// The text that `render` gives for `input`: the parsed diagram laid out,
/// drawn and turned into lines, or the parse error.
pub open spec fn render_text(input: Seq<char>, opts: RenderOptions) -> Result<Seq<char>, ErrorModel> {
    match parse_diagram(input) {
        Err(e) => Err(e),
        Ok(DiagramModel::Flowchart(f)) => Ok(canvas_text(render_flowchart(f, flow_layout(f), opts))),
        Ok(DiagramModel::Sequence(s)) => Ok(canvas_text(render_sequence(s, seq_layout(s), opts))),
    }
}

/// `render` does not overflow on `input`: layout and drawing stay within
/// `usize`.
pub open spec fn render_defined(input: Seq<char>, opts: RenderOptions) -> bool {
    match parse_diagram(input) {
        Ok(DiagramModel::Flowchart(f)) => flow_layout_fits(f) && flow_render_fits(f, flow_layout(f), opts),
        Ok(DiagramModel::Sequence(s)) => seq_layout_fits(s) && seq_render_fits(s, seq_layout(s)),
        Err(_) => true,
    }
}

/// The lines of a canvas's text are its rows with trailing whitespace
/// trimmed, so none is longer than the canvas is wide, and whatever holds of
/// every cell holds of every char of every line.
pub proof fn lemma_canvas_text_lines(c: CanvasModel, p: spec_fn(char) -> bool)
    requires
        model_wf(c),
        all_cells(c, p),
    ensures
        exists|ls: Seq<Seq<char>>|
            canvas_text(c) == join_lines(ls) && ls.len() == c.height && forall|i: int|
                0 <= i < ls.len() ==> (#[trigger] ls[i]).len() <= c.width && chars_all(ls[i], p),
{
    let ls = c.rows.map_values(|r: Seq<char>| trim_end(r));
    assert forall|i: int| 0 <= i < ls.len() implies (#[trigger] ls[i]).len() <= c.width && chars_all(ls[i], p) by {
        lemma_trim_end_len(c.rows[i]);
        assert(c.rows[i].len() == c.width);
        assert forall|x: int| 0 <= x < c.rows[i].len() implies #[trigger] p(c.rows[i][x]) by {
            assert(p(c.rows[i][x]));
        }
        lemma_chars_all_trim(c.rows[i], ' ', p);
    }
}

/// A rendered diagram is constrained to the requested width: its text is
/// lines joined by newlines, none holding a newline of its own and none
/// longer than `max_width` chars.
pub proof fn law_render_fits_max_width(input: Seq<char>, opts: RenderOptions)
    ensures
        render_text(input, opts) matches Ok(t) ==> exists|ls: Seq<Seq<char>>|
            t == join_lines(ls) && forall|i: int|
                0 <= i < ls.len() ==> (#[trigger] ls[i]).len() <= opts.max_width && chars_all(
                    ls[i],
                    |ch: char| ch != '\n',
                ),
{
    let nl = |ch: char| ch != '\n';
    let t = trim(input);
    lemma_lines_have_no_newline(t);
    assert(drawing_chars_in(nl, opts.ascii_only));
    match parse_diagram(input) {
        Ok(DiagramModel::Flowchart(f)) => {
            law_flowchart_labels_from_input(t, nl);
            law_flowchart_fits_width(f, flow_layout(f), opts);
            lemma_flowchart_cells(f, flow_layout(f), opts, nl);
            lemma_canvas_text_lines(render_flowchart(f, flow_layout(f), opts), nl);
        },
        Ok(DiagramModel::Sequence(s)) => {
            law_sequence_labels_from_input(t, nl);
            law_sequence_fits_width(s, seq_layout(s), opts);
            lemma_sequence_cells(s, seq_layout(s), opts, nl);
            lemma_canvas_text_lines(render_sequence(s, seq_layout(s), opts), nl);
        },
        Err(_) => {},
    }
}

proof fn lemma_join_lines_chars(ls: Seq<Seq<char>>, p: spec_fn(char) -> bool)
    requires
        p('\n'),
        forall|i: int| 0 <= i < ls.len() ==> chars_all(#[trigger] ls[i], p),
    ensures
        chars_all(join_lines(ls), p),
    decreases ls.len(),
{
    if ls.len() > 1 {
        assert forall|i: int| 0 <= i < ls.drop_last().len() implies chars_all(#[trigger] ls.drop_last()[i], p) by {
            assert(ls.drop_last()[i] == ls[i]);
        }
        lemma_join_lines_chars(ls.drop_last(), p);
        assert(chars_all(ls[ls.len() - 1], p));
        let a = join_lines(ls.drop_last());
        let j = a + seq!['\n'] + ls.last();
        assert forall|k: int| 0 <= k < j.len() implies #[trigger] p(j[k]) by {
            if k < a.len() {
                assert(j[k] == a[k]);
            } else if k > a.len() {
                assert(j[k] == ls.last()[k - a.len() - 1]);
            }
        }
    } else if ls.len() == 1 {
        assert(chars_all(ls[0], p));
    }
}

/// Where every cell of a canvas satisfies `p`, so does every char of its text.
pub proof fn lemma_canvas_text_chars(c: CanvasModel, p: spec_fn(char) -> bool)
    requires
        model_wf(c),
        all_cells(c, p),
        p('\n'),
    ensures
        chars_all(canvas_text(c), p),
{
    let ls = c.rows.map_values(|r: Seq<char>| trim_end(r));
    assert forall|i: int| 0 <= i < ls.len() implies chars_all(#[trigger] ls[i], p) by {
        assert(c.rows[i].len() == c.width);
        assert forall|x: int| 0 <= x < c.rows[i].len() implies #[trigger] p(c.rows[i][x]) by {
            assert(p(c.rows[i][x]));
        }
        lemma_chars_all_trim(c.rows[i], ' ', p);
    }
    lemma_join_lines_chars(ls, p);
}

/// In ASCII mode an ASCII source gives ASCII text: no box-drawing char ever
/// appears, since the labels are cut from the source and every line, corner
/// and arrow is drawn with an ASCII char.
pub proof fn law_render_ascii(input: Seq<char>, opts: RenderOptions)
    requires
        opts.ascii_only,
        ascii_text(input),
    ensures
        render_text(input, opts) matches Ok(t) ==> ascii_text(t),
{
    let p = |ch: char| is_ascii_char(ch);
    assert(chars_all(input, p));
    lemma_chars_all_trim(input, ' ', p);
    let t = trim(input);
    lemma_chars_all_lines(t, p);
    match parse_diagram(input) {
        Ok(DiagramModel::Flowchart(f)) => {
            law_flowchart_labels_from_input(t, p);
            assert forall|i: int| 0 <= i < f.nodes.len() implies ascii_text(#[trigger] f.nodes[i].label) by {
                let l = f.nodes[i].label;
                assert(chars_all(l, p));
                assert forall|k: int| 0 <= k < l.len() implies #[trigger] is_ascii_char(l[k]) by {
                    assert(p(l[k]));
                }
            }
            law_flowchart_ascii(f, flow_layout(f), opts);
            law_flowchart_fits_width(f, flow_layout(f), opts);
            let text = canvas_text(render_flowchart(f, flow_layout(f), opts));
            lemma_canvas_text_chars(render_flowchart(f, flow_layout(f), opts), p);
            assert forall|k: int| 0 <= k < text.len() implies #[trigger] is_ascii_char(text[k]) by {
                assert(p(text[k]));
            }
        },
        Ok(DiagramModel::Sequence(s)) => {
            law_sequence_labels_from_input(t, p);
            assert forall|i: int| 0 <= i < s.participants.len() implies ascii_text(#[trigger] s.participants[i].label) by {
                let l = s.participants[i].label;
                assert(chars_all(l, p));
                assert forall|k: int| 0 <= k < l.len() implies #[trigger] is_ascii_char(l[k]) by {
                    assert(p(l[k]));
                }
            }
            assert forall|j: int| 0 <= j < s.messages.len() implies ascii_text(#[trigger] s.messages[j].label) by {
                let l = s.messages[j].label;
                assert(chars_all(l, p));
                assert forall|k: int| 0 <= k < l.len() implies #[trigger] is_ascii_char(l[k]) by {
                    assert(p(l[k]));
                }
            }
            law_sequence_ascii(s, seq_layout(s), opts);
            law_sequence_fits_width(s, seq_layout(s), opts);
            let text = canvas_text(render_sequence(s, seq_layout(s), opts));
            lemma_canvas_text_chars(render_sequence(s, seq_layout(s), opts), p);
            assert forall|k: int| 0 <= k < text.len() implies #[trigger] is_ascii_char(text[k]) by {
                assert(p(text[k]));
            }
        },
        Err(_) => {},
    }
}

/// `render` fails exactly where parsing fails, with the parser's error,
/// which is never a layout error.
pub proof fn law_render_errors(input: Seq<char>, opts: RenderOptions)
    ensures
        render_text(input, opts) is Err <==> parse_diagram(input) is Err,
        render_text(input, opts) matches Err(e) ==> parse_diagram(input) == Err::<DiagramModel, ErrorModel>(e)
            && !(e is LayoutError),
{
    law_parse_errors(input);
}

/// Whitespace around the source is ignored: the source and the source
/// trimmed parse alike, render alike and can be rendered alike.
pub proof fn law_surrounding_whitespace_ignored(input: Seq<char>, opts: RenderOptions)
    ensures
        parse_diagram(trim(input)) == parse_diagram(input),
        render_text(trim(input), opts) == render_text(input, opts),
        render_defined(trim(input), opts) == render_defined(input, opts),
{
    lemma_trim_idempotent(input);
}

/// Parses and renders a mermaid diagram to ASCII/Unicode text.
///
/// Returns the rendered diagram as a multi-line string, or an error
/// if the input cannot be parsed.
pub fn render(input: &str, opts: &RenderOptions) -> (r: Result<String, RenderError>)
    requires
        render_defined(input@, *opts),
    ensures
        result_view(r) == render_text(input@, *opts),
{
    let diagram = match parser::parse(input) {
        Ok(d) => d,
        Err(e) => return Err(e),
    };
    match diagram {
        Diagram::Flowchart(flowchart) => {
            let positions = layout::flowchart::layout(&flowchart, opts);
            let canvas = render::flowchart::render(&flowchart, &positions, opts);
            Ok(canvas.to_string())
        },
        Diagram::Sequence(sequence) => {
            let positions = layout::sequence::layout(&sequence, opts);
            let canvas = render::sequence::render(&sequence, &positions, opts);
            Ok(canvas.to_string())
        },
    }
}

/// Parses and renders a mermaid diagram where `render` can; `None` on the
/// inputs where it cannot (see `render_defined`).
pub fn try_render(input: &str, opts: &RenderOptions) -> (r: Option<Result<String, RenderError>>)
    ensures
        r is None <==> !render_defined(input@, *opts),
        r matches Some(x) ==> result_view(x) == render_text(input@, *opts),
{
    let chars = chars_of(input);
    let diagram = match parser::parse_slice(chars.as_slice()) {
        Err(e) => return Some(Err(e)),
        Ok(d) => d,
    };
    match diagram {
        Diagram::Flowchart(flowchart) => {
            if !layout::flowchart::layout_fits(&flowchart) {
                return None;
            }
            let positions = layout::flowchart::layout(&flowchart, opts);
            if !render::flowchart::render_fits(&flowchart, &positions, opts) {
                return None;
            }
            let canvas = render::flowchart::render(&flowchart, &positions, opts);
            Some(Ok(canvas.to_string()))
        },
        Diagram::Sequence(sequence) => {
            if !layout::sequence::layout_fits(&sequence) {
                return None;
            }
            let positions = layout::sequence::layout(&sequence, opts);
            if !render::sequence::render_fits(&sequence, &positions) {
                return None;
            }
            let canvas = render::sequence::render(&sequence, &positions, opts);
            Some(Ok(canvas.to_string()))
        },
    }
}

} // verus!
