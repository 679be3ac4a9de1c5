//! Parsers from mermaid source text to diagram structures.
use vstd::prelude::*;

pub mod common;
pub mod flowchart;
pub mod sequence;

use crate::text::{chars_of, starts_with, starts_with_exec, string_from, trim, trim_slice, words, words_exec};
use crate::{result_view, ErrorModel, RenderError};
use flowchart::{parse_flowchart, Flowchart, FlowchartModel};
use sequence::{parse_sequence, SequenceDiagram, SequenceModel};

verus! {

/// A parsed mermaid diagram.
#[derive(Debug)]
pub enum Diagram {
    Flowchart(flowchart::Flowchart),
    Sequence(sequence::SequenceDiagram),
}

/// What a `Diagram` holds.
pub enum DiagramModel {
    Flowchart(FlowchartModel),
    Sequence(SequenceModel),
}

impl View for Diagram {
    type V = DiagramModel;

    open spec fn view(&self) -> DiagramModel {
        match self {
            Diagram::Flowchart(f) => DiagramModel::Flowchart(f@),
            Diagram::Sequence(s) => DiagramModel::Sequence(s@),
        }
    }
}

pub open spec fn graph_keyword() -> Seq<char> {
    seq!['g', 'r', 'a', 'p', 'h', ' ']
}

pub open spec fn flowchart_keyword() -> Seq<char> {
    seq!['f', 'l', 'o', 'w', 'c', 'h', 'a', 'r', 't', ' ']
}

pub open spec fn sequence_keyword() -> Seq<char> {
    seq!['s', 'e', 'q', 'u', 'e', 'n', 'c', 'e', 'D', 'i', 'a', 'g', 'r', 'a', 'm']
}

/// What parsing `input` gives: the trimmed text is a flowchart where it
/// starts with `graph ` or `flowchart `, a sequence diagram where it starts
/// with `sequenceDiagram`, and otherwise an unsupported diagram named by its
/// first word (`unknown` where there is none).
pub open spec fn parse_diagram(input: Seq<char>) -> Result<DiagramModel, ErrorModel> {
    let t = trim(input);
    if starts_with(t, graph_keyword()) || starts_with(t, flowchart_keyword()) {
        match parse_flowchart(t) {
            Ok(f) => Ok(DiagramModel::Flowchart(f)),
            Err(e) => Err(e),
        }
    } else if starts_with(t, sequence_keyword()) {
        Ok(DiagramModel::Sequence(parse_sequence(t)))
    } else {
        let ws = words(t);
        Err(
            ErrorModel::UnsupportedDiagram(
                if ws.len() > 0 {
                    ws[0]
                } else {
                    "unknown"@
                },
            ),
        )
    }
}

/// Parsing dispatches on the trimmed source: `graph ` and `flowchart `
/// sources go to the flowchart parser, `sequenceDiagram` sources to the
/// sequence parser, each given the trimmed text, and any other source is an
/// unsupported diagram named by its first word (`unknown` where it has none).
pub proof fn law_parse_dispatch(input: Seq<char>)
    ensures
        ({
            let t = trim(input);
            &&& starts_with(t, graph_keyword()) || starts_with(t, flowchart_keyword()) ==> parse_diagram(input)
                == match parse_flowchart(t) {
                Ok(f) => Ok(DiagramModel::Flowchart(f)),
                Err(e) => Err(e),
            }
            &&& !(starts_with(t, graph_keyword()) || starts_with(t, flowchart_keyword())) && starts_with(
                t,
                sequence_keyword(),
            ) ==> parse_diagram(input) == Ok::<DiagramModel, ErrorModel>(DiagramModel::Sequence(parse_sequence(t)))
            &&& !(starts_with(t, graph_keyword()) || starts_with(t, flowchart_keyword())) && !starts_with(
                t,
                sequence_keyword(),
            ) ==> parse_diagram(input) == Err::<DiagramModel, ErrorModel>(
                ErrorModel::UnsupportedDiagram(
                    if words(t).len() > 0 {
                        words(t)[0]
                    } else {
                        "unknown"@
                    },
                ),
            )
        }),
{
}

/// Parsing fails only with a parse error or an unsupported diagram, never
/// with a layout error.
pub proof fn law_parse_errors(input: Seq<char>)
    ensures
        parse_diagram(input) matches Err(e) ==> !(e is LayoutError),
{
}

/// Parses a diagram from the chars of mermaid source.
pub(crate) fn parse_slice(input: &[char]) -> (r: Result<Diagram, RenderError>)
    ensures
        result_view(r) == parse_diagram(input@),
{
    let trimmed = trim_slice(input);
    let graph = vec!['g', 'r', 'a', 'p', 'h', ' '];
    let flow = vec!['f', 'l', 'o', 'w', 'c', 'h', 'a', 'r', 't', ' '];
    let seqd = vec!['s', 'e', 'q', 'u', 'e', 'n', 'c', 'e', 'D', 'i', 'a', 'g', 'r', 'a', 'm'];
    if starts_with_exec(trimmed, graph.as_slice()) || starts_with_exec(trimmed, flow.as_slice()) {
        match flowchart::parse_slice(trimmed) {
            Ok(fc) => Ok(Diagram::Flowchart(fc)),
            Err(e) => Err(e),
        }
    } else if starts_with_exec(trimmed, seqd.as_slice()) {
        match sequence::parse_chars(trimmed) {
            Ok(sd) => Ok(Diagram::Sequence(sd)),
            Err(e) => Err(e),
        }
    } else {
        let ws = words_exec(trimmed);
        let kind = if ws.len() > 0 {
            string_from(ws[0].as_slice())
        } else {
            "unknown".to_owned()
        };
        Err(RenderError::UnsupportedDiagram(kind))
    }
}

/// Parses mermaid source text into a diagram.
pub fn parse(input: &str) -> (r: Result<Diagram, RenderError>)
    ensures
        result_view(r) == parse_diagram(input@),
{
    let chars = chars_of(input);
    parse_slice(chars.as_slice())
}

} // verus!
