//! The flowchart parser: `graph TD` / `flowchart LR` headers, node
//! definitions and chains of edges.
use vstd::prelude::*;

use super::common::{Direction, EdgeStyle, NodeShape};
use crate::text::{
    chars_all, chars_eq, chars_of, find_char, find_char_exec, find_str, find_str_exec, lemma_chars_all_subrange,
    lemma_chars_all_trim, lemma_find_char_from_bounds, lemma_find_str_from_bounds, lemma_rfind_char_below_bounds,
    lemma_find_char_after, lemma_trim_start_concat, lemma_trim_start_idempotent, lemma_trim_start_nonempty_first,
    lines, lines_exec, opt_chars_all, push_chars, rfind_char, rfind_char_exec,
    starts_with, starts_with_exec, string_from, trim, trim_end_matches, trim_end_matches_slice, trim_slice,
    trim_end, trim_start, trim_start_slice, words, words_exec,
};
use crate::{result_view, ErrorModel, RenderError};

verus! {

/// A parsed flowchart diagram.
#[derive(Debug)]
pub struct Flowchart {
    pub direction: Direction,
    pub nodes: Vec<Node>,
    pub edges: Vec<Edge>,
}

/// A node in the flowchart.
#[derive(Debug, Clone)]
pub struct Node {
    pub id: String,
    pub label: String,
    pub shape: NodeShape,
}

/// An edge between two nodes.
#[derive(Debug, Clone)]
pub struct Edge {
    pub from: String,
    pub to: String,
    pub label: Option<String>,
    pub style: EdgeStyle,
}

/// What a `Node` holds, with its text as chars.
pub struct NodeModel {
    pub id: Seq<char>,
    pub label: Seq<char>,
    pub shape: NodeShape,
}

/// What an `Edge` holds, with its text as chars.
pub struct EdgeModel {
    pub from: Seq<char>,
    pub to: Seq<char>,
    pub label: Option<Seq<char>>,
    pub style: EdgeStyle,
}

/// What a `Flowchart` holds.
pub struct FlowchartModel {
    pub direction: Direction,
    pub nodes: Seq<NodeModel>,
    pub edges: Seq<EdgeModel>,
}

pub open spec fn opt_chars(o: Option<String>) -> Option<Seq<char>> {
    match o {
        Some(s) => Some(s@),
        None => None,
    }
}

impl View for Node {
    type V = NodeModel;

    open spec fn view(&self) -> NodeModel {
        NodeModel { id: self.id@, label: self.label@, shape: self.shape }
    }
}

impl View for Edge {
    type V = EdgeModel;

    open spec fn view(&self) -> EdgeModel {
        EdgeModel { from: self.from@, to: self.to@, label: opt_chars(self.label), style: self.style }
    }
}

pub open spec fn node_models(v: Seq<Node>) -> Seq<NodeModel> {
    v.map_values(|n: Node| n@)
}

pub open spec fn edge_models(v: Seq<Edge>) -> Seq<EdgeModel> {
    v.map_values(|e: Edge| e@)
}

impl View for Flowchart {
    type V = FlowchartModel;

    open spec fn view(&self) -> FlowchartModel {
        FlowchartModel {
            direction: self.direction,
            nodes: node_models(self.nodes@),
            edges: edge_models(self.edges@),
        }
    }
}

// ---------------------------------------------------------------------------
// The grammar, stated over chars
// ---------------------------------------------------------------------------

/// The direction named by the second word of a header such as `graph TD`,
/// or the text of the parse error.
pub open spec fn direction_of(header: Seq<char>) -> Result<Direction, Seq<char>> {
    let parts = words(header);
    if parts.len() < 2 {
        Err("expected direction after graph/flowchart keyword"@)
    } else if parts[1] == seq!['T', 'D'] || parts[1] == seq!['T', 'B'] {
        Ok(Direction::TopDown)
    } else if parts[1] == seq!['B', 'T'] {
        Ok(Direction::BottomUp)
    } else if parts[1] == seq!['L', 'R'] {
        Ok(Direction::LeftRight)
    } else if parts[1] == seq!['R', 'L'] {
        Ok(Direction::RightLeft)
    } else {
        Err("unknown direction: "@ + parts[1])
    }
}

/// The text after the opening delimiter at `open_pos`, up to the last `close`
/// (or to the end where there is none), trimmed.
pub open spec fn between(s: Seq<char>, open_pos: int, close: char) -> Seq<char> {
    let after = s.skip(open_pos + 1);
    match rfind_char(after, close) {
        Some(q) => trim(after.take(q)),
        None => trim(after),
    }
}

/// The node that a reference such as `A`, `A[Label]`, `A{Decision}` or
/// `A(Rounded)` stands for: the first of `[`, `{`, `(` that occurs decides
/// the shape, the text before it is the id and the text inside is the label.
pub open spec fn node_ref(s: Seq<char>) -> NodeModel {
    let t = trim_end_matches(trim(s), ';');
    match find_char(t, '[') {
        Some(p) => NodeModel { id: trim(t.take(p)), label: between(t, p, ']'), shape: NodeShape::Rectangle },
        None => match find_char(t, '{') {
            Some(p) => NodeModel { id: trim(t.take(p)), label: between(t, p, '}'), shape: NodeShape::Diamond },
            None => match find_char(t, '(') {
                Some(p) => NodeModel {
                    id: trim(t.take(p)),
                    label: between(t, p, ')'),
                    shape: NodeShape::RoundedRect,
                },
                None => NodeModel { id: trim(t), label: trim(t), shape: NodeShape::Rectangle },
            },
        },
    }
}

/// The `|label|` right after an arrow that ends at char index `after`
/// (whitespace may stand before the opening pipe): the text between the
/// pipes, trimmed, and the index just past the closing pipe.
pub open spec fn arrow_label(s: Seq<char>, after: int) -> Option<(Seq<char>, int)> {
    if after < 0 || after > s.len() {
        None
    } else {
        let rest = trim_start(s.skip(after));
        if rest.len() > 0 && rest[0] == '|' {
            match find_char(rest.skip(1), '|') {
                Some(e) => Some((trim(rest.skip(1).take(e)), s.len() - rest.len() + e + 2)),
                None => None,
            }
        } else {
            None
        }
    }
}

pub open spec fn dotted_arrow() -> Seq<char> {
    seq!['-', '.', '-', '>']
}

pub open spec fn thick_arrow() -> Seq<char> {
    seq!['=', '=', '>']
}

pub open spec fn solid_arrow() -> Seq<char> {
    seq!['-', '-', '>']
}

/// An arrow found in a line: where it starts and the index just past it
/// (past the closing pipe of its `|label|` where it has one), its style and
/// its label.
pub struct ArrowMatch {
    pub pos: int,
    pub end: int,
    pub style: EdgeStyle,
    pub label: Option<Seq<char>>,
}

pub open spec fn arrow_at(s: Seq<char>, pos: int, arrow_len: int, style: EdgeStyle) -> ArrowMatch {
    match arrow_label(s, pos + arrow_len) {
        Some((l, e)) => ArrowMatch { pos, end: e, style, label: Some(l) },
        None => ArrowMatch { pos, end: pos + arrow_len, style, label: None },
    }
}

/// Whether an arrow found at `a` comes before one found at `b` (an arrow
/// that is not found comes after every found one).
pub open spec fn found_before(a: Option<int>, b: Option<int>) -> bool {
    match (a, b) {
        (Some(x), Some(y)) => x < y,
        (Some(_), None) => true,
        _ => false,
    }
}

/// The arrow that the parser takes next: the leftmost of the first `-.->`,
/// the first `==>` and the first `-->`.
pub open spec fn next_arrow(s: Seq<char>) -> Option<ArrowMatch> {
    let d = find_str(s, dotted_arrow());
    let t = find_str(s, thick_arrow());
    let o = find_str(s, solid_arrow());
    if d is Some && !found_before(t, d) && !found_before(o, d) {
        Some(arrow_at(s, d.unwrap(), 4, EdgeStyle::Dotted))
    } else if t is Some && !found_before(o, t) {
        Some(arrow_at(s, t.unwrap(), 3, EdgeStyle::Thick))
    } else {
        match o {
            Some(p) => Some(arrow_at(s, p, 3, EdgeStyle::Solid)),
            None => None,
        }
    }
}

/// One edge of a chain, before its ends are read as node references.
pub struct RawEdge {
    pub from: Seq<char>,
    pub to: Seq<char>,
    pub label: Option<Seq<char>>,
    pub style: EdgeStyle,
}

/// What reading a line as a chain of edges gives.
pub enum ChainOutcome {
    /// The edges of the chain, in order.
    Edges(Seq<RawEdge>),
    /// The line is no chain: an arrow has nothing on one side.
    NotChain,
}

pub open spec fn prepend_edges(p: Seq<RawEdge>, o: ChainOutcome) -> ChainOutcome {
    match o {
        ChainOutcome::Edges(es) => ChainOutcome::Edges(p + es),
        other => other,
    }
}

/// The chain read from `rem` on: each arrow ends the text before it (the
/// `from` end) and the text up to the next arrow, or to the end of the line
/// without its trailing `;`, is the `to` end.
pub open spec fn chain_from(rem: Seq<char>) -> ChainOutcome
    decreases rem.len(),
{
    match next_arrow(rem) {
        None => ChainOutcome::Edges(Seq::empty()),
        Some(a) => {
            proof {
                lemma_next_arrow_bounds(rem);
            }
            let from = trim(rem.take(a.pos));
            let rest = rem.skip(a.end);
            let to = match next_arrow(rest) {
                Some(b) => trim(rest.take(b.pos)),
                None => trim_end_matches(trim(rest), ';'),
            };
            if from.len() == 0 || to.len() == 0 {
                ChainOutcome::NotChain
            } else {
                prepend_edges(seq![RawEdge { from, to, label: a.label, style: a.style }], chain_from(rest))
            }
        },
    }
}

/// A line read as a chain of edges `A --> B --> C`.
pub open spec fn edge_chain(line: Seq<char>) -> ChainOutcome {
    if next_arrow(line) is None {
        ChainOutcome::NotChain
    } else {
        match chain_from(line) {
            ChainOutcome::Edges(es) => if es.len() == 0 {
                ChainOutcome::NotChain
            } else {
                ChainOutcome::Edges(es)
            },
            other => other,
        }
    }
}

/// The first index of a node with the given id.
pub open spec fn node_index_from(nodes: Seq<NodeModel>, id: Seq<char>, i: int) -> Option<int>
    decreases nodes.len() - i,
{
    if i < 0 || i >= nodes.len() {
        None
    } else if nodes[i].id == id {
        Some(i)
    } else {
        node_index_from(nodes, id, i + 1)
    }
}

pub open spec fn node_index(nodes: Seq<NodeModel>, id: Seq<char>) -> Option<int> {
    node_index_from(nodes, id, 0)
}

/// The node list after a reference to `new`: a new id is appended; a known
/// id takes the label and shape of `new` where `new` has an explicit label.
pub open spec fn ensure_node_spec(nodes: Seq<NodeModel>, new: NodeModel) -> Seq<NodeModel> {
    match node_index(nodes, new.id) {
        Some(i) => if new.label != new.id {
            nodes.update(i, NodeModel { id: nodes[i].id, label: new.label, shape: new.shape })
        } else {
            nodes
        },
        None => nodes.push(new),
    }
}

/// Nodes and edges read so far.
pub struct FlowState {
    pub nodes: Seq<NodeModel>,
    pub edges: Seq<EdgeModel>,
}

pub open spec fn empty_state() -> FlowState {
    FlowState { nodes: Seq::empty(), edges: Seq::empty() }
}

pub open spec fn add_edge(st: FlowState, e: RawEdge) -> FlowState {
    let f = node_ref(e.from);
    let t = node_ref(e.to);
    FlowState {
        nodes: ensure_node_spec(ensure_node_spec(st.nodes, f), t),
        edges: st.edges.push(EdgeModel { from: f.id, to: t.id, label: e.label, style: e.style }),
    }
}

pub open spec fn add_edges(st: FlowState, es: Seq<RawEdge>) -> FlowState
    decreases es.len(),
{
    if es.len() == 0 {
        st
    } else {
        add_edge(add_edges(st, es.drop_last()), es.last())
    }
}

/// The state after one body line.
pub open spec fn add_line(st: FlowState, raw: Seq<char>) -> FlowState {
    let line = trim(raw);
    if line.len() == 0 || starts_with(line, seq!['%', '%']) {
        st
    } else {
        match edge_chain(line) {
            ChainOutcome::Edges(es) => add_edges(st, es),
            ChainOutcome::NotChain => FlowState {
                nodes: ensure_node_spec(st.nodes, node_ref(line)),
                edges: st.edges,
            },
        }
    }
}

pub open spec fn add_lines(st: FlowState, ls: Seq<Seq<char>>) -> FlowState
    decreases ls.len(),
{
    if ls.len() == 0 {
        st
    } else {
        add_line(add_lines(st, ls.drop_last()), ls.last())
    }
}

/// What parsing `input` gives: the flowchart, or the error where there is
/// no line or the header names no direction.
pub open spec fn parse_flowchart(input: Seq<char>) -> Result<FlowchartModel, ErrorModel> {
    let ls = lines(input);
    if ls.len() == 0 {
        Err(ErrorModel::ParseError("empty input"@))
    } else {
        match direction_of(trim(ls[0])) {
            Err(m) => Err(ErrorModel::ParseError(m)),
            Ok(d) => {
                let st = add_lines(empty_state(), ls.skip(1));
                Ok(FlowchartModel { direction: d, nodes: st.nodes, edges: st.edges })
            },
        }
    }
}

// ---------------------------------------------------------------------------
// Lemmas
// ---------------------------------------------------------------------------

/// A bracketed node reference `id[text]` names a rectangle whose id is the
/// text before the first `[` and whose label is the text inside, both
/// trimmed, whatever the label holds (parentheses and braces included), as
/// long as the id holds none of `[`, `{`, `(`.
pub proof fn law_bracket_node(id: Seq<char>, text: Seq<char>)
    requires
        forall|k: int| 0 <= k < id.len() ==> id[k] != '[' && id[k] != '{' && id[k] != '(',
    ensures
        node_ref(id + (seq!['['] + text + seq![']'])) == (NodeModel {
            id: trim(id),
            label: trim(text),
            shape: NodeShape::Rectangle,
        }),
{
    let b = seq!['['] + text + seq![']'];
    let s = id + b;
    lemma_trim_start_concat(id, b);
    let ti = trim_start(id);
    let t0 = ti + b;
    assert(t0.len() > 0 && t0.last() == ']');
    assert(trim_end(t0) == t0);
    assert(trim(s) == t0);
    assert(trim_end_matches(t0, ';') == t0);
    let p = |ch: char| ch != '[' && ch != '{' && ch != '(';
    assert(chars_all(id, p));
    lemma_chars_all_trim(id, ';', p);
    assert forall|k: int| 0 <= k < ti.len() implies ti[k] != '[' by {
        assert(p(ti[k]));
    }
    lemma_find_char_after(ti, b, '[', 0);
    assert(find_char(t0, '[') == Some(ti.len() as int));
    assert(t0.take(ti.len() as int) =~= ti);
    lemma_trim_start_idempotent(id);
    let after = t0.skip(ti.len() as int + 1);
    assert(after =~= text + seq![']']);
    assert(rfind_char(after, ']') == Some(text.len() as int));
    assert(after.take(text.len() as int) =~= text);
}

/// A label's closing pipe lies after the arrow and within the line.
pub proof fn lemma_arrow_label_bounds(s: Seq<char>, after: int)
    ensures
        arrow_label(s, after) matches Some((l, e)) ==> after < e <= s.len(),
{
    if 0 <= after <= s.len() {
        let rest = trim_start(s.skip(after));
        lemma_trim_start_nonempty_first(s.skip(after));
        if rest.len() > 0 && rest[0] == '|' {
            lemma_find_char_from_bounds(rest.skip(1), '|', 0);
        }
    }
}

pub proof fn lemma_next_arrow_bounds(s: Seq<char>)
    ensures
        next_arrow(s) matches Some(a) ==> 0 <= a.pos && a.pos + 3 <= a.end <= s.len(),
{
    lemma_find_str_from_bounds(s, dotted_arrow(), 0);
    lemma_find_str_from_bounds(s, thick_arrow(), 0);
    lemma_find_str_from_bounds(s, solid_arrow(), 0);
    if let Some(p) = find_str(s, dotted_arrow()) {
        lemma_arrow_label_bounds(s, p + 4);
    }
    if let Some(p) = find_str(s, thick_arrow()) {
        lemma_arrow_label_bounds(s, p + 3);
    }
    if let Some(p) = find_str(s, solid_arrow()) {
        lemma_arrow_label_bounds(s, p + 3);
    }
}

/// No two nodes share an id.
pub open spec fn ids_distinct(nodes: Seq<NodeModel>) -> bool {
    forall|i: int, j: int| 0 <= i < j < nodes.len() ==> #[trigger] nodes[i].id != #[trigger] nodes[j].id
}

/// Some node has the id.
pub open spec fn has_node(nodes: Seq<NodeModel>, id: Seq<char>) -> bool {
    exists|i: int| 0 <= i < nodes.len() && #[trigger] nodes[i].id == id
}

/// The nodes have distinct ids and every edge joins two of them.
pub open spec fn graph_consistent(nodes: Seq<NodeModel>, edges: Seq<EdgeModel>) -> bool {
    &&& ids_distinct(nodes)
    &&& forall|k: int| 0 <= k < edges.len() ==> has_node(nodes, (#[trigger] edges[k]).from) && has_node(nodes, edges[k].to)
}

proof fn lemma_node_index_from(nodes: Seq<NodeModel>, id: Seq<char>, i: int)
    requires
        0 <= i,
    ensures
        node_index_from(nodes, id, i) matches Some(k) ==> i <= k < nodes.len() && nodes[k].id == id,
        node_index_from(nodes, id, i) is None ==> forall|k: int| i <= k < nodes.len() ==> nodes[k].id != id,
    decreases nodes.len() - i,
{
    if i < nodes.len() && nodes[i].id != id {
        lemma_node_index_from(nodes, id, i + 1);
    }
}

/// Referring to a node keeps every id where it was, keeps the ids distinct,
/// and leaves the referred id present.
proof fn lemma_ensure_node(nodes: Seq<NodeModel>, new: NodeModel)
    requires
        ids_distinct(nodes),
    ensures
        ids_distinct(ensure_node_spec(nodes, new)),
        has_node(ensure_node_spec(nodes, new), new.id),
        ensure_node_spec(nodes, new).len() >= nodes.len(),
        forall|k: int| 0 <= k < nodes.len() ==> (#[trigger] ensure_node_spec(nodes, new)[k]).id == nodes[k].id,
{
    lemma_node_index_from(nodes, new.id, 0);
    let r = ensure_node_spec(nodes, new);
    match node_index(nodes, new.id) {
        Some(i) => {
            assert(r[i].id == new.id);
        },
        None => {
            assert(r[nodes.len() as int].id == new.id);
        },
    }
}

/// Ids present before stay present in a list that keeps every id where it was.
proof fn lemma_has_node_kept(a: Seq<NodeModel>, b: Seq<NodeModel>, id: Seq<char>)
    requires
        has_node(a, id),
        b.len() >= a.len(),
        forall|k: int| 0 <= k < a.len() ==> (#[trigger] b[k]).id == a[k].id,
    ensures
        has_node(b, id),
{
    let i = choose|i: int| 0 <= i < a.len() && #[trigger] a[i].id == id;
    assert(b[i].id == id);
}

proof fn lemma_add_edge_consistent(st: FlowState, e: RawEdge)
    requires
        graph_consistent(st.nodes, st.edges),
    ensures
        graph_consistent(add_edge(st, e).nodes, add_edge(st, e).edges),
{
    let f = node_ref(e.from);
    let t = node_ref(e.to);
    let n1 = ensure_node_spec(st.nodes, f);
    let n2 = ensure_node_spec(n1, t);
    lemma_ensure_node(st.nodes, f);
    lemma_ensure_node(n1, t);
    let r = add_edge(st, e);
    assert forall|k: int| 0 <= k < r.edges.len() implies has_node(r.nodes, (#[trigger] r.edges[k]).from) && has_node(
        r.nodes,
        r.edges[k].to,
    ) by {
        if k < st.edges.len() {
            assert(r.edges[k] == st.edges[k]);
            lemma_has_node_kept(st.nodes, n1, st.edges[k].from);
            lemma_has_node_kept(n1, n2, st.edges[k].from);
            lemma_has_node_kept(st.nodes, n1, st.edges[k].to);
            lemma_has_node_kept(n1, n2, st.edges[k].to);
        } else {
            lemma_has_node_kept(n1, n2, f.id);
        }
    }
}

proof fn lemma_add_edges_consistent(st: FlowState, es: Seq<RawEdge>)
    requires
        graph_consistent(st.nodes, st.edges),
    ensures
        graph_consistent(add_edges(st, es).nodes, add_edges(st, es).edges),
    decreases es.len(),
{
    if es.len() > 0 {
        lemma_add_edges_consistent(st, es.drop_last());
        lemma_add_edge_consistent(add_edges(st, es.drop_last()), es.last());
    }
}

proof fn lemma_add_lines_consistent(st: FlowState, ls: Seq<Seq<char>>)
    requires
        graph_consistent(st.nodes, st.edges),
    ensures
        graph_consistent(add_lines(st, ls).nodes, add_lines(st, ls).edges),
    decreases ls.len(),
{
    if ls.len() > 0 {
        lemma_add_lines_consistent(st, ls.drop_last());
        let s2 = add_lines(st, ls.drop_last());
        {
            let line = trim(ls.last());
            if !(line.len() == 0 || starts_with(line, seq!['%', '%'])) {
                match edge_chain(line) {
                    ChainOutcome::Edges(es) => lemma_add_edges_consistent(s2, es),
                    ChainOutcome::NotChain => {
                        let n = node_ref(line);
                        lemma_ensure_node(s2.nodes, n);
                        let r = ensure_node_spec(s2.nodes, n);
                        assert forall|k: int| 0 <= k < s2.edges.len() implies has_node(
                            r,
                            (#[trigger] s2.edges[k]).from,
                        ) && has_node(r, s2.edges[k].to) by {
                            lemma_has_node_kept(s2.nodes, r, s2.edges[k].from);
                            lemma_has_node_kept(s2.nodes, r, s2.edges[k].to);
                        }
                    },
                }
            }
        }
    }
}

/// A parsed flowchart is a consistent graph: each node id occurs once, and
/// both ends of every edge are nodes of the chart (a node referred to only
/// by an edge is created by it).
pub proof fn law_flowchart_graph_consistent(input: Seq<char>)
    ensures
        parse_flowchart(input) matches Ok(fc) ==> graph_consistent(fc.nodes, fc.edges),
{
    if lines(input).len() > 0 {
        lemma_add_lines_consistent(empty_state(), lines(input).skip(1));
    }
}

proof fn lemma_between_chars(s: Seq<char>, open_pos: int, close: char, p: spec_fn(char) -> bool)
    requires
        chars_all(s, p),
        0 <= open_pos < s.len(),
    ensures
        chars_all(between(s, open_pos, close), p),
{
    lemma_chars_all_subrange(s, open_pos + 1, s.len() as int, p);
    let after = s.skip(open_pos + 1);
    lemma_rfind_char_below_bounds(after, close, after.len() as int);
    match rfind_char(after, close) {
        Some(q) => {
            lemma_chars_all_subrange(after, 0, q, p);
            lemma_chars_all_trim(after.take(q), close, p);
        },
        None => lemma_chars_all_trim(after, close, p),
    }
}

/// A node reference's id and label are made of chars of the reference.
proof fn lemma_node_ref_chars(s: Seq<char>, p: spec_fn(char) -> bool)
    requires
        chars_all(s, p),
    ensures
        chars_all(node_ref(s).id, p),
        chars_all(node_ref(s).label, p),
{
    lemma_chars_all_trim(s, ';', p);
    let t = trim_end_matches(trim(s), ';');
    lemma_chars_all_trim(trim(s), ';', p);
    lemma_find_char_from_bounds(t, '[', 0);
    lemma_find_char_from_bounds(t, '{', 0);
    lemma_find_char_from_bounds(t, '(', 0);
    lemma_chars_all_trim(t, ';', p);
    match find_char(t, '[') {
        Some(q) => {
            lemma_chars_all_subrange(t, 0, q, p);
            lemma_chars_all_trim(t.take(q), ';', p);
            lemma_between_chars(t, q, ']', p);
        },
        None => match find_char(t, '{') {
            Some(q) => {
                lemma_chars_all_subrange(t, 0, q, p);
                lemma_chars_all_trim(t.take(q), ';', p);
                lemma_between_chars(t, q, '}', p);
            },
            None => match find_char(t, '(') {
                Some(q) => {
                    lemma_chars_all_subrange(t, 0, q, p);
                    lemma_chars_all_trim(t.take(q), ';', p);
                    lemma_between_chars(t, q, ')', p);
                },
                None => {},
            },
        },
    }
}

proof fn lemma_next_arrow_chars(s: Seq<char>, p: spec_fn(char) -> bool)
    requires
        chars_all(s, p),
    ensures
        next_arrow(s) matches Some(a) ==> opt_chars_all(a.label, p),
{
    lemma_next_arrow_bounds(s);
    if let Some(a) = next_arrow(s) {
        let after = if a.style == EdgeStyle::Dotted {
            a.pos + 4
        } else {
            a.pos + 3
        };
        assert(a.label == match arrow_label(s, after) {
            Some((l, e)) => Some(l),
            None => None::<Seq<char>>,
        });
        if 0 <= after <= s.len() {
            lemma_chars_all_subrange(s, after, s.len() as int, p);
            lemma_chars_all_trim(s.skip(after), '|', p);
            let rest = trim_start(s.skip(after));
            if rest.len() > 0 && rest[0] == '|' {
                lemma_chars_all_subrange(rest, 1, rest.len() as int, p);
                lemma_find_char_from_bounds(rest.skip(1), '|', 0);
                if let Some(e) = find_char(rest.skip(1), '|') {
                    lemma_chars_all_subrange(rest.skip(1), 0, e, p);
                    lemma_chars_all_trim(rest.skip(1).take(e), '|', p);
                }
            }
        }
    }
}

/// Both ends and the label of every raw edge are made of chars satisfying `p`.
pub open spec fn raw_edges_chars(es: Seq<RawEdge>, p: spec_fn(char) -> bool) -> bool {
    forall|i: int|
        0 <= i < es.len() ==> chars_all((#[trigger] es[i]).from, p) && chars_all(es[i].to, p) && opt_chars_all(
            es[i].label,
            p,
        )
}

proof fn lemma_chain_from_chars(rem: Seq<char>, p: spec_fn(char) -> bool)
    requires
        chars_all(rem, p),
    ensures
        chain_from(rem) matches ChainOutcome::Edges(es) ==> raw_edges_chars(es, p),
    decreases rem.len(),
{
    if let Some(a) = next_arrow(rem) {
        lemma_next_arrow_bounds(rem);
        lemma_next_arrow_chars(rem, p);
        let k = a.end;
        {
            lemma_chars_all_subrange(rem, 0, a.pos, p);
            lemma_chars_all_trim(rem.take(a.pos), ';', p);
            lemma_chars_all_subrange(rem, k, rem.len() as int, p);
            let rest = rem.skip(k);
            lemma_next_arrow_bounds(rest);
            match next_arrow(rest) {
                Some(b) => {
                    lemma_chars_all_subrange(rest, 0, b.pos, p);
                    lemma_chars_all_trim(rest.take(b.pos), ';', p);
                },
                None => {
                    lemma_chars_all_trim(rest, ';', p);
                    lemma_chars_all_trim(trim(rest), ';', p);
                },
            }
            lemma_chain_from_chars(rest, p);
            let from = trim(rem.take(a.pos));
            let to = match next_arrow(rest) {
                Some(b) => trim(rest.take(b.pos)),
                None => trim_end_matches(trim(rest), ';'),
            };
            if let ChainOutcome::Edges(tail) = chain_from(rest) {
                let all = seq![RawEdge { from, to, label: a.label, style: a.style }] + tail;
                assert forall|i: int| 0 <= i < all.len() implies chars_all((#[trigger] all[i]).from, p) && chars_all(
                    all[i].to,
                    p,
                ) && opt_chars_all(all[i].label, p) by {
                    if i > 0 {
                        assert(all[i] == tail[i - 1]);
                    }
                }
            }
        }
    }
}

/// Every node label and edge label in the state is made of chars satisfying `p`.
pub open spec fn state_labels_chars(st: FlowState, p: spec_fn(char) -> bool) -> bool {
    &&& forall|i: int| 0 <= i < st.nodes.len() ==> chars_all((#[trigger] st.nodes[i]).label, p)
    &&& forall|j: int| 0 <= j < st.edges.len() ==> opt_chars_all((#[trigger] st.edges[j]).label, p)
}

proof fn lemma_ensure_node_chars(nodes: Seq<NodeModel>, new: NodeModel, p: spec_fn(char) -> bool)
    requires
        forall|i: int| 0 <= i < nodes.len() ==> chars_all((#[trigger] nodes[i]).label, p),
        chars_all(new.label, p),
    ensures
        forall|i: int|
            0 <= i < ensure_node_spec(nodes, new).len() ==> chars_all(
                (#[trigger] ensure_node_spec(nodes, new)[i]).label,
                p,
            ),
{
    lemma_node_index_from(nodes, new.id, 0);
    let r = ensure_node_spec(nodes, new);
    assert forall|i: int| 0 <= i < r.len() implies chars_all((#[trigger] r[i]).label, p) by {
        if i < nodes.len() {
            assert(chars_all(nodes[i].label, p));
        }
    }
}

proof fn lemma_add_edges_chars(st: FlowState, es: Seq<RawEdge>, p: spec_fn(char) -> bool)
    requires
        state_labels_chars(st, p),
        raw_edges_chars(es, p),
    ensures
        state_labels_chars(add_edges(st, es), p),
    decreases es.len(),
{
    if es.len() > 0 {
        assert(raw_edges_chars(es.drop_last(), p)) by {
            assert forall|i: int| 0 <= i < es.drop_last().len() implies chars_all(
                (#[trigger] es.drop_last()[i]).from,
                p,
            ) && chars_all(es.drop_last()[i].to, p) && opt_chars_all(es.drop_last()[i].label, p) by {
                assert(es.drop_last()[i] == es[i]);
            }
        }
        lemma_add_edges_chars(st, es.drop_last(), p);
        let prev = add_edges(st, es.drop_last());
        let e = es.last();
        assert(chars_all(e.from, p) && chars_all(e.to, p) && opt_chars_all(e.label, p));
        lemma_node_ref_chars(e.from, p);
        lemma_node_ref_chars(e.to, p);
        let n1 = ensure_node_spec(prev.nodes, node_ref(e.from));
        lemma_ensure_node_chars(prev.nodes, node_ref(e.from), p);
        lemma_ensure_node_chars(n1, node_ref(e.to), p);
    }
}

proof fn lemma_add_lines_chars(st: FlowState, ls: Seq<Seq<char>>, p: spec_fn(char) -> bool)
    requires
        state_labels_chars(st, p),
        forall|i: int| 0 <= i < ls.len() ==> chars_all(#[trigger] ls[i], p),
    ensures
        state_labels_chars(add_lines(st, ls), p),
    decreases ls.len(),
{
    if ls.len() > 0 {
        assert forall|i: int| 0 <= i < ls.drop_last().len() implies chars_all(#[trigger] ls.drop_last()[i], p) by {
            assert(ls.drop_last()[i] == ls[i]);
        }
        lemma_add_lines_chars(st, ls.drop_last(), p);
        let s2 = add_lines(st, ls.drop_last());
        {
            let line = trim(ls.last());
            assert(chars_all(ls[ls.len() - 1], p));
            lemma_chars_all_trim(ls.last(), ';', p);
            if !(line.len() == 0 || starts_with(line, seq!['%', '%'])) {
                lemma_chain_from_chars(line, p);
                match edge_chain(line) {
                    ChainOutcome::Edges(es) => lemma_add_edges_chars(s2, es, p),
                    ChainOutcome::NotChain => {
                        lemma_node_ref_chars(line, p);
                        lemma_ensure_node_chars(s2.nodes, node_ref(line), p);
                    },
                }
            }
        }
    }
}

/// Labels are cut from the source, never made up: whatever holds of every
/// char of every line of the input (being ASCII, say, or not being a
/// newline) holds of every char of every node label and edge label of the
/// parsed flowchart.
pub proof fn law_flowchart_labels_from_input(input: Seq<char>, p: spec_fn(char) -> bool)
    requires
        forall|i: int| 0 <= i < lines(input).len() ==> chars_all(#[trigger] lines(input)[i], p),
    ensures
        parse_flowchart(input) matches Ok(fc) ==> (forall|i: int|
            0 <= i < fc.nodes.len() ==> chars_all((#[trigger] fc.nodes[i]).label, p)) && (forall|j: int|
            0 <= j < fc.edges.len() ==> opt_chars_all((#[trigger] fc.edges[j]).label, p)),
{
    let ls = lines(input);
    if ls.len() > 0 {
        assert forall|i: int| 0 <= i < ls.skip(1).len() implies chars_all(#[trigger] ls.skip(1)[i], p) by {
            assert(ls.skip(1)[i] == ls[i + 1]);
        }
        lemma_add_lines_chars(empty_state(), ls.skip(1), p);
    }
}

/// `ids` with `x` added at the end unless it is already there.
pub open spec fn add_new_id(ids: Seq<Seq<char>>, x: Seq<char>) -> Seq<Seq<char>> {
    if ids.contains(x) {
        ids
    } else {
        ids.push(x)
    }
}

/// `ids` with each of `xs` added in turn where it is new.
pub open spec fn add_new_ids(ids: Seq<Seq<char>>, xs: Seq<Seq<char>>) -> Seq<Seq<char>>
    decreases xs.len(),
{
    if xs.len() == 0 {
        ids
    } else {
        add_new_id(add_new_ids(ids, xs.drop_last()), xs.last())
    }
}

/// The ids of the nodes, in order.
pub open spec fn node_ids(nodes: Seq<NodeModel>) -> Seq<Seq<char>> {
    nodes.map_values(|n: NodeModel| n.id)
}

/// The edge that a raw edge of a chain becomes.
pub open spec fn edge_of(e: RawEdge) -> EdgeModel {
    EdgeModel { from: node_ref(e.from).id, to: node_ref(e.to).id, label: e.label, style: e.style }
}

/// The node ids that the edges of a chain mention, left to right.
pub open spec fn raw_mentions(es: Seq<RawEdge>) -> Seq<Seq<char>>
    decreases es.len(),
{
    if es.len() == 0 {
        Seq::empty()
    } else {
        raw_mentions(es.drop_last()) + seq![node_ref(es.last().from).id, node_ref(es.last().to).id]
    }
}

/// The node ids that a body line mentions, left to right.
pub open spec fn line_mentions(raw: Seq<char>) -> Seq<Seq<char>> {
    let line = trim(raw);
    if line.len() == 0 || starts_with(line, seq!['%', '%']) {
        Seq::empty()
    } else {
        match edge_chain(line) {
            ChainOutcome::Edges(es) => raw_mentions(es),
            ChainOutcome::NotChain => seq![node_ref(line).id],
        }
    }
}

/// The edges that a body line states, left to right.
pub open spec fn line_edges(raw: Seq<char>) -> Seq<EdgeModel> {
    let line = trim(raw);
    if line.len() == 0 || starts_with(line, seq!['%', '%']) {
        Seq::empty()
    } else {
        match edge_chain(line) {
            ChainOutcome::Edges(es) => es.map_values(|e: RawEdge| edge_of(e)),
            _ => Seq::empty(),
        }
    }
}

pub open spec fn lines_mentions(ls: Seq<Seq<char>>) -> Seq<Seq<char>>
    decreases ls.len(),
{
    if ls.len() == 0 {
        Seq::empty()
    } else {
        lines_mentions(ls.drop_last()) + line_mentions(ls.last())
    }
}

pub open spec fn lines_edges(ls: Seq<Seq<char>>) -> Seq<EdgeModel>
    decreases ls.len(),
{
    if ls.len() == 0 {
        Seq::empty()
    } else {
        lines_edges(ls.drop_last()) + line_edges(ls.last())
    }
}

proof fn lemma_add_new_ids_concat(ids: Seq<Seq<char>>, a: Seq<Seq<char>>, b: Seq<Seq<char>>)
    ensures
        add_new_ids(ids, a + b) == add_new_ids(add_new_ids(ids, a), b),
    decreases b.len(),
{
    if b.len() == 0 {
        assert(a + b =~= a);
    } else {
        assert((a + b).drop_last() =~= a + b.drop_last());
        assert((a + b).last() == b.last());
        lemma_add_new_ids_concat(ids, a, b.drop_last());
    }
}

proof fn lemma_add_new_ids_two(ids: Seq<Seq<char>>, x: Seq<char>, y: Seq<char>)
    ensures
        add_new_ids(ids, seq![x, y]) == add_new_id(add_new_id(ids, x), y),
        add_new_ids(ids, seq![x]) == add_new_id(ids, x),
{
    assert(seq![x, y].drop_last() =~= seq![x]);
    assert(seq![x].drop_last() =~= Seq::<Seq<char>>::empty());
    assert(add_new_ids(ids, Seq::<Seq<char>>::empty()) == ids);
    assert(add_new_ids(ids, seq![x]) == add_new_id(add_new_ids(ids, seq![x].drop_last()), seq![x].last()));
    assert(add_new_ids(ids, seq![x, y]) == add_new_id(add_new_ids(ids, seq![x, y].drop_last()), seq![x, y].last()));
}

/// Referring to a node adds its id at the end where it is new and keeps
/// every other id where it was.
proof fn lemma_ensure_node_ids(nodes: Seq<NodeModel>, new: NodeModel)
    ensures
        node_ids(ensure_node_spec(nodes, new)) == add_new_id(node_ids(nodes), new.id),
{
    lemma_node_index_from(nodes, new.id, 0);
    let ids = node_ids(nodes);
    match node_index(nodes, new.id) {
        Some(k) => {
            assert(ids[k] == new.id);
            assert(ids.contains(new.id));
            assert(node_ids(ensure_node_spec(nodes, new)) =~= ids);
        },
        None => {
            assert(!ids.contains(new.id)) by {
                if ids.contains(new.id) {
                    let k = choose|k: int| 0 <= k < ids.len() && ids[k] == new.id;
                    assert(nodes[k].id == new.id);
                }
            }
            assert(node_ids(nodes.push(new)) =~= ids.push(new.id));
        },
    }
}

proof fn lemma_add_edges_order(st: FlowState, es: Seq<RawEdge>)
    ensures
        node_ids(add_edges(st, es).nodes) == add_new_ids(node_ids(st.nodes), raw_mentions(es)),
        add_edges(st, es).edges == st.edges + es.map_values(|e: RawEdge| edge_of(e)),
    decreases es.len(),
{
    if es.len() == 0 {
        assert(st.edges + es.map_values(|e: RawEdge| edge_of(e)) =~= st.edges);
    } else {
        lemma_add_edges_order(st, es.drop_last());
        let prev = add_edges(st, es.drop_last());
        let e = es.last();
        let f = node_ref(e.from);
        let t = node_ref(e.to);
        lemma_ensure_node_ids(prev.nodes, f);
        lemma_ensure_node_ids(ensure_node_spec(prev.nodes, f), t);
        lemma_add_new_ids_two(node_ids(prev.nodes), f.id, t.id);
        lemma_add_new_ids_concat(node_ids(st.nodes), raw_mentions(es.drop_last()), seq![f.id, t.id]);
        assert(es.map_values(|e: RawEdge| edge_of(e)) =~= es.drop_last().map_values(|e: RawEdge| edge_of(e)).push(
            edge_of(e),
        ));
        assert(st.edges + es.map_values(|e: RawEdge| edge_of(e)) =~= (st.edges + es.drop_last().map_values(
            |e: RawEdge| edge_of(e),
        )).push(edge_of(e)));
    }
}

proof fn lemma_add_lines_order(st: FlowState, ls: Seq<Seq<char>>)
    ensures
        node_ids(add_lines(st, ls).nodes) == add_new_ids(node_ids(st.nodes), lines_mentions(ls)),
        add_lines(st, ls).edges == st.edges + lines_edges(ls),
    decreases ls.len(),
{
    if ls.len() == 0 {
        assert(st.edges + lines_edges(ls) =~= st.edges);
    } else {
        lemma_add_lines_order(st, ls.drop_last());
        let s2 = add_lines(st, ls.drop_last());
        {
            let ids0 = node_ids(st.nodes);
            let m0 = lines_mentions(ls.drop_last());
            let raw = ls.last();
            lemma_add_new_ids_concat(ids0, m0, line_mentions(raw));
            assert(st.edges + lines_edges(ls) =~= (st.edges + lines_edges(ls.drop_last())) + line_edges(raw));
            let line = trim(raw);
            if line.len() == 0 || starts_with(line, seq!['%', '%']) {
                assert(s2.edges + line_edges(raw) =~= s2.edges);
            } else {
                match edge_chain(line) {
                    ChainOutcome::Edges(es) => lemma_add_edges_order(s2, es),
                    ChainOutcome::NotChain => {
                        lemma_ensure_node_ids(s2.nodes, node_ref(line));
                        lemma_add_new_ids_two(node_ids(s2.nodes), node_ref(line).id, node_ref(line).id);
                        assert(s2.edges + line_edges(raw) =~= s2.edges);
                    },
                }
            }
        }
    }
}

/// A parsed flowchart keeps the order of its source: the nodes come in the
/// order in which their ids are first mentioned (as a node of its own or an
/// end of an edge), and the edges in the order the body lines state them,
/// each chain left to right.
pub proof fn law_flowchart_source_order(input: Seq<char>)
    ensures
        parse_flowchart(input) matches Ok(fc) ==> node_ids(fc.nodes) == add_new_ids(
            Seq::empty(),
            lines_mentions(lines(input).skip(1)),
        ) && fc.edges == lines_edges(lines(input).skip(1)),
{
    if lines(input).len() > 0 {
        lemma_add_lines_order(empty_state(), lines(input).skip(1));
        assert(node_ids(empty_state().nodes) =~= Seq::<Seq<char>>::empty());
        assert(Seq::<EdgeModel>::empty() + lines_edges(lines(input).skip(1)) =~= lines_edges(lines(input).skip(1)));
    }
}

// ---------------------------------------------------------------------------
// Executable parser
// ---------------------------------------------------------------------------

fn dotted_arrow_chars() -> (v: Vec<char>)
    ensures
        v@ == dotted_arrow(),
{
    vec!['-', '.', '-', '>']
}

fn thick_arrow_chars() -> (v: Vec<char>)
    ensures
        v@ == thick_arrow(),
{
    vec!['=', '=', '>']
}

fn solid_arrow_chars() -> (v: Vec<char>)
    ensures
        v@ == solid_arrow(),
{
    vec!['-', '-', '>']
}

/// An arrow found in a line: where it starts, where it ends (past its label).
struct ArrowFound<'a> {
    pos: usize,
    end: usize,
    style: EdgeStyle,
    label: Option<&'a [char]>,
}

spec fn opt_slice(o: Option<&[char]>) -> Option<Seq<char>> {
    match o {
        Some(s) => Some(s@),
        None => None,
    }
}

spec fn found_matches(f: ArrowFound, a: ArrowMatch) -> bool {
    f.pos == a.pos && f.end == a.end && f.style == a.style && opt_slice(f.label) == a.label
}

spec fn label_view(r: Option<(&[char], usize)>) -> Option<(Seq<char>, int)> {
    match r {
        Some((l, e)) => Some((l@, e as int)),
        None => None,
    }
}

/// Extracts `|label|` immediately after an arrow: the trimmed text between
/// the pipes and the index just past the closing pipe.
fn extract_arrow_label(s: &[char], after_arrow: usize) -> (r: Option<(&[char], usize)>)
    ensures
        label_view(r) == arrow_label(s@, after_arrow as int),
{
    if after_arrow > s.len() {
        return None;
    }
    let rest = trim_start_slice(&s[after_arrow..s.len()]);
    proof {
        assert(s@.subrange(after_arrow as int, s@.len() as int) =~= s@.skip(after_arrow as int));
        lemma_trim_start_nonempty_first(s@.skip(after_arrow as int));
    }
    if rest.len() > 0 && rest[0] == '|' {
        let inner = &rest[1..rest.len()];
        proof {
            assert(inner@ == rest@.skip(1));
        }
        match find_char_exec(inner, '|') {
            Some(end) => {
                proof {
                    lemma_find_char_from_bounds(inner@, '|', 0);
                }
                let label = trim_slice(&inner[0..end]);
                proof {
                    assert(inner@.subrange(0, end as int) =~= inner@.take(end as int));
                }
                Some((label, s.len() - rest.len() + end + 2))
            },
            None => None,
        }
    } else {
        None
    }
}

fn arrow_found_at<'a>(s: &'a [char], pos: usize, arrow_len: usize, style: EdgeStyle) -> (f: ArrowFound<'a>)
    requires
        pos + arrow_len <= s@.len(),
        arrow_len == 3 || arrow_len == 4,
    ensures
        found_matches(f, arrow_at(s@, pos as int, arrow_len as int, style)),
{
    let _ = s.len();
    match extract_arrow_label(s, pos + arrow_len) {
        Some((label, end)) => ArrowFound { pos, end, style, label: Some(label) },
        None => ArrowFound { pos, end: pos + arrow_len, style, label: None },
    }
}

/// Whether a position found at `a` comes before one found at `b`.
fn found_before_exec(a: Option<usize>, b: Option<usize>) -> (r: bool)
    ensures
        r == found_before(opt_int(a), opt_int(b)),
{
    match (a, b) {
        (Some(x), Some(y)) => x < y,
        (Some(_), None) => true,
        _ => false,
    }
}

spec fn opt_int(o: Option<usize>) -> Option<int> {
    match o {
        Some(x) => Some(x as int),
        None => None,
    }
}

/// Finds the next arrow operator in the string: the leftmost one.
fn find_next_arrow(s: &[char]) -> (r: Option<ArrowFound>)
    ensures
        r matches Some(f) ==> next_arrow(s@) matches Some(a) && found_matches(f, a),
        r is None ==> next_arrow(s@) is None,
{
    proof {
        lemma_find_str_from_bounds(s@, dotted_arrow(), 0);
        lemma_find_str_from_bounds(s@, thick_arrow(), 0);
        lemma_find_str_from_bounds(s@, solid_arrow(), 0);
    }
    let dotted = dotted_arrow_chars();
    let thick = thick_arrow_chars();
    let solid = solid_arrow_chars();
    let d = find_str_exec(s, dotted.as_slice());
    let t = find_str_exec(s, thick.as_slice());
    let o = find_str_exec(s, solid.as_slice());
    proof {
        assert(opt_int(d) == find_str(s@, dotted_arrow()));
        assert(opt_int(t) == find_str(s@, thick_arrow()));
        assert(opt_int(o) == find_str(s@, solid_arrow()));
    }
    if d.is_some() && !found_before_exec(t, d) && !found_before_exec(o, d) {
        let pos = d.unwrap();
        return Some(arrow_found_at(s, pos, 4, EdgeStyle::Dotted));
    }
    if t.is_some() && !found_before_exec(o, t) {
        let pos = t.unwrap();
        return Some(arrow_found_at(s, pos, 3, EdgeStyle::Thick));
    }
    match o {
        Some(pos) => Some(arrow_found_at(s, pos, 3, EdgeStyle::Solid)),
        None => None,
    }
}

/// One edge of a chain, as slices of the line.
struct RawEdgeExec<'a> {
    from: &'a [char],
    to: &'a [char],
    label: Option<&'a [char]>,
    style: EdgeStyle,
}

spec fn raw_view(e: RawEdgeExec) -> RawEdge {
    RawEdge { from: e.from@, to: e.to@, label: opt_slice(e.label), style: e.style }
}

spec fn raw_views(v: Seq<RawEdgeExec>) -> Seq<RawEdge> {
    v.map_values(|e: RawEdgeExec| raw_view(e))
}

/// What reading a line as a chain of edges found.
enum ChainFound<'a> {
    Edges(Vec<RawEdgeExec<'a>>),
    NotChain,
}

/// Tries to parse a line as a chain of edges: `A --> B --> C`.
fn try_parse_edge_chain<'a>(line: &'a [char]) -> (r: ChainFound<'a>)
    ensures
        edge_chain(line@) matches ChainOutcome::Edges(es) ==> r matches ChainFound::Edges(v)
            && raw_views(v@) == es,
        edge_chain(line@) is NotChain ==> r is NotChain,
{
    if find_next_arrow(line).is_none() {
        return ChainFound::NotChain;
    }
    let mut results: Vec<RawEdgeExec<'a>> = Vec::new();
    let mut start: usize = 0;
    proof {
        assert(line@.skip(0) =~= line@);
        assert(raw_views(results@) + Seq::<RawEdge>::empty() =~= Seq::<RawEdge>::empty());
    }
    loop
        invariant
            start <= line@.len(),
            prepend_edges(raw_views(results@), chain_from(line@.skip(start as int))) == chain_from(
                line@,
            ),
            next_arrow(line@) is Some,
        ensures
            chain_from(line@) == ChainOutcome::Edges(raw_views(results@)),
        decreases line@.len() - start,
    {
        let remaining = &line[start..line.len()];
        proof {
            assert(remaining@ =~= line@.skip(start as int));
        }
        match find_next_arrow(remaining) {
            None => {
                proof {
                    assert(raw_views(results@) + Seq::<RawEdge>::empty() =~= raw_views(results@));
                }
                break;
            },
            Some(a) => {
                proof {
                    lemma_next_arrow_bounds(remaining@);
                }
                let k = a.end;
                let from_raw = trim_slice(&remaining[0..a.pos]);
                let rest = &remaining[k..remaining.len()];
                proof {
                    assert(remaining@.subrange(0, a.pos as int) =~= remaining@.take(a.pos as int));
                    assert(rest@ =~= remaining@.skip(k as int));
                    assert(rest@ =~= line@.skip(start + k));
                }
                let to_raw = match find_next_arrow(rest) {
                    Some(b) => {
                        proof {
                            lemma_next_arrow_bounds(rest@);
                            assert(rest@.subrange(0, b.pos as int) =~= rest@.take(b.pos as int));
                        }
                        trim_slice(&rest[0..b.pos])
                    },
                    None => trim_end_matches_slice(trim_slice(rest), ';'),
                };
                if from_raw.len() == 0 || to_raw.len() == 0 {
                    return ChainFound::NotChain;
                }
                let ghost prev = raw_views(results@);
                let e = RawEdgeExec { from: from_raw, to: to_raw, label: a.label, style: a.style };
                results.push(e);
                proof {
                    assert(raw_views(results@) =~= prev.push(raw_view(e)));
                    let tail = chain_from(rest@);
                    if let ChainOutcome::Edges(es) = tail {
                        assert(prev.push(raw_view(e)) + es =~= prev + (seq![raw_view(e)] + es));
                    }
                }
                start = start + k;
            },
        }
    }
    if results.len() == 0 {
        ChainFound::NotChain
    } else {
        ChainFound::Edges(results)
    }
}

/// Extracts the text between the delimiter at `open_pos` and the last `close`.
fn extract_between(s: &[char], open_pos: usize, close: char) -> (r: String)
    requires
        open_pos < s@.len(),
    ensures
        r@ == between(s@, open_pos as int, close),
{
    let n = s.len();
    let after = &s[open_pos + 1..n];
    proof {
        assert(after@ =~= s@.skip(open_pos + 1));
        lemma_rfind_char_below_bounds(after@, close, after@.len() as int);
    }
    match rfind_char_exec(after, close) {
        Some(close_pos) => {
            proof {
                assert(after@.subrange(0, close_pos as int) =~= after@.take(close_pos as int));
            }
            string_from(trim_slice(&after[0..close_pos]))
        },
        None => string_from(trim_slice(after)),
    }
}

/// Parses a node reference like `A`, `A[Label]`, `A{Decision}`, `A(Rounded)`.
fn parse_node_ref(s: &[char]) -> (n: Node)
    ensures
        n@ == node_ref(s@),
{
    let t = trim_end_matches_slice(trim_slice(s), ';');
    proof {
        lemma_find_char_from_bounds(t@, '[', 0);
        lemma_find_char_from_bounds(t@, '{', 0);
        lemma_find_char_from_bounds(t@, '(', 0);
    }
    if let Some(pos) = find_char_exec(t, '[') {
        proof {
            assert(t@.subrange(0, pos as int) =~= t@.take(pos as int));
        }
        let id = string_from(trim_slice(&t[0..pos]));
        let label = extract_between(t, pos, ']');
        return Node { id, label, shape: NodeShape::Rectangle };
    }
    if let Some(pos) = find_char_exec(t, '{') {
        proof {
            assert(t@.subrange(0, pos as int) =~= t@.take(pos as int));
        }
        let id = string_from(trim_slice(&t[0..pos]));
        let label = extract_between(t, pos, '}');
        return Node { id, label, shape: NodeShape::Diamond };
    }
    if let Some(pos) = find_char_exec(t, '(') {
        proof {
            assert(t@.subrange(0, pos as int) =~= t@.take(pos as int));
        }
        let id = string_from(trim_slice(&t[0..pos]));
        let label = extract_between(t, pos, ')');
        return Node { id, label, shape: NodeShape::RoundedRect };
    }
    let id = trim_slice(t);
    Node { id: string_from(id), label: string_from(id), shape: NodeShape::Rectangle }
}

/// Ensures a node exists in the list. If it already exists, updates its label
/// and shape where the new definition gives an explicit label.
fn ensure_node(nodes: &mut Vec<Node>, new: &Node)
    ensures
        node_models(final(nodes)@) == ensure_node_spec(node_models(old(nodes)@), new@),
{
    let ghost models = node_models(nodes@);
    let mut i: usize = 0;
    while i < nodes.len()
        invariant
            0 <= i <= nodes@.len(),
            nodes@ == old(nodes)@,
            models == node_models(nodes@),
            node_index_from(models, new@.id, i as int) == node_index(models, new@.id),
        decreases nodes.len() - i,
    {
        if nodes[i].id == new.id {
            if !(new.label == new.id) {
                let updated = Node {
                    id: nodes[i].id.clone(),
                    label: new.label.clone(),
                    shape: new.shape,
                };
                nodes.set(i, updated);
                proof {
                    assert(node_models(nodes@) =~= models.update(
                        i as int,
                        NodeModel { id: models[i as int].id, label: new@.label, shape: new.shape },
                    ));
                }
            }
            return;
        }
        i = i + 1;
    }
    let copy = Node { id: new.id.clone(), label: new.label.clone(), shape: new.shape };
    nodes.push(copy);
    proof {
        assert(node_models(nodes@) =~= models.push(new@));
    }
}

fn parse_error(msg: &str) -> (e: RenderError)
    ensures
        e@ == ErrorModel::ParseError(msg@),
{
    RenderError::ParseError(msg.to_owned())
}

spec fn direction_matches(r: Result<Direction, RenderError>, d: Result<Direction, Seq<char>>) -> bool {
    match (r, d) {
        (Ok(a), Ok(b)) => a == b,
        (Err(e), Err(m)) => e@ == ErrorModel::ParseError(m),
        _ => false,
    }
}

/// Reads the direction from a header line such as `graph TD`.
fn parse_direction(header: &[char]) -> (r: Result<Direction, RenderError>)
    ensures
        direction_matches(r, direction_of(header@)),
{
    let parts = words_exec(header);
    if parts.len() < 2 {
        return Err(parse_error("expected direction after graph/flowchart keyword"));
    }
    let p = parts[1].as_slice();
    let td = vec!['T', 'D'];
    let tb = vec!['T', 'B'];
    let bt = vec!['B', 'T'];
    let lr = vec!['L', 'R'];
    let rl = vec!['R', 'L'];
    if chars_eq(p, td.as_slice()) || chars_eq(p, tb.as_slice()) {
        Ok(Direction::TopDown)
    } else if chars_eq(p, bt.as_slice()) {
        Ok(Direction::BottomUp)
    } else if chars_eq(p, lr.as_slice()) {
        Ok(Direction::LeftRight)
    } else if chars_eq(p, rl.as_slice()) {
        Ok(Direction::RightLeft)
    } else {
        let mut msg = "unknown direction: ".to_owned();
        push_chars(&mut msg, p);
        Err(RenderError::ParseError(msg))
    }
}

/// Parses a flowchart from the chars of mermaid source.
pub(crate) fn parse_slice(input: &[char]) -> (r: Result<Flowchart, RenderError>)
    ensures
        result_view(r) == parse_flowchart(input@),
{
    let chars = input;
    let ls = lines_exec(chars);
    let ghost lsv = lines(input@);
    if ls.len() == 0 {
        return Err(parse_error("empty input"));
    }
    let header = trim_slice(ls[0].as_slice());
    let direction = match parse_direction(header) {
        Ok(d) => d,
        Err(e) => return Err(e),
    };
    let mut nodes: Vec<Node> = Vec::new();
    let mut edges: Vec<Edge> = Vec::new();
    let mut i: usize = 1;
    proof {
        assert(lsv.subrange(1, 1) =~= Seq::<Seq<char>>::empty());
        assert(node_models(nodes@) =~= Seq::<NodeModel>::empty());
        assert(edge_models(edges@) =~= Seq::<EdgeModel>::empty());
    }
    while i < ls.len()
        invariant
            1 <= i <= ls@.len(),
            ls@.len() == lsv.len(),
            lsv == lines(input@),
            lsv.len() > 0,
            direction_of(trim(lsv[0])) == Ok::<Direction, Seq<char>>(direction),
            forall|j: int| 0 <= j < ls@.len() ==> #[trigger] ls@[j]@ == lsv[j],
            add_lines(empty_state(), lsv.subrange(1, i as int)) == (FlowState {
                nodes: node_models(nodes@),
                edges: edge_models(edges@),
            }),
        decreases ls.len() - i,
    {
        let ghost st = FlowState { nodes: node_models(nodes@), edges: edge_models(edges@) };
        proof {
            assert(lsv.subrange(1, i + 1).drop_last() =~= lsv.subrange(1, i as int));
            assert(lsv.skip(1).take(i as int) =~= lsv.subrange(1, i + 1));
        }
        let line = trim_slice(ls[i].as_slice());
        let pct = vec!['%', '%'];
        if line.len() == 0 || starts_with_exec(line, pct.as_slice()) {
            i = i + 1;
            continue;
        }
        match try_parse_edge_chain(line) {
            ChainFound::Edges(parsed_edges) => {
                let ghost es = raw_views(parsed_edges@);
                let mut j: usize = 0;
                proof {
                    assert(es.take(0) =~= Seq::<RawEdge>::empty());
                }
                while j < parsed_edges.len()
                    invariant
                        0 <= j <= parsed_edges@.len(),
                        es == raw_views(parsed_edges@),
                        add_edges(st, es.take(j as int)) == (FlowState {
                            nodes: node_models(nodes@),
                            edges: edge_models(edges@),
                        }),
                    decreases parsed_edges.len() - j,
                {
                    let pe = &parsed_edges[j];
                    let from_node = parse_node_ref(pe.from);
                    let to_node = parse_node_ref(pe.to);
                    ensure_node(&mut nodes, &from_node);
                    ensure_node(&mut nodes, &to_node);
                    let label: Option<String> = match pe.label {
                        Some(l) => Some(string_from(l)),
                        None => None,
                    };
                    let ghost prev_edges = edge_models(edges@);
                    let edge = Edge { from: from_node.id, to: to_node.id, label, style: pe.style };
                    edges.push(edge);
                    proof {
                        assert(edge_models(edges@) =~= prev_edges.push(edge@));
                        assert(es.take(j + 1).drop_last() =~= es.take(j as int));
                    }
                    j = j + 1;
                }
                proof {
                    assert(es.take(j as int) =~= es);
                }
            },
            ChainFound::NotChain => {
                let node = parse_node_ref(line);
                ensure_node(&mut nodes, &node);
            },
        }
        i = i + 1;
    }
    proof {
        assert(lsv.subrange(1, i as int) =~= lsv.skip(1));
    }
    Ok(Flowchart { direction, nodes, edges })
}

/// Parses a flowchart from mermaid source.
///
/// Expects input starting with `graph` or `flowchart` followed by a direction.
pub fn parse(input: &str) -> (r: Result<Flowchart, RenderError>)
    ensures
        result_view(r) == parse_flowchart(input@),
{
    let chars = chars_of(input);
    parse_slice(chars.as_slice())
}

} // verus!
