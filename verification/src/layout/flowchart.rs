//! Linear layout of flowcharts.
use vstd::prelude::*;

use super::{insert_entry, lemma_lookup_insert, lookup, Position, PositionMap};
use crate::parser::common::Direction;
use crate::parser::flowchart::{has_node, ids_distinct, node_models, Flowchart, FlowchartModel, NodeModel};
use crate::text::{chars_of, utf8_len, utf8_length, utf8_length_wide};
use crate::RenderOptions;

verus! {

/// Result of laying out a flowchart — positions for each node by ID.
pub type FlowchartLayout = PositionMap;

pub open spec fn max_int(a: int, b: int) -> int {
    if a >= b {
        a
    } else {
        b
    }
}

/// The width of a node's box: its label's bytes and four columns of
/// padding, at least fourteen columns.
pub open spec fn node_width(n: NodeModel) -> int {
    max_int(utf8_len(n.label) + 4int, 14int)
}

/// The left edge of node `i` in a horizontal layout: a margin of two, then
/// each earlier node's width and a gap of eight.
pub open spec fn x_offset(nodes: Seq<NodeModel>, i: int) -> int
    decreases i,
{
    if i <= 0 {
        2
    } else {
        x_offset(nodes, i - 1) + node_width(nodes[i - 1]) + 8
    }
}

/// The widest of the first `n` nodes (fourteen where there is none).
pub open spec fn widest(nodes: Seq<NodeModel>, n: int) -> int
    decreases n,
{
    if n <= 0 {
        14
    } else {
        max_int(widest(nodes, n - 1), node_width(nodes[n - 1]))
    }
}

pub open spec fn horizontal(d: Direction) -> bool {
    d == Direction::LeftRight || d == Direction::RightLeft
}

/// Where node `i` goes: LR/RL stack nodes left to right on row 2; TD/BT
/// stack them top to bottom every six rows, centred on the widest node.
pub open spec fn flow_node_position(fc: FlowchartModel, i: int) -> Position {
    let w = node_width(fc.nodes[i]);
    if horizontal(fc.direction) {
        Position { x: x_offset(fc.nodes, i) as usize, y: 2, width: w as usize, height: 3 }
    } else {
        Position {
            x: (2 + (widest(fc.nodes, fc.nodes.len() as int) - w) / 2) as usize,
            y: (6 * i) as usize,
            width: w as usize,
            height: 3,
        }
    }
}

/// The positions of the first `n` nodes, each recorded under its id in turn.
pub open spec fn flow_layout_upto(fc: FlowchartModel, n: int) -> Seq<(Seq<char>, Position)>
    decreases n,
{
    if n <= 0 {
        Seq::empty()
    } else {
        insert_entry(flow_layout_upto(fc, n - 1), fc.nodes[n - 1].id, flow_node_position(fc, n - 1))
    }
}

/// The layout of a flowchart.
pub open spec fn flow_layout(fc: FlowchartModel) -> Seq<(Seq<char>, Position)> {
    flow_layout_upto(fc, fc.nodes.len() as int)
}

/// The layout's arithmetic stays within `usize`.
pub open spec fn flow_layout_fits(fc: FlowchartModel) -> bool {
    &&& forall|i: int| 0 <= i < fc.nodes.len() ==> utf8_len(#[trigger] fc.nodes[i].label) + 4 <= usize::MAX
    &&& horizontal(fc.direction) ==> x_offset(fc.nodes, fc.nodes.len() as int) <= usize::MAX
    &&& !horizontal(fc.direction) ==> fc.nodes.len() == 0 || 6 * (fc.nodes.len() - 1) <= usize::MAX
}

pub proof fn lemma_x_offset_monotonic(nodes: Seq<NodeModel>, i: int, j: int)
    requires
        0 <= i <= j,
    ensures
        x_offset(nodes, i) <= x_offset(nodes, j),
        x_offset(nodes, j) >= 2,
    decreases j,
{
    if j > i {
        lemma_x_offset_monotonic(nodes, i, j - 1);
    } else if j > 0 {
        lemma_x_offset_monotonic(nodes, 0, j - 1);
    }
}

pub proof fn lemma_widest_bounds(nodes: Seq<NodeModel>, n: int, i: int)
    requires
        0 <= i < n <= nodes.len(),
    ensures
        widest(nodes, n) >= node_width(nodes[i]),
        widest(nodes, n) >= 14,
    decreases n,
{
    if i < n - 1 {
        lemma_widest_bounds(nodes, n - 1, i);
    }
    lemma_widest_at_least(nodes, n);
}

pub proof fn lemma_widest_at_least(nodes: Seq<NodeModel>, n: int)
    ensures
        widest(nodes, n) >= 14,
    decreases n,
{
    if n > 0 {
        lemma_widest_at_least(nodes, n - 1);
    }
}

proof fn lemma_layout_upto_lookup(fc: FlowchartModel, n: int, i: int)
    requires
        ids_distinct(fc.nodes),
        0 <= i < n <= fc.nodes.len(),
    ensures
        lookup(flow_layout_upto(fc, n), fc.nodes[i].id) == Some(flow_node_position(fc, i)),
    decreases n,
{
    let prev = flow_layout_upto(fc, n - 1);
    lemma_lookup_insert(prev, fc.nodes[n - 1].id, flow_node_position(fc, n - 1), fc.nodes[i].id);
    if i < n - 1 {
        lemma_layout_upto_lookup(fc, n - 1, i);
    }
}

proof fn lemma_layout_upto_keys(fc: FlowchartModel, n: int, id: Seq<char>)
    requires
        0 <= n <= fc.nodes.len(),
    ensures
        lookup(flow_layout_upto(fc, n), id) is Some ==> has_node(fc.nodes, id),
    decreases n,
{
    if n > 0 {
        let prev = flow_layout_upto(fc, n - 1);
        lemma_lookup_insert(prev, fc.nodes[n - 1].id, flow_node_position(fc, n - 1), id);
        lemma_layout_upto_keys(fc, n - 1, id);
        if id == fc.nodes[n - 1].id {
            assert(fc.nodes[n - 1].id == id);
        }
    }
}

/// Every node of a flowchart with distinct ids (as parsing gives, see
/// `law_flowchart_graph_consistent`) is placed where `flow_node_position`
/// puts it, and nothing else is placed.
pub proof fn law_flowchart_layout_places_nodes(fc: FlowchartModel, id: Seq<char>)
    requires
        ids_distinct(fc.nodes),
    ensures
        forall|i: int|
            0 <= i < fc.nodes.len() ==> lookup(flow_layout(fc), #[trigger] fc.nodes[i].id) == Some(
                flow_node_position(fc, i),
            ),
        lookup(flow_layout(fc), id) is Some <==> has_node(fc.nodes, id),
{
    assert forall|i: int| 0 <= i < fc.nodes.len() implies lookup(flow_layout(fc), #[trigger] fc.nodes[i].id) == Some(
        flow_node_position(fc, i),
    ) by {
        lemma_layout_upto_lookup(fc, fc.nodes.len() as int, i);
    }
    lemma_layout_upto_keys(fc, fc.nodes.len() as int, id);
    if has_node(fc.nodes, id) {
        let i = choose|i: int| 0 <= i < fc.nodes.len() && #[trigger] fc.nodes[i].id == id;
        lemma_layout_upto_lookup(fc, fc.nodes.len() as int, i);
    }
}

/// Boxes never overlap. Left to right, a later node stands on the same row
/// at least eight columns right of an earlier one; top to bottom, it stands
/// six rows lower per step, three rows below the earlier box's bottom; every
/// box is three rows tall and at least fourteen columns wide.
pub proof fn law_flowchart_layout_disjoint(fc: FlowchartModel, i: int, j: int)
    requires
        flow_layout_fits(fc),
        0 <= i < j < fc.nodes.len(),
    ensures
        ({
            let a = flow_node_position(fc, i);
            let b = flow_node_position(fc, j);
            &&& a.height == 3 && b.height == 3
            &&& a.width >= 14 && b.width >= 14
            &&& horizontal(fc.direction) ==> a.y == b.y && a.x + a.width + 8 <= b.x
            &&& !horizontal(fc.direction) ==> b.y == a.y + 6 * (j - i) && a.y + a.height + 3 <= b.y
        }),
{
    assert(utf8_len(fc.nodes[i].label) + 4 <= usize::MAX);
    assert(utf8_len(fc.nodes[j].label) + 4 <= usize::MAX);
    if horizontal(fc.direction) {
        lemma_x_offset_monotonic(fc.nodes, j, fc.nodes.len() as int);
        lemma_x_offset_monotonic(fc.nodes, i + 1, j);
        lemma_x_offset_monotonic(fc.nodes, i, i + 1);
        lemma_x_offset_monotonic(fc.nodes, 0, i);
        assert(x_offset(fc.nodes, i + 1) == x_offset(fc.nodes, i) + node_width(fc.nodes[i]) + 8);
    } else {
        assert(6 * i <= 6 * (fc.nodes.len() - 1) && 6 * j <= 6 * (fc.nodes.len() - 1)) by (nonlinear_arith)
            requires
                0 <= i < j < fc.nodes.len(),
        ;
        lemma_widest_bounds(fc.nodes, fc.nodes.len() as int, i);
        lemma_widest_bounds(fc.nodes, fc.nodes.len() as int, j);
    }
}

proof fn lemma_widest_at_most(nodes: Seq<NodeModel>, n: int, b: int)
    requires
        0 <= n <= nodes.len(),
        14 <= b,
        forall|i: int| 0 <= i < n ==> node_width(#[trigger] nodes[i]) <= b,
    ensures
        widest(nodes, n) <= b,
    decreases n,
{
    if n > 0 {
        lemma_widest_at_most(nodes, n - 1, b);
        assert(node_width(nodes[n - 1]) <= b);
    }
}

/// Top to bottom, every box is centred on the column halfway across the
/// widest box: twice its left edge plus its width is the widest width plus
/// four, or plus three where the two widths differ in parity.
pub proof fn law_flowchart_layout_centred(fc: FlowchartModel, i: int)
    requires
        flow_layout_fits(fc),
        !horizontal(fc.direction),
        0 <= i < fc.nodes.len(),
    ensures
        widest(fc.nodes, fc.nodes.len() as int) + 3 <= 2 * flow_node_position(fc, i).x + flow_node_position(
            fc,
            i,
        ).width <= widest(fc.nodes, fc.nodes.len() as int) + 4,
{
    let n = fc.nodes.len() as int;
    assert forall|k: int| 0 <= k < n implies node_width(#[trigger] fc.nodes[k]) <= usize::MAX by {
        assert(utf8_len(fc.nodes[k].label) + 4 <= usize::MAX);
    }
    lemma_widest_at_most(fc.nodes, n, usize::MAX as int);
    lemma_widest_bounds(fc.nodes, n, i);
    assert(6 * i <= 6 * (n - 1)) by (nonlinear_arith)
        requires
            0 <= i < n,
    ;
}

/// The width of the box for a label.
fn node_width_exec(label: &String) -> (w: usize)
    requires
        utf8_len(label@) + 4 <= usize::MAX,
    ensures
        w == max_int(utf8_len(label@) + 4int, 14int),
{
    let cs = chars_of(label.as_str());
    let n = utf8_length(cs.as_slice()) + 4;
    if n > 14 {
        n
    } else {
        14
    }
}

/// Lays out a flowchart based on its direction.
///
/// TD/BT: nodes stacked vertically, centered horizontally.
/// LR/RL: nodes stacked horizontally, aligned vertically.
pub fn layout(flowchart: &Flowchart, _opts: &RenderOptions) -> (positions: FlowchartLayout)
    requires
        flow_layout_fits(flowchart@),
    ensures
        positions@ == flow_layout(flowchart@),
{
    let ghost fc = flowchart@;
    let mut positions = PositionMap::new();
    let node_height: usize = 3;
    let min_node_width: usize = 14;
    let margin: usize = 2;
    let n = flowchart.nodes.len();
    let mut widths: Vec<usize> = Vec::new();
    let mut k: usize = 0;
    while k < n
        invariant
            0 <= k <= n,
            n == fc.nodes.len(),
            fc == flowchart@,
            flow_layout_fits(fc),
            widths@.len() == k,
            forall|m: int| 0 <= m < k ==> widths@[m] == node_width(#[trigger] fc.nodes[m]),
        decreases n - k,
    {
        proof {
            assert(fc.nodes[k as int] == flowchart.nodes@[k as int]@);
            assert(utf8_len(fc.nodes[k as int].label) + 4 <= usize::MAX);
        }
        let w = node_width_exec(&flowchart.nodes[k].label);
        widths.push(w);
        k = k + 1;
    }
    let is_horizontal = match flowchart.direction {
        Direction::LeftRight | Direction::RightLeft => true,
        _ => false,
    };
    if is_horizontal {
        let gap: usize = 8;
        let mut current_x: usize = margin;
        let mut i: usize = 0;
        while i < n
            invariant
                0 <= i <= n,
                n == fc.nodes.len(),
                fc == flowchart@,
                horizontal(fc.direction),
                flow_layout_fits(fc),
                widths@.len() == n,
                forall|m: int| 0 <= m < n ==> widths@[m] == node_width(#[trigger] fc.nodes[m]),
                current_x == x_offset(fc.nodes, i as int),
                gap == 8,
                margin == 2,
                node_height == 3,
                positions@ == flow_layout_upto(fc, i as int),
            decreases n - i,
        {
            let width = widths[i];
            proof {
                lemma_x_offset_monotonic(fc.nodes, i + 1, n as int);
                assert(fc.nodes[i as int] == flowchart.nodes@[i as int]@);
                assert(width == node_width(fc.nodes[i as int]));
                assert(x_offset(fc.nodes, i + 1) == x_offset(fc.nodes, i as int) + node_width(
                    fc.nodes[i as int],
                ) + 8);
            }
            positions.insert(
                flowchart.nodes[i].id.clone(),
                Position { x: current_x, y: margin, width, height: node_height },
            );
            current_x = current_x + width + gap;
            i = i + 1;
        }
    } else {
        let gap: usize = 3;
        let stride = node_height + gap;
        let mut max_width: usize = min_node_width;
        let mut k: usize = 0;
        while k < n
            invariant
                0 <= k <= n,
                n == fc.nodes.len(),
                widths@.len() == n,
                forall|m: int| 0 <= m < n ==> widths@[m] == node_width(#[trigger] fc.nodes[m]),
                max_width == widest(fc.nodes, k as int),
            decreases n - k,
        {
            if widths[k] > max_width {
                max_width = widths[k];
            }
            k = k + 1;
        }
        let mut i: usize = 0;
        while i < n
            invariant
                0 <= i <= n,
                n == fc.nodes.len(),
                fc == flowchart@,
                !horizontal(fc.direction),
                flow_layout_fits(fc),
                stride == 6,
                margin == 2,
                node_height == 3,
                widths@.len() == n,
                forall|m: int| 0 <= m < n ==> widths@[m] == node_width(#[trigger] fc.nodes[m]),
                max_width == widest(fc.nodes, n as int),
                positions@ == flow_layout_upto(fc, i as int),
            decreases n - i,
        {
            let width = widths[i];
            proof {
                lemma_widest_bounds(fc.nodes, n as int, i as int);
                assert(fc.nodes[i as int] == flowchart.nodes@[i as int]@);
                assert(width == node_width(fc.nodes[i as int]));
                assert(i * 6 <= 6 * (n - 1)) by (nonlinear_arith)
                    requires
                        i < n,
                ;
            }
            let x = margin + (max_width - width) / 2;
            let pos = Position { x, y: i * stride, width, height: node_height };
            proof {
                assert(flow_node_position(fc, i as int) == pos);
            }
            positions.insert(flowchart.nodes[i].id.clone(), pos);
            i = i + 1;
        }
    }
    positions
}

/// Whether `layout` can lay out the flowchart without overflowing `usize`.
pub fn layout_fits(flowchart: &Flowchart) -> (b: bool)
    ensures
        b == flow_layout_fits(flowchart@),
{
    let ghost fc = flowchart@;
    let n = flowchart.nodes.len();
    let max = usize::MAX as u128;
    let is_horiz = match flowchart.direction {
        Direction::LeftRight | Direction::RightLeft => true,
        _ => false,
    };
    let mut acc: u128 = 2;
    let mut i: usize = 0;
    while i < n
        invariant
            0 <= i <= n,
            n == fc.nodes.len(),
            fc == flowchart@,
            max == usize::MAX,
            is_horiz == horizontal(fc.direction),
            forall|k: int| 0 <= k < i ==> utf8_len(#[trigger] fc.nodes[k].label) + 4 <= usize::MAX,
            is_horiz ==> acc == x_offset(fc.nodes, i as int) && acc <= max,
        decreases n - i,
    {
        proof {
            assert(fc.nodes[i as int] == flowchart.nodes@[i as int]@);
        }
        let cs = chars_of(flowchart.nodes[i].label.as_str());
        let len = utf8_length_wide(cs.as_slice());
        if len + 4 > max {
            proof {
                assert(!(utf8_len(fc.nodes[i as int].label) + 4 <= usize::MAX));
            }
            return false;
        }
        if is_horiz {
            let w = if len + 4 > 14 {
                len + 4
            } else {
                14
            };
            acc = acc + w + 8;
            if acc > max {
                proof {
                    lemma_x_offset_monotonic(fc.nodes, i + 1, n as int);
                }
                return false;
            }
        }
        i = i + 1;
    }
    if is_horiz {
        true
    } else {
        n == 0 || 6 * (n as u128 - 1) <= max
    }
}

} // verus!
