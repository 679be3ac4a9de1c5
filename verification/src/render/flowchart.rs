//! Drawing a laid-out flowchart: a box per node, a straight arrow per edge.
use vstd::prelude::*;

use super::canvas::{
    all_cells, blank, box_chars, draw_box_spec, hline, lemma_draw_box_keeps, lemma_hline_keeps,
    lemma_hline_shape, lemma_put_keeps, lemma_put_shape, lemma_put_str_keeps, lemma_put_str_shape,
    lemma_vline_keeps, lemma_vline_shape, model_wf, put, put_str, run_fits, same_shape, vline, Canvas,
    CanvasModel, law_put_str_cells, law_put_then_read, law_vline_cells,
};
use crate::layout::flowchart::{horizontal, max_int};
use crate::layout::{key_index, lemma_key_index_from, lookup, Position, PositionMap};
use crate::parser::common::{Direction, EdgeStyle};
use crate::parser::flowchart::{opt_chars, EdgeModel, Flowchart, FlowchartModel, NodeModel};
use crate::text::{chars_all, chars_of, opt_chars_all, utf8_len, utf8_length, utf8_length_wide};
use crate::RenderOptions;

verus! {

/// The largest right edge plus two and bottom edge plus two over the first
/// `n` entries (zero where there is none).
pub open spec fn extent(es: Seq<(Seq<char>, Position)>, n: int) -> (int, int)
    decreases n,
{
    if n <= 0 {
        (0, 0)
    } else {
        let (mx, my) = extent(es, n - 1);
        let p = es[n - 1].1;
        (max_int(mx, p.x + p.width + 2), max_int(my, p.y + p.height + 2))
    }
}

pub open spec fn min_int(a: int, b: int) -> int {
    if a <= b {
        a
    } else {
        b
    }
}

/// `a - b`, or zero where `b` is larger.
pub open spec fn sat_sub(a: int, b: int) -> int {
    if a >= b {
        a - b
    } else {
        0
    }
}

/// The vertical and horizontal line chars.
pub open spec fn line_chars(ascii: bool) -> (char, char) {
    if ascii {
        ('|', '-')
    } else {
        ('\u{2502}', '\u{2500}')
    }
}

/// The column where a label is centred in a box.
pub open spec fn label_x(pos: Position, label: Seq<char>) -> int {
    pos.x + sat_sub(pos.width as int, utf8_len(label) as int) / 2
}

/// A node's box with its label centred inside.
pub open spec fn draw_node_spec(c: CanvasModel, pos: Position, label: Seq<char>, ascii: bool) -> CanvasModel {
    let c1 = draw_box_spec(c, pos.x as int, pos.y as int, pos.width as int, pos.height as int, ascii);
    put_str(c1, label_x(pos, label), pos.y + pos.height / 2, label)
}

/// The first `n` nodes drawn, each that has a position.
pub open spec fn draw_nodes(
    c: CanvasModel,
    nodes: Seq<NodeModel>,
    layout: Seq<(Seq<char>, Position)>,
    ascii: bool,
    n: int,
) -> CanvasModel
    decreases n,
{
    if n <= 0 {
        c
    } else {
        let prev = draw_nodes(c, nodes, layout, ascii, n - 1);
        match lookup(layout, nodes[n - 1].id) {
            Some(p) => draw_node_spec(prev, p, nodes[n - 1].label, ascii),
            None => prev,
        }
    }
}

/// A vertical arrow in column `x` from row `start` down to row `end - 1`,
/// which holds the arrowhead; its label two columns right of the middle row.
pub open spec fn vertical_span(
    c: CanvasModel,
    x: int,
    start: int,
    end: int,
    arrow: char,
    style: EdgeStyle,
    label: Option<Seq<char>>,
    v: char,
) -> CanvasModel {
    if start >= end {
        c
    } else {
        let line = if style == EdgeStyle::Dotted {
            ':'
        } else {
            v
        };
        let c1 = vline(c, x, start, end - 1 - start, line);
        let c2 = put(c1, x, end - 1, arrow);
        match label {
            Some(l) => put_str(c2, x + 2, (start + end) / 2, l),
            None => c2,
        }
    }
}

/// The arrow of an edge in a top-down layout, drawn down the centre column
/// of its source between the two boxes, pointing at the target.
pub open spec fn vertical_edge(
    c: CanvasModel,
    f: Position,
    t: Position,
    style: EdgeStyle,
    label: Option<Seq<char>>,
    v: char,
) -> CanvasModel {
    let x = f.x + f.width / 2;
    if f.y + f.height <= t.y {
        vertical_span(c, x, f.y + f.height, t.y as int, 'v', style, label, v)
    } else if t.y + t.height <= f.y {
        vertical_span(c, x, t.y + t.height, f.y as int, '^', style, label, v)
    } else {
        c
    }
}

/// Every other cell of a horizontal line of `len` cells, from its first.
pub open spec fn dotted_hline(c: CanvasModel, x: int, y: int, len: int, ch: char) -> CanvasModel
    decreases len,
{
    if len <= 0 {
        c
    } else {
        let c2 = dotted_hline(c, x, y, len - 1, ch);
        if (len - 1) % 2 == 0 {
            put(c2, x + len - 1, y, ch)
        } else {
            c2
        }
    }
}

/// A horizontal arrow in row `y` from column `start` to column `end - 1`,
/// which holds the arrowhead; its label centred on the row above.
pub open spec fn horizontal_span(
    c: CanvasModel,
    y: int,
    start: int,
    end: int,
    arrow: char,
    style: EdgeStyle,
    label: Option<Seq<char>>,
    h: char,
) -> CanvasModel {
    if start >= end {
        c
    } else {
        let line = if style == EdgeStyle::Thick {
            '='
        } else {
            h
        };
        let c1 = if style == EdgeStyle::Dotted {
            dotted_hline(c, start, y, end - 1 - start, line)
        } else {
            hline(c, start, y, end - 1 - start, line)
        };
        let c2 = put(c1, end - 1, y, arrow);
        match label {
            Some(l) => if y > 0 {
                put_str(c2, sat_sub((start + end) / 2, (utf8_len(l) / 2) as int), y - 1, l)
            } else {
                c2
            },
            None => c2,
        }
    }
}

/// The arrow of an edge in a left-right layout, drawn along the middle row
/// of its source between the two boxes, pointing at the target.
pub open spec fn horizontal_edge(
    c: CanvasModel,
    f: Position,
    t: Position,
    style: EdgeStyle,
    label: Option<Seq<char>>,
    h: char,
) -> CanvasModel {
    let y = f.y + f.height / 2;
    if f.x + f.width <= t.x {
        horizontal_span(c, y, f.x + f.width, t.x as int, '>', style, label, h)
    } else if t.x + t.width <= f.x {
        horizontal_span(c, y, t.x + t.width, f.x as int, '<', style, label, h)
    } else {
        c
    }
}

/// One edge drawn, where both ends have positions.
pub open spec fn draw_edge_spec(
    c: CanvasModel,
    e: EdgeModel,
    layout: Seq<(Seq<char>, Position)>,
    dir: Direction,
    ascii: bool,
) -> CanvasModel {
    match (lookup(layout, e.from), lookup(layout, e.to)) {
        (Some(f), Some(t)) => if horizontal(dir) {
            horizontal_edge(c, f, t, e.style, e.label, line_chars(ascii).1)
        } else {
            vertical_edge(c, f, t, e.style, e.label, line_chars(ascii).0)
        },
        _ => c,
    }
}

/// The first `n` edges drawn.
pub open spec fn draw_edges(
    c: CanvasModel,
    edges: Seq<EdgeModel>,
    layout: Seq<(Seq<char>, Position)>,
    dir: Direction,
    ascii: bool,
    n: int,
) -> CanvasModel
    decreases n,
{
    if n <= 0 {
        c
    } else {
        draw_edge_spec(draw_edges(c, edges, layout, dir, ascii, n - 1), edges[n - 1], layout, dir, ascii)
    }
}

/// The drawn flowchart: a canvas two columns and rows beyond the furthest
/// box (no wider than `max_width`), the nodes, then the edges.
pub open spec fn render_flowchart(
    fc: FlowchartModel,
    layout: Seq<(Seq<char>, Position)>,
    opts: RenderOptions,
) -> CanvasModel {
    let (mx, my) = extent(layout, layout.len() as int);
    let c0 = blank(min_int(mx, opts.max_width as int) as usize, my as usize);
    let c1 = draw_nodes(c0, fc.nodes, layout, opts.ascii_only, fc.nodes.len() as int);
    draw_edges(c1, fc.edges, layout, fc.direction, opts.ascii_only, fc.edges.len() as int)
}

/// The arithmetic for an edge's label stays within `usize`.
pub open spec fn edge_fits(f: Position, t: Position, label: Option<Seq<char>>, dir: Direction) -> bool {
    match label {
        None => true,
        Some(l) => if horizontal(dir) {
            let y = f.y + f.height / 2;
            let (start, end) = if f.x + f.width <= t.x {
                (f.x + f.width, t.x as int)
            } else {
                (t.x + t.width, f.x as int)
            };
            (f.x + f.width <= t.x || t.x + t.width <= f.x) && start < end ==> start + end
                <= usize::MAX && (y > 0 ==> run_fits(
                sat_sub((start + end) / 2, (utf8_len(l) / 2) as int),
                l.len() as int,
            ))
        } else {
            let x = f.x + f.width / 2;
            let (start, end) = if f.y + f.height <= t.y {
                (f.y + f.height, t.y as int)
            } else {
                (t.y + t.height, f.y as int)
            };
            (f.y + f.height <= t.y || t.y + t.height <= f.y) && start < end ==> start + end
                <= usize::MAX && run_fits(x + 2, l.len() as int)
        },
    }
}

/// The drawing's arithmetic stays within `usize`.
pub open spec fn flow_render_fits(
    fc: FlowchartModel,
    layout: Seq<(Seq<char>, Position)>,
    opts: RenderOptions,
) -> bool {
    &&& forall|i: int|
        0 <= i < layout.len() ==> (#[trigger] layout[i]).1.x + layout[i].1.width + 2 <= usize::MAX
            && layout[i].1.y + layout[i].1.height + 2 <= usize::MAX
    &&& forall|i: int|
        0 <= i < fc.nodes.len() ==> match lookup(layout, (#[trigger] fc.nodes[i]).id) {
            Some(p) => run_fits(label_x(p, fc.nodes[i].label), fc.nodes[i].label.len() as int)
                && utf8_len(fc.nodes[i].label) <= usize::MAX,
            None => true,
        }
    &&& forall|j: int|
        0 <= j < fc.edges.len() ==> match (
            lookup(layout, (#[trigger] fc.edges[j]).from),
            lookup(layout, fc.edges[j].to),
        ) {
            (Some(f), Some(t)) => edge_fits(f, t, fc.edges[j].label, fc.direction)
                && match fc.edges[j].label {
                Some(l) => utf8_len(l) <= usize::MAX,
                None => true,
            },
            _ => true,
        }
}

/// A recorded position is one of the entries.
pub proof fn lemma_lookup_is_entry(es: Seq<(Seq<char>, Position)>, key: Seq<char>)
    ensures
        lookup(es, key) matches Some(p) ==> exists|i: int| 0 <= i < es.len() && (#[trigger] es[i]).1 == p,
{
    lemma_key_index_from(es, key, 0);
    if let Some(k) = key_index(es, key) {
        assert(es[k].1 == lookup(es, key).unwrap());
    }
}

proof fn lemma_extent_bounds(es: Seq<(Seq<char>, Position)>, n: int, i: int)
    requires
        0 <= i < n <= es.len(),
    ensures
        extent(es, n).0 >= es[i].1.x + es[i].1.width + 2,
        extent(es, n).1 >= es[i].1.y + es[i].1.height + 2,
    decreases n,
{
    if i < n - 1 {
        lemma_extent_bounds(es, n - 1, i);
    }
}

proof fn lemma_extent_fits(es: Seq<(Seq<char>, Position)>, n: int)
    requires
        0 <= n <= es.len(),
        forall|i: int|
            0 <= i < es.len() ==> (#[trigger] es[i]).1.x + es[i].1.width + 2 <= usize::MAX
                && es[i].1.y + es[i].1.height + 2 <= usize::MAX,
    ensures
        extent(es, n).0 <= usize::MAX,
        extent(es, n).1 <= usize::MAX,
    decreases n,
{
    if n > 0 {
        lemma_extent_fits(es, n - 1);
        assert(es[n - 1].1.x + es[n - 1].1.width + 2 <= usize::MAX);
    }
}

proof fn lemma_extent_nonneg(es: Seq<(Seq<char>, Position)>, n: int)
    ensures
        extent(es, n).0 >= 0,
        extent(es, n).1 >= 0,
    decreases n,
{
    if n > 0 {
        lemma_extent_nonneg(es, n - 1);
    }
}

/// In a top-down layout every edge between two separated boxes, whatever
/// its style, ends in an arrowhead in the source's centre column: `v` on the
/// row just above the target where the target is below, and `^` on the row
/// just above the source where the target is above. The rows between the
/// boxes above the head hold the line: `:` for a dotted edge, the vertical
/// line char for the others.
pub proof fn law_vertical_edge_head(
    c: CanvasModel,
    f: Position,
    t: Position,
    style: EdgeStyle,
    label: Option<Seq<char>>,
    v: char,
    row: int,
)
    requires
        model_wf(c),
        f.x + f.width / 2 < c.width,
        0 <= row < c.height,
    ensures
        ({
            let x = f.x + f.width / 2;
            let out = vertical_edge(c, f, t, style, label, v);
            let line = if style == EdgeStyle::Dotted {
                ':'
            } else {
                v
            };
            &&& f.y + f.height < t.y && row == t.y - 1 ==> out.rows[row][x] == 'v'
            &&& t.y + t.height < f.y && row == f.y - 1 ==> out.rows[row][x] == '^'
            &&& f.y + f.height < t.y && f.y + f.height <= row < t.y - 1 ==> out.rows[row][x] == line
            &&& t.y + t.height < f.y && t.y + t.height <= row < f.y - 1 ==> out.rows[row][x] == line
        }),
{
    let x = f.x + f.width / 2;
    let line = if style == EdgeStyle::Dotted {
        ':'
    } else {
        v
    };
    let (start, end, arrow) = if f.y + f.height <= t.y {
        (f.y + f.height, t.y as int, 'v')
    } else {
        (t.y + t.height, f.y as int, '^')
    };
    if (f.y + f.height <= t.y || t.y + t.height <= f.y) && start < end {
        let c1 = vline(c, x, start, end - 1 - start, line);
        law_vline_cells(c, x, start, end - 1 - start, line, x, row);
        let c2 = put(c1, x, end - 1, arrow);
        law_put_then_read(c1, x, end - 1, arrow, x, row);
        if let Some(l) = label {
            law_put_str_cells(c2, x + 2, (start + end) / 2, l, x, row);
        }
    }
}

/// A char in the ASCII range.
pub open spec fn is_ascii_char(ch: char) -> bool {
    (ch as u32) < 0x80
}

/// Every char of `s` is ASCII.
pub open spec fn ascii_text(s: Seq<char>) -> bool {
    forall|i: int| 0 <= i < s.len() ==> #[trigger] is_ascii_char(s[i])
}

/// The chars that drawing uses, besides labels, all satisfy `p`.
pub open spec fn drawing_chars_in(p: spec_fn(char) -> bool, ascii: bool) -> bool {
    let (tl, tr, bl, br, h, v) = box_chars(ascii);
    &&& p(tl) && p(tr) && p(bl) && p(br) && p(h) && p(v)
    &&& p(line_chars(ascii).0) && p(line_chars(ascii).1)
    &&& p(' ') && p(':') && p('=') && p('v') && p('^') && p('>') && p('<') && p('x')
}

pub proof fn lemma_dotted_keeps(c: CanvasModel, x: int, y: int, len: int, ch: char, p: spec_fn(char) -> bool)
    requires
        model_wf(c),
        all_cells(c, p),
        p(ch),
    ensures
        all_cells(dotted_hline(c, x, y, len, ch), p),
        same_shape(c, dotted_hline(c, x, y, len, ch)),
    decreases len,
{
    if len > 0 {
        lemma_dotted_keeps(c, x, y, len - 1, ch, p);
        let c2 = dotted_hline(c, x, y, len - 1, ch);
        lemma_put_keeps(c2, x + len - 1, y, ch, p);
        lemma_put_shape(c2, x + len - 1, y, ch);
    }
}

pub proof fn lemma_node_keeps(c: CanvasModel, pos: Position, label: Seq<char>, ascii: bool, p: spec_fn(char) -> bool)
    requires
        model_wf(c),
        all_cells(c, p),
        drawing_chars_in(p, ascii),
        forall|i: int| 0 <= i < label.len() ==> #[trigger] p(label[i]),
    ensures
        all_cells(draw_node_spec(c, pos, label, ascii), p),
        same_shape(c, draw_node_spec(c, pos, label, ascii)),
{
    let c1 = draw_box_spec(c, pos.x as int, pos.y as int, pos.width as int, pos.height as int, ascii);
    lemma_draw_box_keeps(c, pos.x as int, pos.y as int, pos.width as int, pos.height as int, ascii, p);
    lemma_put_str_keeps(c1, label_x(pos, label), pos.y + pos.height / 2, label, p);
    lemma_put_str_shape(c1, label_x(pos, label), pos.y + pos.height / 2, label);
}

/// Drawing the nodes keeps the canvas's size, and keeps every cell in `p`
/// where the drawing chars and the labels are.
pub proof fn lemma_nodes_keep(
    c: CanvasModel,
    nodes: Seq<NodeModel>,
    layout: Seq<(Seq<char>, Position)>,
    ascii: bool,
    n: int,
    p: spec_fn(char) -> bool,
)
    requires
        model_wf(c),
        all_cells(c, p),
        drawing_chars_in(p, ascii),
        n <= nodes.len(),
        forall|i: int, k: int| 0 <= i < nodes.len() && 0 <= k < nodes[i].label.len() ==> #[trigger] p(
            nodes[i].label[k],
        ),
    ensures
        all_cells(draw_nodes(c, nodes, layout, ascii, n), p),
        same_shape(c, draw_nodes(c, nodes, layout, ascii, n)),
    decreases n,
{
    if n > 0 {
        lemma_nodes_keep(c, nodes, layout, ascii, n - 1, p);
        let prev = draw_nodes(c, nodes, layout, ascii, n - 1);
        if let Some(pos) = lookup(layout, nodes[n - 1].id) {
            assert forall|k: int| 0 <= k < nodes[n - 1].label.len() implies #[trigger] p(nodes[n - 1].label[k]) by {
                assert(p(nodes[n - 1].label[k]));
            }
            lemma_node_keeps(prev, pos, nodes[n - 1].label, ascii, p);
        }
    }
}

pub proof fn lemma_edge_keeps(
    c: CanvasModel,
    e: EdgeModel,
    layout: Seq<(Seq<char>, Position)>,
    dir: Direction,
    ascii: bool,
    p: spec_fn(char) -> bool,
)
    requires
        model_wf(c),
        all_cells(c, p),
        drawing_chars_in(p, ascii),
        opt_chars_all(e.label, p),
    ensures
        all_cells(draw_edge_spec(c, e, layout, dir, ascii), p),
        same_shape(c, draw_edge_spec(c, e, layout, dir, ascii)),
{
    match (lookup(layout, e.from), lookup(layout, e.to)) {
        (Some(f), Some(t)) => {
            if horizontal(dir) {
                let h = line_chars(ascii).1;
                let y = f.y + f.height / 2;
                let (start, end, arrow) = if f.x + f.width <= t.x {
                    (f.x + f.width, t.x as int, '>')
                } else {
                    (t.x + t.width, f.x as int, '<')
                };
                if (f.x + f.width <= t.x || t.x + t.width <= f.x) && start < end {
                    let line = if e.style == EdgeStyle::Thick {
                        '='
                    } else {
                        h
                    };
                    let c1 = if e.style == EdgeStyle::Dotted {
                        dotted_hline(c, start, y, end - 1 - start, line)
                    } else {
                        hline(c, start, y, end - 1 - start, line)
                    };
                    lemma_dotted_keeps(c, start, y, end - 1 - start, line, p);
                    lemma_hline_keeps(c, start, y, end - 1 - start, line, p);
                    lemma_hline_shape(c, start, y, end - 1 - start, line);
                    let c2 = put(c1, end - 1, y, arrow);
                    lemma_put_keeps(c1, end - 1, y, arrow, p);
                    lemma_put_shape(c1, end - 1, y, arrow);
                    if let Some(l) = e.label {
                        if y > 0 {
                            let lx = sat_sub((start + end) / 2, (utf8_len(l) / 2) as int);
                            lemma_put_str_keeps(c2, lx, y - 1, l, p);
                            lemma_put_str_shape(c2, lx, y - 1, l);
                        }
                    }
                }
            } else {
                let v = line_chars(ascii).0;
                let x = f.x + f.width / 2;
                let (start, end, arrow) = if f.y + f.height <= t.y {
                    (f.y + f.height, t.y as int, 'v')
                } else {
                    (t.y + t.height, f.y as int, '^')
                };
                if (f.y + f.height <= t.y || t.y + t.height <= f.y) && start < end {
                    let line = if e.style == EdgeStyle::Dotted {
                        ':'
                    } else {
                        v
                    };
                    let c1 = vline(c, x, start, end - 1 - start, line);
                    lemma_vline_keeps(c, x, start, end - 1 - start, line, p);
                    lemma_vline_shape(c, x, start, end - 1 - start, line);
                    let c2 = put(c1, x, end - 1, arrow);
                    lemma_put_keeps(c1, x, end - 1, arrow, p);
                    lemma_put_shape(c1, x, end - 1, arrow);
                    if let Some(l) = e.label {
                        lemma_put_str_keeps(c2, x + 2, (start + end) / 2, l, p);
                        lemma_put_str_shape(c2, x + 2, (start + end) / 2, l);
                    }
                }
            }
        },
        _ => {},
    }
}

/// Drawing the edges keeps the canvas's size, and keeps every cell in `p`
/// where the drawing chars and the labels are.
pub proof fn lemma_edges_keep(
    c: CanvasModel,
    edges: Seq<EdgeModel>,
    layout: Seq<(Seq<char>, Position)>,
    dir: Direction,
    ascii: bool,
    n: int,
    p: spec_fn(char) -> bool,
)
    requires
        model_wf(c),
        all_cells(c, p),
        drawing_chars_in(p, ascii),
        n <= edges.len(),
        forall|j: int| 0 <= j < edges.len() ==> opt_chars_all((#[trigger] edges[j]).label, p),
    ensures
        all_cells(draw_edges(c, edges, layout, dir, ascii, n), p),
        same_shape(c, draw_edges(c, edges, layout, dir, ascii, n)),
    decreases n,
{
    if n > 0 {
        lemma_edges_keep(c, edges, layout, dir, ascii, n - 1, p);
        let prev = draw_edges(c, edges, layout, dir, ascii, n - 1);
        assert(opt_chars_all(edges[n - 1].label, p));
        lemma_edge_keeps(prev, edges[n - 1], layout, dir, ascii, p);
    }
}

/// The drawn flowchart fits the requested width: every row holds
/// `min(furthest right edge + 2, max_width)` cells, so no more than
/// `max_width`; and (where drawing stays within `usize`) it is as tall as
/// the lowest box plus two.
pub proof fn law_flowchart_fits_width(fc: FlowchartModel, layout: Seq<(Seq<char>, Position)>, opts: RenderOptions)
    ensures
        model_wf(render_flowchart(fc, layout, opts)),
        render_flowchart(fc, layout, opts).width <= opts.max_width,
        flow_render_fits(fc, layout, opts) ==> render_flowchart(fc, layout, opts).height as int == extent(
            layout,
            layout.len() as int,
        ).1,
{
    lemma_extent_nonneg(layout, layout.len() as int);
    if flow_render_fits(fc, layout, opts) {
        lemma_extent_fits(layout, layout.len() as int);
    }
    let (mx, my) = extent(layout, layout.len() as int);
    let c0 = blank(min_int(mx, opts.max_width as int) as usize, my as usize);
    let p = |ch: char| true;
    assert(drawing_chars_in(p, opts.ascii_only));
    lemma_nodes_keep(c0, fc.nodes, layout, opts.ascii_only, fc.nodes.len() as int, p);
    let c1 = draw_nodes(c0, fc.nodes, layout, opts.ascii_only, fc.nodes.len() as int);
    lemma_edges_keep(c1, fc.edges, layout, fc.direction, opts.ascii_only, fc.edges.len() as int, p);
}

/// Whatever holds of the drawing chars and of every label char holds of
/// every cell of the drawn flowchart.
pub proof fn lemma_flowchart_cells(
    fc: FlowchartModel,
    layout: Seq<(Seq<char>, Position)>,
    opts: RenderOptions,
    p: spec_fn(char) -> bool,
)
    requires
        drawing_chars_in(p, opts.ascii_only),
        forall|i: int| 0 <= i < fc.nodes.len() ==> chars_all(#[trigger] fc.nodes[i].label, p),
        forall|j: int| 0 <= j < fc.edges.len() ==> opt_chars_all((#[trigger] fc.edges[j]).label, p),
    ensures
        all_cells(render_flowchart(fc, layout, opts), p),
{
    lemma_extent_nonneg(layout, layout.len() as int);
    let (mx, my) = extent(layout, layout.len() as int);
    let c0 = blank(min_int(mx, opts.max_width as int) as usize, my as usize);
    assert forall|i: int, k: int| 0 <= i < fc.nodes.len() && 0 <= k < fc.nodes[i].label.len() implies #[trigger] p(
        fc.nodes[i].label[k],
    ) by {
        assert(chars_all(fc.nodes[i].label, p));
    }
    lemma_nodes_keep(c0, fc.nodes, layout, opts.ascii_only, fc.nodes.len() as int, p);
    let c1 = draw_nodes(c0, fc.nodes, layout, opts.ascii_only, fc.nodes.len() as int);
    lemma_edges_keep(c1, fc.edges, layout, fc.direction, opts.ascii_only, fc.edges.len() as int, p);
}

/// In ASCII mode, a flowchart whose labels are ASCII is drawn in ASCII alone:
/// no box-drawing char appears.
pub proof fn law_flowchart_ascii(fc: FlowchartModel, layout: Seq<(Seq<char>, Position)>, opts: RenderOptions)
    requires
        opts.ascii_only,
        forall|i: int| 0 <= i < fc.nodes.len() ==> ascii_text(#[trigger] fc.nodes[i].label),
        forall|j: int| 0 <= j < fc.edges.len() ==> opt_chars_all((#[trigger] fc.edges[j]).label, |ch: char| is_ascii_char(ch)),
    ensures
        all_cells(render_flowchart(fc, layout, opts), |ch: char| is_ascii_char(ch)),
{
    let p = |ch: char| is_ascii_char(ch);
    assert(drawing_chars_in(p, true));
    assert forall|i: int| 0 <= i < fc.nodes.len() implies chars_all(#[trigger] fc.nodes[i].label, p) by {
        assert(ascii_text(fc.nodes[i].label));
    }
    lemma_flowchart_cells(fc, layout, opts, p);
}

/// The byte length of a label.
fn label_len(label: &String) -> (n: usize)
    requires
        utf8_len(label@) <= usize::MAX,
    ensures
        n == utf8_len(label@),
{
    let cs = chars_of(label.as_str());
    utf8_length(cs.as_slice())
}

/// Draws a vertical edge between two nodes (for TD/BT layouts).
///
/// Uses the from node's center x for a straight line.
fn draw_vertical_edge(
    canvas: &mut Canvas,
    from_pos: &Position,
    to_pos: &Position,
    style: &EdgeStyle,
    label: &Option<String>,
    v_char: char,
)
    requires
        old(canvas).wf(),
        from_pos.x + from_pos.width + 2 <= usize::MAX,
        from_pos.y + from_pos.height + 2 <= usize::MAX,
        to_pos.y + to_pos.height + 2 <= usize::MAX,
        edge_fits(*from_pos, *to_pos, opt_chars(*label), Direction::TopDown),
    ensures
        final(canvas).wf(),
        final(canvas)@ == vertical_edge(old(canvas)@, *from_pos, *to_pos, *style, opt_chars(*label), v_char),
{
    let x = from_pos.x + from_pos.width / 2;
    let (start_y, end_y, arrow_ch) = if from_pos.y + from_pos.height <= to_pos.y {
        (from_pos.y + from_pos.height, to_pos.y, 'v')
    } else if to_pos.y + to_pos.height <= from_pos.y {
        (to_pos.y + to_pos.height, from_pos.y, '^')
    } else {
        return ;
    };
    if start_y >= end_y {
        return ;
    }
    let line_ch = match style {
        EdgeStyle::Solid | EdgeStyle::Thick => v_char,
        EdgeStyle::Dotted => ':',
    };
    canvas.vline(x, start_y, end_y - 1 - start_y, line_ch);
    canvas.set(x, end_y - 1, arrow_ch);
    // Edge label to the right of the midpoint
    if let Some(label) = label {
        let mid_y = (start_y + end_y) / 2;
        canvas.write_str(x + 2, mid_y, label.as_str());
    }
}

/// Every other cell of a horizontal line, from its first.
fn dotted_line(canvas: &mut Canvas, x: usize, y: usize, len: usize, ch: char)
    requires
        old(canvas).wf(),
        run_fits(x as int, len as int),
    ensures
        final(canvas).wf(),
        final(canvas)@ == dotted_hline(old(canvas)@, x as int, y as int, len as int, ch),
{
    let mut offset: usize = 0;
    while offset < len
        invariant
            canvas.wf(),
            0 <= offset <= len,
            run_fits(x as int, len as int),
            canvas@ == dotted_hline(old(canvas)@, x as int, y as int, offset as int, ch),
        decreases len - offset,
    {
        if offset % 2 == 0 {
            canvas.set(x + offset, y, ch);
        }
        offset = offset + 1;
    }
}

/// Draws a horizontal edge between two nodes (for LR/RL layouts).
///
/// Uses the from node's center y for a straight line.
fn draw_horizontal_edge(
    canvas: &mut Canvas,
    from_pos: &Position,
    to_pos: &Position,
    style: &EdgeStyle,
    label: &Option<String>,
    h_char: char,
)
    requires
        old(canvas).wf(),
        from_pos.x + from_pos.width + 2 <= usize::MAX,
        from_pos.y + from_pos.height + 2 <= usize::MAX,
        to_pos.x + to_pos.width + 2 <= usize::MAX,
        edge_fits(*from_pos, *to_pos, opt_chars(*label), Direction::LeftRight),
        match opt_chars(*label) {
            Some(l) => utf8_len(l) <= usize::MAX,
            None => true,
        },
    ensures
        final(canvas).wf(),
        final(canvas)@ == horizontal_edge(old(canvas)@, *from_pos, *to_pos, *style, opt_chars(*label), h_char),
{
    let y = from_pos.y + from_pos.height / 2;
    let (start_x, end_x, arrow_ch) = if from_pos.x + from_pos.width <= to_pos.x {
        (from_pos.x + from_pos.width, to_pos.x, '>')
    } else if to_pos.x + to_pos.width <= from_pos.x {
        (to_pos.x + to_pos.width, from_pos.x, '<')
    } else {
        return ;
    };
    if start_x >= end_x {
        return ;
    }
    let line_ch = match style {
        EdgeStyle::Solid => h_char,
        EdgeStyle::Thick => '=',
        EdgeStyle::Dotted => h_char,
    };
    match style {
        EdgeStyle::Dotted => {
            dotted_line(canvas, start_x, y, end_x - 1 - start_x, line_ch);
        },
        EdgeStyle::Solid | EdgeStyle::Thick => {
            canvas.hline(start_x, y, end_x - 1 - start_x, line_ch);
        },
    }
    canvas.set(end_x - 1, y, arrow_ch);
    // Edge label above the midpoint
    if let Some(label) = label {
        let mid_x = (start_x + end_x) / 2;
        let half = label_len(label) / 2;
        let label_x = if mid_x >= half {
            mid_x - half
        } else {
            0
        };
        if y > 0 {
            canvas.write_str(label_x, y - 1, label.as_str());
        }
    }
}

/// Renders a laid-out flowchart to a character canvas.
pub fn render(flowchart: &Flowchart, positions: &PositionMap, opts: &RenderOptions) -> (canvas: Canvas)
    requires
        flow_render_fits(flowchart@, positions@, *opts),
    ensures
        canvas.wf(),
        canvas@ == render_flowchart(flowchart@, positions@, *opts),
{
    let ghost fc = flowchart@;
    let ghost layout = positions@;
    // Calculate canvas dimensions
    let mut max_x: usize = 0;
    let mut max_y: usize = 0;
    let mut k: usize = 0;
    while k < positions.len()
        invariant
            0 <= k <= layout.len(),
            layout == positions@,
            flow_render_fits(fc, layout, *opts),
            (max_x as int, max_y as int) == extent(layout, k as int),
        decreases layout.len() - k,
    {
        let pos = positions.entry(k);
        proof {
            assert(layout[k as int].1 == pos);
        }
        let ex = pos.x + pos.width + 2;
        let ey = pos.y + pos.height + 2;
        if ex > max_x {
            max_x = ex;
        }
        if ey > max_y {
            max_y = ey;
        }
        k = k + 1;
    }
    let width = if max_x <= opts.max_width {
        max_x
    } else {
        opts.max_width
    };
    let mut canvas = Canvas::new(width, max_y);
    // Draw nodes
    let n = flowchart.nodes.len();
    let mut i: usize = 0;
    while i < n
        invariant
            0 <= i <= n,
            n == fc.nodes.len(),
            fc == flowchart@,
            layout == positions@,
            flow_render_fits(fc, layout, *opts),
            canvas.wf(),
            canvas@ == draw_nodes(
                blank(width, max_y),
                fc.nodes,
                layout,
                opts.ascii_only,
                i as int,
            ),
        decreases n - i,
    {
        let node = &flowchart.nodes[i];
        proof {
            assert(fc.nodes[i as int] == node@);
        }
        if let Some(pos) = positions.get(node.id.as_str()) {
            proof {
                lemma_lookup_is_entry(layout, node.id@);
            }
            canvas.draw_box(pos.x, pos.y, pos.width, pos.height, opts.ascii_only);
            let len = label_len(&node.label);
            let gap = if pos.width >= len {
                pos.width - len
            } else {
                0
            };
            let label_x = pos.x + gap / 2;
            let label_y = pos.y + pos.height / 2;
            canvas.write_str(label_x, label_y, node.label.as_str());
        }
        i = i + 1;
    }
    // Draw edges
    let (v_char, h_char) = if opts.ascii_only {
        ('|', '-')
    } else {
        ('\u{2502}', '\u{2500}')
    };
    let is_horizontal = match flowchart.direction {
        Direction::LeftRight | Direction::RightLeft => true,
        _ => false,
    };
    let ghost c1 = canvas@;
    let m = flowchart.edges.len();
    let mut j: usize = 0;
    while j < m
        invariant
            0 <= j <= m,
            m == fc.edges.len(),
            fc == flowchart@,
            layout == positions@,
            flow_render_fits(fc, layout, *opts),
            is_horizontal == horizontal(fc.direction),
            (v_char, h_char) == line_chars(opts.ascii_only),
            canvas.wf(),
            canvas@ == draw_edges(c1, fc.edges, layout, fc.direction, opts.ascii_only, j as int),
        decreases m - j,
    {
        let edge = &flowchart.edges[j];
        proof {
            assert(fc.edges[j as int] == edge@);
        }
        let from_pos = positions.get(edge.from.as_str());
        let to_pos = positions.get(edge.to.as_str());
        match (from_pos, to_pos) {
            (Some(from_pos), Some(to_pos)) => {
                proof {
                    lemma_lookup_is_entry(layout, edge.from@);
                    lemma_lookup_is_entry(layout, edge.to@);
                }
                if is_horizontal {
                    draw_horizontal_edge(&mut canvas, &from_pos, &to_pos, &edge.style, &edge.label, h_char);
                } else {
                    draw_vertical_edge(&mut canvas, &from_pos, &to_pos, &edge.style, &edge.label, v_char);
                }
            },
            _ => {},
        }
        j = j + 1;
    }
    canvas
}

/// Whether `run_fits(x, n)`, for values that fit in `u128`.
fn run_fits_wide(x: u128, n: u128) -> (b: bool)
    requires
        x <= 8 * usize::MAX,
        n <= 8 * usize::MAX,
    ensures
        b == run_fits(x as int, n as int),
{
    n == 0 || x + n - 1 <= usize::MAX as u128
}

/// Whether an edge's label arithmetic fits; `label_len` is its UTF-8 length.
fn edge_fits_exec(f: Position, t: Position, label: &Option<String>, horizontal: bool) -> (b: bool)
    requires
        f.x + f.width + 2 <= usize::MAX,
        f.y + f.height + 2 <= usize::MAX,
        t.x + t.width + 2 <= usize::MAX,
        t.y + t.height + 2 <= usize::MAX,
    ensures
        b == (edge_fits(f, t, opt_chars(*label), if horizontal {
            Direction::LeftRight
        } else {
            Direction::TopDown
        }) && match opt_chars(*label) {
            Some(l) => utf8_len(l) <= usize::MAX,
            None => true,
        }),
{
    let max = usize::MAX as u128;
    match label {
        None => true,
        Some(l) => {
            let cs = chars_of(l.as_str());
            let n = cs.len() as u128;
            let bytes = utf8_length_wide(cs.as_slice());
            if bytes > max {
                return false;
            }
            if horizontal {
                let y = f.y as u128 + f.height as u128 / 2;
                let fx = f.x as u128;
                let fw = f.x as u128 + f.width as u128;
                let tx = t.x as u128;
                let tw = t.x as u128 + t.width as u128;
                let (start, end) = if fw <= tx {
                    (fw, tx)
                } else {
                    (tw, fx)
                };
                if (fw <= tx || tw <= fx) && start < end {
                    if start + end > max {
                        return false;
                    }
                    if y > 0 {
                        let mid = (start + end) / 2;
                        let half = bytes / 2;
                        let lx = if mid >= half {
                            mid - half
                        } else {
                            0
                        };
                        return run_fits_wide(lx, n);
                    }
                }
                true
            } else {
                let x = f.x as u128 + f.width as u128 / 2;
                let fy = f.y as u128;
                let fh = f.y as u128 + f.height as u128;
                let ty = t.y as u128;
                let th = t.y as u128 + t.height as u128;
                let (start, end) = if fh <= ty {
                    (fh, ty)
                } else {
                    (th, fy)
                };
                if (fh <= ty || th <= fy) && start < end {
                    if start + end > max {
                        return false;
                    }
                    return run_fits_wide(x + 2, n);
                }
                true
            }
        },
    }
}

/// Whether `render` can draw the flowchart at these positions without
/// overflowing `usize`.
pub fn render_fits(flowchart: &Flowchart, positions: &PositionMap, opts: &RenderOptions) -> (b: bool)
    ensures
        b == flow_render_fits(flowchart@, positions@, *opts),
{
    let ghost fc = flowchart@;
    let ghost layout = positions@;
    let max = usize::MAX as u128;
    let mut k: usize = 0;
    while k < positions.len()
        invariant
            0 <= k <= layout.len(),
            layout == positions@,
            max == usize::MAX,
            forall|i: int|
                0 <= i < k ==> (#[trigger] layout[i]).1.x + layout[i].1.width + 2 <= usize::MAX
                    && layout[i].1.y + layout[i].1.height + 2 <= usize::MAX,
        decreases layout.len() - k,
    {
        let p = positions.entry(k);
        if p.x as u128 + p.width as u128 + 2 > max || p.y as u128 + p.height as u128 + 2 > max {
            return false;
        }
        k = k + 1;
    }
    let n = flowchart.nodes.len();
    let mut i: usize = 0;
    while i < n
        invariant
            0 <= i <= n,
            n == fc.nodes.len(),
            fc == flowchart@,
            layout == positions@,
            max == usize::MAX,
            forall|i: int|
                0 <= i < layout.len() ==> (#[trigger] layout[i]).1.x + layout[i].1.width + 2 <= usize::MAX
                    && layout[i].1.y + layout[i].1.height + 2 <= usize::MAX,
            forall|j: int|
                0 <= j < i ==> match lookup(layout, (#[trigger] fc.nodes[j]).id) {
                    Some(p) => run_fits(label_x(p, fc.nodes[j].label), fc.nodes[j].label.len() as int)
                        && utf8_len(fc.nodes[j].label) <= usize::MAX,
                    None => true,
                },
        decreases n - i,
    {
        let node = &flowchart.nodes[i];
        proof {
            assert(fc.nodes[i as int] == node@);
        }
        if let Some(p) = positions.get(node.id.as_str()) {
            let cs = chars_of(node.label.as_str());
            let bytes = utf8_length_wide(cs.as_slice());
            if bytes > max {
                return false;
            }
            let w = p.width as u128;
            let gap = if w >= bytes {
                w - bytes
            } else {
                0
            };
            if !run_fits_wide(p.x as u128 + gap / 2, cs.len() as u128) {
                return false;
            }
        }
        i = i + 1;
    }
    let is_horiz = match flowchart.direction {
        Direction::LeftRight | Direction::RightLeft => true,
        _ => false,
    };
    let m = flowchart.edges.len();
    let mut j: usize = 0;
    while j < m
        invariant
            0 <= j <= m,
            m == fc.edges.len(),
            fc == flowchart@,
            layout == positions@,
            is_horiz == horizontal(fc.direction),
            forall|i: int|
                0 <= i < layout.len() ==> (#[trigger] layout[i]).1.x + layout[i].1.width + 2 <= usize::MAX
                    && layout[i].1.y + layout[i].1.height + 2 <= usize::MAX,
            forall|i: int|
                0 <= i < fc.nodes.len() ==> match lookup(layout, (#[trigger] fc.nodes[i]).id) {
                    Some(p) => run_fits(label_x(p, fc.nodes[i].label), fc.nodes[i].label.len() as int)
                        && utf8_len(fc.nodes[i].label) <= usize::MAX,
                    None => true,
                },
            forall|jj: int|
                0 <= jj < j ==> match (
                    lookup(layout, (#[trigger] fc.edges[jj]).from),
                    lookup(layout, fc.edges[jj].to),
                ) {
                    (Some(f), Some(t)) => edge_fits(f, t, fc.edges[jj].label, fc.direction)
                        && match fc.edges[jj].label {
                        Some(l) => utf8_len(l) <= usize::MAX,
                        None => true,
                    },
                    _ => true,
                },
        decreases m - j,
    {
        let edge = &flowchart.edges[j];
        proof {
            assert(fc.edges[j as int] == edge@);
        }
        match (positions.get(edge.from.as_str()), positions.get(edge.to.as_str())) {
            (Some(f), Some(t)) => {
                proof {
                    lemma_lookup_is_entry(layout, edge.from@);
                    lemma_lookup_is_entry(layout, edge.to@);
                }
                if !edge_fits_exec(f, t, &edge.label, is_horiz) {
                    return false;
                }
            },
            _ => {},
        }
        j = j + 1;
    }
    true
}

} // verus!
