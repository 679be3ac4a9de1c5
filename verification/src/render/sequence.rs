//! Drawing a laid-out sequence diagram: participant boxes, lifelines and
//! message arrows.
use vstd::prelude::*;

use super::canvas::{
    all_cells, blank, hline, lemma_hline_keeps, lemma_hline_shape, lemma_put_keeps, lemma_put_shape,
    law_put_then_read, lemma_put_str_keeps, lemma_put_str_shape, lemma_vline_keeps, lemma_vline_shape, model_wf, put, put_str,
    run_fits, same_shape, vline, Canvas, CanvasModel,
};
use super::flowchart::{
    ascii_text, draw_node_spec, drawing_chars_in, is_ascii_char, label_x, lemma_node_keeps, line_chars, min_int,
    sat_sub,
};
use crate::layout::flowchart::max_int;
use crate::layout::sequence::{SequenceLayout, SequenceLayoutModel};
use crate::layout::{lookup, Position, PositionMap};
use crate::parser::sequence::{MessageModel, MessageStyle, ParticipantModel, SequenceDiagram, SequenceModel};
use crate::text::{chars_all, chars_of, utf8_len, utf8_length, utf8_length_wide};
use crate::RenderOptions;

verus! {

/// The first `n` participant boxes drawn, each that has a position.
pub open spec fn draw_participants(
    c: CanvasModel,
    ps: Seq<ParticipantModel>,
    layout: Seq<(Seq<char>, Position)>,
    ascii: bool,
    n: int,
) -> CanvasModel
    decreases n,
{
    if n <= 0 {
        c
    } else {
        let prev = draw_participants(c, ps, layout, ascii, n - 1);
        match lookup(layout, ps[n - 1].id) {
            Some(p) => draw_node_spec(prev, p, ps[n - 1].label, ascii),
            None => prev,
        }
    }
}

/// The first `n` lifelines drawn: from below each box down to the last row,
/// in the box's centre column.
pub open spec fn draw_lifelines(
    c: CanvasModel,
    ps: Seq<ParticipantModel>,
    layout: Seq<(Seq<char>, Position)>,
    height: int,
    v: char,
    n: int,
) -> CanvasModel
    decreases n,
{
    if n <= 0 {
        c
    } else {
        let prev = draw_lifelines(c, ps, layout, height, v, n - 1);
        match lookup(layout, ps[n - 1].id) {
            Some(p) => vline(
                prev,
                p.x + p.width / 2,
                p.y + p.height,
                sat_sub(height, p.y + p.height),
                v,
            ),
            None => prev,
        }
    }
}

/// `len` cells from `(x, y)` rightwards, alternately `ch` and a space.
pub open spec fn dashed_hline(c: CanvasModel, x: int, y: int, len: int, ch: char) -> CanvasModel
    decreases len,
{
    if len <= 0 {
        c
    } else {
        let c2 = dashed_hline(c, x, y, len - 1, ch);
        put(c2, x + len - 1, y, if (len - 1) % 2 == 0 { ch } else { ' ' })
    }
}

pub open spec fn is_dashed(s: MessageStyle) -> bool {
    s == MessageStyle::Dashed || s == MessageStyle::DashedCross
}

pub open spec fn is_cross(s: MessageStyle) -> bool {
    s == MessageStyle::SolidCross || s == MessageStyle::DashedCross
}

/// A message arrow on row `y` between the lifelines of its two ends (none
/// for a message to oneself or between neighbouring columns): the label
/// centred on the row above, the body solid or dashed, and the head `>`, `<`
/// or `x` next to the receiver's lifeline.
pub open spec fn message_arrow_spec(
    c: CanvasModel,
    f: Position,
    t: Position,
    msg: MessageModel,
    y: int,
    h: char,
) -> CanvasModel {
    let fc = f.x + f.width / 2;
    let tc = t.x + t.width / 2;
    let right_going = fc < tc;
    let left = if right_going {
        fc + 1
    } else {
        tc + 1
    };
    let right = if right_going {
        sat_sub(tc, 1)
    } else {
        sat_sub(fc, 1)
    };
    if fc == tc || right <= left {
        c
    } else {
        let c1 = if msg.label.len() > 0 && y > 0 {
            put_str(c, left + sat_sub(right - left, utf8_len(msg.label) as int) / 2, y - 1, msg.label)
        } else {
            c
        };
        let body_start = if right_going {
            left
        } else {
            left + 1
        };
        let body_end = if right_going {
            sat_sub(right, 1)
        } else {
            right
        };
        let arrow_x = if right_going {
            right
        } else {
            left
        };
        let c2 = if body_end >= body_start {
            if is_dashed(msg.style) {
                dashed_hline(c1, body_start, y, body_end - body_start + 1, h)
            } else {
                hline(c1, body_start, y, body_end - body_start + 1, h)
            }
        } else {
            c1
        };
        let head = if is_cross(msg.style) {
            'x'
        } else if right_going {
            '>'
        } else {
            '<'
        };
        put(c2, arrow_x, y, head)
    }
}

/// The first `n` messages drawn, each on its row, where both ends have positions.
pub open spec fn draw_messages(
    c: CanvasModel,
    ms: Seq<MessageModel>,
    lay: SequenceLayoutModel,
    h: char,
    n: int,
) -> CanvasModel
    decreases n,
{
    if n <= 0 {
        c
    } else {
        let prev = draw_messages(c, ms, lay, h, n - 1);
        match (lookup(lay.participants, ms[n - 1].from), lookup(lay.participants, ms[n - 1].to)) {
            (Some(f), Some(t)) => message_arrow_spec(prev, f, t, ms[n - 1], lay.message_ys[n - 1] as int, h),
            _ => prev,
        }
    }
}

/// The number of messages that get drawn: those with a row.
pub open spec fn drawn_messages(d: SequenceModel, lay: SequenceLayoutModel) -> int {
    min_int(d.messages.len() as int, lay.message_ys.len() as int)
}

/// The width of the drawn diagram: the layout's width, widened to forty
/// columns where it is narrower, and cut to `max_width`.
pub open spec fn sequence_width(lay: SequenceLayoutModel, opts: RenderOptions) -> int {
    min_int(max_int(lay.width as int, 40), opts.max_width as int)
}

/// The drawn diagram: a canvas `sequence_width` columns wide and as tall as
/// the layout, the boxes, the lifelines, then the messages.
pub open spec fn render_sequence(d: SequenceModel, lay: SequenceLayoutModel, opts: RenderOptions) -> CanvasModel {
    let width = sequence_width(lay, opts);
    let (v, h) = line_chars(opts.ascii_only);
    let c0 = blank(width as usize, lay.height);
    let c1 = draw_participants(c0, d.participants, lay.participants, opts.ascii_only, d.participants.len() as int);
    let c2 = draw_lifelines(c1, d.participants, lay.participants, lay.height as int, v, d.participants.len() as int);
    draw_messages(c2, d.messages, lay, h, drawn_messages(d, lay))
}

/// The arithmetic for a participant's box, label and lifeline stays within `usize`.
pub open spec fn participant_fits(pos: Position, label: Seq<char>) -> bool {
    &&& pos.x + pos.width / 2 <= usize::MAX
    &&& pos.y + pos.height <= usize::MAX
    &&& pos.width >= 2 && pos.height >= 2 ==> pos.x + pos.width <= usize::MAX
    &&& run_fits(label_x(pos, label), label.len() as int)
    &&& utf8_len(label) <= usize::MAX
}

/// The arithmetic for a message arrow stays within `usize`.
pub open spec fn message_fits(f: Position, t: Position, msg: MessageModel) -> bool {
    let fc = f.x + f.width / 2;
    let tc = t.x + t.width / 2;
    let left = if fc < tc {
        fc + 1
    } else {
        tc + 1
    };
    let right = if fc < tc {
        sat_sub(tc, 1)
    } else {
        sat_sub(fc, 1)
    };
    &&& fc <= usize::MAX && tc <= usize::MAX
    &&& fc != tc ==> left <= usize::MAX
    &&& fc != tc && right > left && msg.label.len() > 0 ==> utf8_len(msg.label) <= usize::MAX
        && run_fits(left + sat_sub(right - left, utf8_len(msg.label) as int) / 2, msg.label.len() as int)
}

/// The drawing's arithmetic stays within `usize`.
pub open spec fn seq_render_fits(d: SequenceModel, lay: SequenceLayoutModel) -> bool {
    &&& forall|i: int|
        0 <= i < d.participants.len() ==> match lookup(lay.participants, (#[trigger] d.participants[i]).id) {
            Some(p) => participant_fits(p, d.participants[i].label),
            None => true,
        }
    &&& forall|i: int|
        0 <= i < drawn_messages(d, lay) ==> match (
            lookup(lay.participants, (#[trigger] d.messages[i]).from),
            lookup(lay.participants, d.messages[i].to),
        ) {
            (Some(f), Some(t)) => message_fits(f, t, d.messages[i]),
            _ => true,
        }
}

pub proof fn lemma_dashed_keeps(c: CanvasModel, x: int, y: int, len: int, ch: char, p: spec_fn(char) -> bool)
    requires
        model_wf(c),
        all_cells(c, p),
        p(ch),
        p(' '),
    ensures
        all_cells(dashed_hline(c, x, y, len, ch), p),
        same_shape(c, dashed_hline(c, x, y, len, ch)),
    decreases len,
{
    if len > 0 {
        lemma_dashed_keeps(c, x, y, len - 1, ch, p);
        let c2 = dashed_hline(c, x, y, len - 1, ch);
        let put_ch = if (len - 1) % 2 == 0 {
            ch
        } else {
            ' '
        };
        lemma_put_keeps(c2, x + len - 1, y, put_ch, p);
        lemma_put_shape(c2, x + len - 1, y, put_ch);
    }
}

/// Drawing the participant boxes keeps the canvas's size, and keeps every
/// cell in `p` where the drawing chars and the labels are.
pub proof fn lemma_participants_keep(
    c: CanvasModel,
    ps: Seq<ParticipantModel>,
    layout: Seq<(Seq<char>, Position)>,
    ascii: bool,
    n: int,
    p: spec_fn(char) -> bool,
)
    requires
        model_wf(c),
        all_cells(c, p),
        drawing_chars_in(p, ascii),
        n <= ps.len(),
        forall|i: int, k: int| 0 <= i < ps.len() && 0 <= k < ps[i].label.len() ==> #[trigger] p(ps[i].label[k]),
    ensures
        all_cells(draw_participants(c, ps, layout, ascii, n), p),
        same_shape(c, draw_participants(c, ps, layout, ascii, n)),
    decreases n,
{
    if n > 0 {
        lemma_participants_keep(c, ps, layout, ascii, n - 1, p);
        let prev = draw_participants(c, ps, layout, ascii, n - 1);
        if let Some(pos) = lookup(layout, ps[n - 1].id) {
            assert forall|k: int| 0 <= k < ps[n - 1].label.len() implies #[trigger] p(ps[n - 1].label[k]) by {
                assert(p(ps[n - 1].label[k]));
            }
            lemma_node_keeps(prev, pos, ps[n - 1].label, ascii, p);
        }
    }
}

/// Drawing the lifelines keeps the canvas's size, and keeps every cell in
/// `p` where the line char is.
pub proof fn lemma_lifelines_keep(
    c: CanvasModel,
    ps: Seq<ParticipantModel>,
    layout: Seq<(Seq<char>, Position)>,
    height: int,
    v: char,
    n: int,
    p: spec_fn(char) -> bool,
)
    requires
        model_wf(c),
        all_cells(c, p),
        p(v),
    ensures
        all_cells(draw_lifelines(c, ps, layout, height, v, n), p),
        same_shape(c, draw_lifelines(c, ps, layout, height, v, n)),
    decreases n,
{
    if n > 0 {
        lemma_lifelines_keep(c, ps, layout, height, v, n - 1, p);
        let prev = draw_lifelines(c, ps, layout, height, v, n - 1);
        if let Some(q) = lookup(layout, ps[n - 1].id) {
            let len = sat_sub(height, q.y + q.height);
            lemma_vline_keeps(prev, q.x + q.width / 2, q.y + q.height, len, v, p);
            lemma_vline_shape(prev, q.x + q.width / 2, q.y + q.height, len, v);
        }
    }
}

pub proof fn lemma_message_keeps(
    c: CanvasModel,
    f: Position,
    t: Position,
    msg: MessageModel,
    y: int,
    h: char,
    p: spec_fn(char) -> bool,
)
    requires
        model_wf(c),
        all_cells(c, p),
        p(h),
        p(' ') && p('>') && p('<') && p('x'),
        forall|k: int| 0 <= k < msg.label.len() ==> #[trigger] p(msg.label[k]),
    ensures
        all_cells(message_arrow_spec(c, f, t, msg, y, h), p),
        same_shape(c, message_arrow_spec(c, f, t, msg, y, h)),
{
    let fc = f.x + f.width / 2;
    let tc = t.x + t.width / 2;
    let right_going = fc < tc;
    let left = if right_going {
        fc + 1
    } else {
        tc + 1
    };
    let right = if right_going {
        sat_sub(tc, 1)
    } else {
        sat_sub(fc, 1)
    };
    if !(fc == tc || right <= left) {
        let lx = left + sat_sub(right - left, utf8_len(msg.label) as int) / 2;
        let c1 = if msg.label.len() > 0 && y > 0 {
            put_str(c, lx, y - 1, msg.label)
        } else {
            c
        };
        lemma_put_str_keeps(c, lx, y - 1, msg.label, p);
        lemma_put_str_shape(c, lx, y - 1, msg.label);
        let body_start = if right_going {
            left
        } else {
            left + 1
        };
        let body_end = if right_going {
            sat_sub(right, 1)
        } else {
            right
        };
        let arrow_x = if right_going {
            right
        } else {
            left
        };
        let len = body_end - body_start + 1;
        let c2 = if body_end >= body_start {
            if is_dashed(msg.style) {
                dashed_hline(c1, body_start, y, len, h)
            } else {
                hline(c1, body_start, y, len, h)
            }
        } else {
            c1
        };
        lemma_dashed_keeps(c1, body_start, y, len, h, p);
        lemma_hline_keeps(c1, body_start, y, len, h, p);
        lemma_hline_shape(c1, body_start, y, len, h);
        let head = if is_cross(msg.style) {
            'x'
        } else if right_going {
            '>'
        } else {
            '<'
        };
        lemma_put_keeps(c2, arrow_x, y, head, p);
        lemma_put_shape(c2, arrow_x, y, head);
    }
}

/// A message arrow's head sits next to the receiver's lifeline and points
/// at it: `<` just right of the receiver's column where the receiver is to
/// the left, `>` just left of it where the receiver is to the right, for
/// solid and dashed messages alike; a lost message (`-x`, `--x`) ends in `x`
/// there instead. (It holds wherever the two columns are more than two
/// apart, so that the arrow has room for a body.)
pub proof fn law_message_head_points_at_receiver(c: CanvasModel, f: Position, t: Position, msg: MessageModel, y: int, h: char)
    requires
        model_wf(c),
        0 <= y < c.height,
    ensures
        ({
            let fc = f.x + f.width / 2;
            let tc = t.x + t.width / 2;
            let out = message_arrow_spec(c, f, t, msg, y, h);
            &&& tc + 2 < fc && tc + 1 < c.width ==> out.rows[y][tc + 1] == (if is_cross(msg.style) {
                'x'
            } else {
                '<'
            })
            &&& fc + 2 < tc && tc - 1 < c.width ==> out.rows[y][tc - 1] == (if is_cross(msg.style) {
                'x'
            } else {
                '>'
            })
        }),
{
    let fc = f.x + f.width / 2;
    let tc = t.x + t.width / 2;
    let right_going = fc < tc;
    let left = if right_going {
        fc + 1
    } else {
        tc + 1
    };
    let right = if right_going {
        sat_sub(tc, 1)
    } else {
        sat_sub(fc, 1)
    };
    if !(fc == tc || right <= left) {
        let lx = left + sat_sub(right - left, utf8_len(msg.label) as int) / 2;
        let c1 = if msg.label.len() > 0 && y > 0 {
            put_str(c, lx, y - 1, msg.label)
        } else {
            c
        };
        lemma_put_str_shape(c, lx, y - 1, msg.label);
        let body_start = if right_going {
            left
        } else {
            left + 1
        };
        let body_end = if right_going {
            sat_sub(right, 1)
        } else {
            right
        };
        let arrow_x = if right_going {
            right
        } else {
            left
        };
        let len = body_end - body_start + 1;
        let c2 = if body_end >= body_start {
            if is_dashed(msg.style) {
                dashed_hline(c1, body_start, y, len, h)
            } else {
                hline(c1, body_start, y, len, h)
            }
        } else {
            c1
        };
        lemma_dashed_keeps(c1, body_start, y, len, h, |ch: char| true);
        lemma_hline_shape(c1, body_start, y, len, h);
        let head = if is_cross(msg.style) {
            'x'
        } else if right_going {
            '>'
        } else {
            '<'
        };
        assert(c2.width == c.width && c2.height == c.height && model_wf(c2));
        if 0 <= arrow_x < c.width {
            law_put_then_read(c2, arrow_x, y, head, arrow_x, y);
        }
    }
}

/// Drawing the messages keeps the canvas's size, and keeps every cell in `p`
/// where the drawing chars and the labels are.
pub proof fn lemma_messages_keep(
    c: CanvasModel,
    ms: Seq<MessageModel>,
    lay: SequenceLayoutModel,
    h: char,
    n: int,
    p: spec_fn(char) -> bool,
)
    requires
        model_wf(c),
        all_cells(c, p),
        p(h),
        p(' ') && p('>') && p('<') && p('x'),
        n <= ms.len(),
        forall|i: int, k: int| 0 <= i < ms.len() && 0 <= k < ms[i].label.len() ==> #[trigger] p(ms[i].label[k]),
    ensures
        all_cells(draw_messages(c, ms, lay, h, n), p),
        same_shape(c, draw_messages(c, ms, lay, h, n)),
    decreases n,
{
    if n > 0 {
        lemma_messages_keep(c, ms, lay, h, n - 1, p);
        let prev = draw_messages(c, ms, lay, h, n - 1);
        match (lookup(lay.participants, ms[n - 1].from), lookup(lay.participants, ms[n - 1].to)) {
            (Some(f), Some(t)) => {
                assert forall|k: int| 0 <= k < ms[n - 1].label.len() implies #[trigger] p(ms[n - 1].label[k]) by {
                    assert(p(ms[n - 1].label[k]));
                }
                lemma_message_keeps(prev, f, t, ms[n - 1], lay.message_ys[n - 1] as int, h, p);
            },
            _ => {},
        }
    }
}

/// The drawn sequence diagram fits the requested width: it is the layout's
/// width (at least forty columns) cut to `max_width`, and exactly as tall as
/// the layout.
pub proof fn law_sequence_fits_width(d: SequenceModel, lay: SequenceLayoutModel, opts: RenderOptions)
    ensures
        model_wf(render_sequence(d, lay, opts)),
        render_sequence(d, lay, opts).width as int == sequence_width(lay, opts),
        render_sequence(d, lay, opts).height == lay.height,
        render_sequence(d, lay, opts).width <= opts.max_width,
{
    let width = sequence_width(lay, opts);
    let (v, h) = line_chars(opts.ascii_only);
    let c0 = blank(width as usize, lay.height);
    let p = |ch: char| true;
    assert(drawing_chars_in(p, opts.ascii_only));
    lemma_participants_keep(c0, d.participants, lay.participants, opts.ascii_only, d.participants.len() as int, p);
    let c1 = draw_participants(c0, d.participants, lay.participants, opts.ascii_only, d.participants.len() as int);
    lemma_lifelines_keep(c1, d.participants, lay.participants, lay.height as int, v, d.participants.len() as int, p);
    let c2 = draw_lifelines(c1, d.participants, lay.participants, lay.height as int, v, d.participants.len() as int);
    lemma_messages_keep(c2, d.messages, lay, h, drawn_messages(d, lay), p);
}

/// Whatever holds of the drawing chars and of every label char holds of
/// every cell of the drawn sequence diagram.
pub proof fn lemma_sequence_cells(d: SequenceModel, lay: SequenceLayoutModel, opts: RenderOptions, p: spec_fn(char) -> bool)
    requires
        drawing_chars_in(p, opts.ascii_only),
        forall|i: int| 0 <= i < d.participants.len() ==> chars_all(#[trigger] d.participants[i].label, p),
        forall|j: int| 0 <= j < d.messages.len() ==> chars_all(#[trigger] d.messages[j].label, p),
    ensures
        all_cells(render_sequence(d, lay, opts), p),
{
    let width = sequence_width(lay, opts);
    let (v, h) = line_chars(opts.ascii_only);
    let c0 = blank(width as usize, lay.height);
    assert forall|i: int, k: int| 0 <= i < d.participants.len() && 0 <= k < d.participants[i].label.len() implies #[trigger] p(
        d.participants[i].label[k],
    ) by {
        assert(chars_all(d.participants[i].label, p));
    }
    assert forall|i: int, k: int| 0 <= i < d.messages.len() && 0 <= k < d.messages[i].label.len() implies #[trigger] p(
        d.messages[i].label[k],
    ) by {
        assert(chars_all(d.messages[i].label, p));
    }
    lemma_participants_keep(c0, d.participants, lay.participants, opts.ascii_only, d.participants.len() as int, p);
    let c1 = draw_participants(c0, d.participants, lay.participants, opts.ascii_only, d.participants.len() as int);
    lemma_lifelines_keep(c1, d.participants, lay.participants, lay.height as int, v, d.participants.len() as int, p);
    let c2 = draw_lifelines(c1, d.participants, lay.participants, lay.height as int, v, d.participants.len() as int);
    lemma_messages_keep(c2, d.messages, lay, h, drawn_messages(d, lay), p);
}

/// In ASCII mode, a sequence diagram whose labels are ASCII is drawn in
/// ASCII alone: no box-drawing char appears.
pub proof fn law_sequence_ascii(d: SequenceModel, lay: SequenceLayoutModel, opts: RenderOptions)
    requires
        opts.ascii_only,
        forall|i: int| 0 <= i < d.participants.len() ==> ascii_text(#[trigger] d.participants[i].label),
        forall|j: int| 0 <= j < d.messages.len() ==> ascii_text(#[trigger] d.messages[j].label),
    ensures
        all_cells(render_sequence(d, lay, opts), |ch: char| is_ascii_char(ch)),
{
    let p = |ch: char| is_ascii_char(ch);
    assert(drawing_chars_in(p, true));
    assert forall|i: int| 0 <= i < d.participants.len() implies chars_all(#[trigger] d.participants[i].label, p) by {
        assert(ascii_text(d.participants[i].label));
    }
    assert forall|j: int| 0 <= j < d.messages.len() implies chars_all(#[trigger] d.messages[j].label, p) by {
        assert(ascii_text(d.messages[j].label));
    }
    lemma_sequence_cells(d, lay, opts, p);
}

fn label_len(label: &String) -> (n: usize)
    requires
        utf8_len(label@) <= usize::MAX,
    ensures
        n == utf8_len(label@),
{
    let cs = chars_of(label.as_str());
    utf8_length(cs.as_slice())
}

fn dashed_line(canvas: &mut Canvas, x: usize, y: usize, len: usize, ch: char)
    requires
        old(canvas).wf(),
        run_fits(x as int, len as int),
    ensures
        final(canvas).wf(),
        final(canvas)@ == dashed_hline(old(canvas)@, x as int, y as int, len as int, ch),
{
    let mut offset: usize = 0;
    while offset < len
        invariant
            canvas.wf(),
            0 <= offset <= len,
            run_fits(x as int, len as int),
            canvas@ == dashed_hline(old(canvas)@, x as int, y as int, offset as int, ch),
        decreases len - offset,
    {
        if offset % 2 == 0 {
            canvas.set(x + offset, y, ch);
        } else {
            canvas.set(x + offset, y, ' ');
        }
        offset = offset + 1;
    }
}

fn draw_message(canvas: &mut Canvas, from_pos: Position, to_pos: Position, msg: &crate::parser::sequence::Message, y: usize, h_char: char)
    requires
        old(canvas).wf(),
        message_fits(from_pos, to_pos, msg@),
    ensures
        final(canvas).wf(),
        final(canvas)@ == message_arrow_spec(old(canvas)@, from_pos, to_pos, msg@, y as int, h_char),
{
    let from_center = from_pos.x + from_pos.width / 2;
    let to_center = to_pos.x + to_pos.width / 2;
    if from_center == to_center {
        return ;
    }
    let going_right = from_center < to_center;
    let (left_x, right_x) = if going_right {
        (from_center + 1, if to_center >= 1 { to_center - 1 } else { 0 })
    } else {
        (to_center + 1, if from_center >= 1 { from_center - 1 } else { 0 })
    };
    if right_x <= left_x {
        return ;
    }
    // Label above the arrow
    let label_empty = msg.label.as_str().is_empty();
    if !label_empty && y > 0 {
        let span = right_x - left_x;
        let len = label_len(&msg.label);
        let gap = if span >= len {
            span - len
        } else {
            0
        };
        let label_x = left_x + gap / 2;
        canvas.write_str(label_x, y - 1, msg.label.as_str());
    }
    // Arrow body (excluding arrowhead position)
    let (body_start, body_end, arrow_x) = if going_right {
        (left_x, if right_x >= 1 { right_x - 1 } else { 0 }, right_x)
    } else {
        (left_x + 1, right_x, left_x)
    };
    if body_end >= body_start {
        match msg.style {
            MessageStyle::Solid | MessageStyle::SolidCross => {
                canvas.hline(body_start, y, body_end - body_start + 1, h_char);
            },
            MessageStyle::Dashed | MessageStyle::DashedCross => {
                dashed_line(canvas, body_start, y, body_end - body_start + 1, h_char);
            },
        }
    }
    // Arrowhead
    let arrow_char = match msg.style {
        MessageStyle::Solid | MessageStyle::Dashed => {
            if going_right {
                '>'
            } else {
                '<'
            }
        },
        MessageStyle::SolidCross | MessageStyle::DashedCross => 'x',
    };
    canvas.set(arrow_x, y, arrow_char);
}

/// Renders a laid-out sequence diagram to a character canvas.
pub fn render(diagram: &SequenceDiagram, layout: &SequenceLayout, opts: &RenderOptions) -> (canvas: Canvas)
    requires
        seq_render_fits(diagram@, layout@),
    ensures
        canvas.wf(),
        canvas@ == render_sequence(diagram@, layout@, *opts),
{
    let ghost d = diagram@;
    let ghost lay = layout@;
    let w0 = if layout.width >= 40 {
        layout.width
    } else {
        40
    };
    let width = if w0 <= opts.max_width {
        w0
    } else {
        opts.max_width
    };
    let mut canvas = Canvas::new(width, layout.height);
    let (v_char, h_char) = if opts.ascii_only {
        ('|', '-')
    } else {
        ('\u{2502}', '\u{2500}')
    };
    // Draw participant boxes at the top
    let n = diagram.participants.len();
    let mut i: usize = 0;
    while i < n
        invariant
            0 <= i <= n,
            n == d.participants.len(),
            d == diagram@,
            lay == layout@,
            seq_render_fits(d, lay),
            canvas.wf(),
            canvas@ == draw_participants(blank(width, lay.height), d.participants, lay.participants, opts.ascii_only, i as int),
        decreases n - i,
    {
        let participant = &diagram.participants[i];
        proof {
            assert(d.participants[i as int] == participant@);
        }
        if let Some(pos) = layout.participants.get(participant.id.as_str()) {
            canvas.draw_box(pos.x, pos.y, pos.width, pos.height, opts.ascii_only);
            let len = label_len(&participant.label);
            let gap = if pos.width >= len {
                pos.width - len
            } else {
                0
            };
            let label_x = pos.x + gap / 2;
            let label_y = pos.y + pos.height / 2;
            canvas.write_str(label_x, label_y, participant.label.as_str());
        }
        i = i + 1;
    }
    // Draw lifelines below participant boxes
    let ghost c1 = canvas@;
    let mut i: usize = 0;
    while i < n
        invariant
            0 <= i <= n,
            n == d.participants.len(),
            d == diagram@,
            lay == layout@,
            seq_render_fits(d, lay),
            (v_char, h_char) == line_chars(opts.ascii_only),
            canvas.wf(),
            canvas@ == draw_lifelines(c1, d.participants, lay.participants, lay.height as int, v_char, i as int),
        decreases n - i,
    {
        let participant = &diagram.participants[i];
        proof {
            assert(d.participants[i as int] == participant@);
        }
        if let Some(pos) = layout.participants.get(participant.id.as_str()) {
            let center_x = pos.x + pos.width / 2;
            let lifeline_start = pos.y + pos.height;
            let len = if layout.height >= lifeline_start {
                layout.height - lifeline_start
            } else {
                0
            };
            canvas.vline(center_x, lifeline_start, len, v_char);
        }
        i = i + 1;
    }
    // Draw message arrows
    let ghost c2 = canvas@;
    let m = diagram.messages.len();
    let ys = layout.message_ys.len();
    let count = if m <= ys {
        m
    } else {
        ys
    };
    let mut i: usize = 0;
    while i < count
        invariant
            0 <= i <= count,
            count == drawn_messages(d, lay),
            m == d.messages.len(),
            ys == lay.message_ys.len(),
            d == diagram@,
            lay == layout@,
            seq_render_fits(d, lay),
            (v_char, h_char) == line_chars(opts.ascii_only),
            canvas.wf(),
            canvas@ == draw_messages(c2, d.messages, lay, h_char, i as int),
        decreases count - i,
    {
        let msg = &diagram.messages[i];
        let y = layout.message_ys[i];
        proof {
            assert(d.messages[i as int] == msg@);
        }
        let from_pos = layout.participants.get(msg.from.as_str());
        let to_pos = layout.participants.get(msg.to.as_str());
        match (from_pos, to_pos) {
            (Some(from_pos), Some(to_pos)) => {
                draw_message(&mut canvas, from_pos, to_pos, msg, y, h_char);
            },
            _ => {},
        }
        i = i + 1;
    }
    canvas
}

/// Whether `run_fits(x, n)`, for values that fit in `u128`.
fn run_fits_wide(x: u128, n: u128) -> (b: bool)
    requires
        x <= 8 * usize::MAX,
        n <= 8 * usize::MAX,
    ensures
        b == run_fits(x as int, n as int),
{
    n == 0 || x + n - 1 <= usize::MAX as u128
}

fn participant_fits_exec(pos: Position, label: &String) -> (b: bool)
    ensures
        b == participant_fits(pos, label@),
{
    let max = usize::MAX as u128;
    let cs = chars_of(label.as_str());
    let bytes = utf8_length_wide(cs.as_slice());
    let x = pos.x as u128;
    let w = pos.width as u128;
    let gap = if w >= bytes {
        w - bytes
    } else {
        0
    };
    x + w / 2 <= max && pos.y as u128 + pos.height as u128 <= max && (!(w >= 2 && pos.height >= 2)
        || x + w <= max) && run_fits_wide(x + gap / 2, cs.len() as u128) && bytes <= max
}

fn message_fits_exec(f: Position, t: Position, msg: &crate::parser::sequence::Message) -> (b: bool)
    ensures
        b == message_fits(f, t, msg@),
{
    let max = usize::MAX as u128;
    let fc = f.x as u128 + f.width as u128 / 2;
    let tc = t.x as u128 + t.width as u128 / 2;
    let left = if fc < tc {
        fc + 1
    } else {
        tc + 1
    };
    let right = if fc < tc {
        if tc >= 1 {
            tc - 1
        } else {
            0
        }
    } else {
        if fc >= 1 {
            fc - 1
        } else {
            0
        }
    };
    if fc > max || tc > max {
        return false;
    }
    if fc != tc && left > max {
        return false;
    }
    let cs = chars_of(msg.label.as_str());
    if fc != tc && right > left && cs.len() > 0 {
        let bytes = utf8_length_wide(cs.as_slice());
        let span = right - left;
        let gap = if span >= bytes {
            span - bytes
        } else {
            0
        };
        bytes <= max && run_fits_wide(left + gap / 2, cs.len() as u128)
    } else {
        true
    }
}

/// Whether `render` can draw the diagram with this layout without
/// overflowing `usize`.
pub fn render_fits(diagram: &SequenceDiagram, layout: &SequenceLayout) -> (b: bool)
    ensures
        b == seq_render_fits(diagram@, layout@),
{
    let ghost d = diagram@;
    let ghost lay = layout@;
    let n = diagram.participants.len();
    let mut i: usize = 0;
    while i < n
        invariant
            0 <= i <= n,
            n == d.participants.len(),
            d == diagram@,
            lay == layout@,
            forall|j: int|
                0 <= j < i ==> match lookup(lay.participants, (#[trigger] d.participants[j]).id) {
                    Some(p) => participant_fits(p, d.participants[j].label),
                    None => true,
                },
        decreases n - i,
    {
        let participant = &diagram.participants[i];
        proof {
            assert(d.participants[i as int] == participant@);
        }
        if let Some(pos) = layout.participants.get(participant.id.as_str()) {
            if !participant_fits_exec(pos, &participant.label) {
                return false;
            }
        }
        i = i + 1;
    }
    let m = diagram.messages.len();
    let ys = layout.message_ys.len();
    let count = if m <= ys {
        m
    } else {
        ys
    };
    let mut i: usize = 0;
    while i < count
        invariant
            0 <= i <= count,
            count == drawn_messages(d, lay),
            m == d.messages.len(),
            d == diagram@,
            lay == layout@,
            forall|j: int|
                0 <= j < d.participants.len() ==> match lookup(lay.participants, (#[trigger] d.participants[j]).id) {
                    Some(p) => participant_fits(p, d.participants[j].label),
                    None => true,
                },
            forall|j: int|
                0 <= j < i ==> match (
                    lookup(lay.participants, (#[trigger] d.messages[j]).from),
                    lookup(lay.participants, d.messages[j].to),
                ) {
                    (Some(f), Some(t)) => message_fits(f, t, d.messages[j]),
                    _ => true,
                },
        decreases count - i,
    {
        let msg = &diagram.messages[i];
        proof {
            assert(d.messages[i as int] == msg@);
        }
        match (layout.participants.get(msg.from.as_str()), layout.participants.get(msg.to.as_str())) {
            (Some(f), Some(t)) => {
                if !message_fits_exec(f, t, msg) {
                    return false;
                }
            },
            _ => {},
        }
        i = i + 1;
    }
    true
}

} // verus!
