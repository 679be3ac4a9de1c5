//! Column layout of sequence diagrams.
use vstd::prelude::*;

use super::{insert_entry, lemma_lookup_insert, lookup, Position, PositionMap};
use crate::layout::flowchart::max_int;
use crate::parser::sequence::{
    has_participant, participant_ids_distinct, MessageModel, ParticipantModel, SequenceDiagram, SequenceModel,
};
use crate::text::{chars_of, utf8_len, utf8_length, utf8_length_wide};
use crate::RenderOptions;

verus! {

/// Positions for sequence diagram elements.
#[derive(Debug)]
pub struct SequenceLayout {
    /// Column positions for each participant (by ID).
    pub participants: PositionMap,
    /// Y position for each message (parallel to `SequenceDiagram::messages`).
    pub message_ys: Vec<usize>,
    /// Total width and height of the diagram.
    pub width: usize,
    pub height: usize,
}

/// What a `SequenceLayout` holds.
pub struct SequenceLayoutModel {
    pub participants: Seq<(Seq<char>, Position)>,
    pub message_ys: Seq<usize>,
    pub width: usize,
    pub height: usize,
}

impl View for SequenceLayout {
    type V = SequenceLayoutModel;

    open spec fn view(&self) -> SequenceLayoutModel {
        SequenceLayoutModel {
            participants: self.participants@,
            message_ys: self.message_ys@,
            width: self.width,
            height: self.height,
        }
    }
}

/// The width of a participant's box: its label's bytes and four columns of
/// padding, at least eight columns.
pub open spec fn box_width(p: ParticipantModel) -> int {
    max_int(utf8_len(p.label) + 4int, 8int)
}

/// The widest of the first `n` boxes (eight where there is none).
pub open spec fn widest_box(ps: Seq<ParticipantModel>, n: int) -> int
    decreases n,
{
    if n <= 0 {
        8
    } else {
        max_int(widest_box(ps, n - 1), box_width(ps[n - 1]))
    }
}

/// The longest of the first `n` message labels, in bytes (zero where there is none).
pub open spec fn longest_label(ms: Seq<MessageModel>, n: int) -> int
    decreases n,
{
    if n <= 0 {
        0
    } else {
        max_int(longest_label(ms, n - 1), utf8_len(ms[n - 1].label) as int)
    }
}

/// The distance between the centres of neighbouring participants: room for
/// the widest box and the longest label, and at least twenty columns.
pub open spec fn column_spacing(d: SequenceModel) -> int {
    let maxb = widest_box(d.participants, d.participants.len() as int);
    let maxm = longest_label(d.messages, d.messages.len() as int);
    max_int(max_int(maxb + 4, maxm + 6), 20)
}

/// The centre column of participant `i`.
pub open spec fn participant_center(d: SequenceModel, i: int) -> int {
    1 + widest_box(d.participants, d.participants.len() as int) / 2 + i * column_spacing(d)
}

/// Where participant `i`'s box goes: on row 0, centred on its column.
pub open spec fn participant_position(d: SequenceModel, i: int) -> Position {
    let w = box_width(d.participants[i]);
    let c = participant_center(d, i);
    Position {
        x: (if c >= w / 2 {
            c - w / 2
        } else {
            0
        }) as usize,
        y: 0,
        width: w as usize,
        height: 3,
    }
}

/// The positions of the first `n` participants, each recorded under its id.
pub open spec fn seq_positions_upto(d: SequenceModel, n: int) -> Seq<(Seq<char>, Position)>
    decreases n,
{
    if n <= 0 {
        Seq::empty()
    } else {
        insert_entry(
            seq_positions_upto(d, n - 1),
            d.participants[n - 1].id,
            participant_position(d, n - 1),
        )
    }
}

/// The layout of a sequence diagram: boxes on the top three rows, one row
/// pair per message from row 4 down, and the overall size.
pub open spec fn seq_layout(d: SequenceModel) -> SequenceLayoutModel {
    let n = d.participants.len() as int;
    let m = d.messages.len() as int;
    if n == 0 {
        SequenceLayoutModel { participants: Seq::empty(), message_ys: Seq::empty(), width: 40, height: 5 }
    } else {
        SequenceLayoutModel {
            participants: seq_positions_upto(d, n),
            message_ys: Seq::new(m as nat, |i: int| (4 + 2 * i) as usize),
            width: (participant_center(d, n - 1) + box_width(d.participants[n - 1]) / 2 + 2) as usize,
            height: (if m == 0 {
                5
            } else {
                2 * m + 4
            }) as usize,
        }
    }
}

/// The layout's arithmetic stays within `usize`.
pub open spec fn seq_layout_fits(d: SequenceModel) -> bool {
    let n = d.participants.len() as int;
    let m = d.messages.len() as int;
    n > 0 ==> {
        &&& forall|i: int| 0 <= i < n ==> utf8_len(#[trigger] d.participants[i].label) + 4 <= usize::MAX
        &&& longest_label(d.messages, m) + 6 <= usize::MAX
        &&& widest_box(d.participants, n) + 4 <= usize::MAX
        &&& participant_center(d, n - 1) + box_width(d.participants[n - 1]) / 2 + 2 <= usize::MAX
        &&& 2 * m + 4 <= usize::MAX
    }
}

pub proof fn lemma_widest_box_bounds(ps: Seq<ParticipantModel>, n: int, i: int)
    requires
        0 <= i < n <= ps.len(),
    ensures
        widest_box(ps, n) >= box_width(ps[i]),
    decreases n,
{
    if i < n - 1 {
        lemma_widest_box_bounds(ps, n - 1, i);
    }
}

pub proof fn lemma_longest_label_nonneg(ms: Seq<MessageModel>, n: int)
    ensures
        longest_label(ms, n) >= 0,
    decreases n,
{
    if n > 0 {
        lemma_longest_label_nonneg(ms, n - 1);
    }
}

pub proof fn lemma_longest_label_bounds(ms: Seq<MessageModel>, n: int, i: int)
    requires
        0 <= i < n <= ms.len(),
    ensures
        longest_label(ms, n) >= utf8_len(ms[i].label),
    decreases n,
{
    if i < n - 1 {
        lemma_longest_label_bounds(ms, n - 1, i);
    }
}

proof fn lemma_positions_upto_lookup(d: SequenceModel, n: int, i: int)
    requires
        participant_ids_distinct(d.participants),
        0 <= i < n <= d.participants.len(),
    ensures
        lookup(seq_positions_upto(d, n), d.participants[i].id) == Some(participant_position(d, i)),
    decreases n,
{
    let prev = seq_positions_upto(d, n - 1);
    lemma_lookup_insert(prev, d.participants[n - 1].id, participant_position(d, n - 1), d.participants[i].id);
    if i < n - 1 {
        lemma_positions_upto_lookup(d, n - 1, i);
    }
}

proof fn lemma_positions_upto_keys(d: SequenceModel, n: int, id: Seq<char>)
    requires
        0 <= n <= d.participants.len(),
    ensures
        lookup(seq_positions_upto(d, n), id) is Some ==> has_participant(d.participants, id),
    decreases n,
{
    if n > 0 {
        let prev = seq_positions_upto(d, n - 1);
        lemma_lookup_insert(prev, d.participants[n - 1].id, participant_position(d, n - 1), id);
        lemma_positions_upto_keys(d, n - 1, id);
        if id == d.participants[n - 1].id {
            assert(d.participants[n - 1].id == id);
        }
    }
}

/// Every participant of a diagram with distinct ids (as parsing gives, see
/// `law_sequence_cast_consistent`) is placed where `participant_position`
/// puts it, and nothing else is placed.
pub proof fn law_sequence_layout_places_participants(d: SequenceModel, id: Seq<char>)
    requires
        participant_ids_distinct(d.participants),
    ensures
        forall|i: int|
            0 <= i < d.participants.len() ==> lookup(seq_layout(d).participants, #[trigger] d.participants[i].id)
                == Some(participant_position(d, i)),
        lookup(seq_layout(d).participants, id) is Some <==> has_participant(d.participants, id),
{
    let n = d.participants.len() as int;
    assert forall|i: int| 0 <= i < n implies lookup(seq_layout(d).participants, #[trigger] d.participants[i].id)
        == Some(participant_position(d, i)) by {
        lemma_positions_upto_lookup(d, n, i);
    }
    lemma_positions_upto_keys(d, n, id);
    if has_participant(d.participants, id) {
        let i = choose|i: int| 0 <= i < n && #[trigger] d.participants[i].id == id;
        lemma_positions_upto_lookup(d, n, i);
    }
}

proof fn lemma_widest_box_at_least(ps: Seq<ParticipantModel>, n: int)
    ensures
        widest_box(ps, n) >= 8,
    decreases n,
{
    if n > 0 {
        lemma_widest_box_at_least(ps, n - 1);
    }
}

/// Participant boxes stand side by side on the top three rows, left to right
/// in declaration order, at least four columns apart, and the diagram is
/// wider than the right edge of every box. Each box is centred on its
/// participant's column, and neighbouring columns are `column_spacing` apart:
/// room for the widest box plus four and the longest message label plus six.
pub proof fn law_sequence_layout_columns(d: SequenceModel, i: int, j: int)
    requires
        seq_layout_fits(d),
        0 <= i < j < d.participants.len(),
    ensures
        ({
            let a = participant_position(d, i);
            let b = participant_position(d, j);
            &&& a.y == 0 && b.y == 0 && a.height == 3 && b.height == 3
            &&& a.x + a.width + 4 <= b.x
            &&& b.x + b.width < seq_layout(d).width
            &&& a.x + a.width / 2 == participant_center(d, i) && b.x + b.width / 2 == participant_center(d, j)
            &&& participant_center(d, j) - participant_center(d, i) == (j - i) * column_spacing(d)
            &&& column_spacing(d) >= widest_box(d.participants, d.participants.len() as int) + 4
            &&& column_spacing(d) >= longest_label(d.messages, d.messages.len() as int) + 6
        }),
{
    let n = d.participants.len() as int;
    let maxb = widest_box(d.participants, n);
    let sp = column_spacing(d);
    let wi = box_width(d.participants[i]);
    let wj = box_width(d.participants[j]);
    let wl = box_width(d.participants[n - 1]);
    lemma_widest_box_bounds(d.participants, n, i);
    lemma_widest_box_bounds(d.participants, n, j);
    lemma_widest_box_bounds(d.participants, n, n - 1);
    lemma_widest_box_at_least(d.participants, n);
    lemma_longest_label_nonneg(d.messages, d.messages.len() as int);
    assert(utf8_len(d.participants[i].label) + 4 <= usize::MAX);
    assert(utf8_len(d.participants[j].label) + 4 <= usize::MAX);
    assert(sp >= maxb + 4);
    assert(j * sp - i * sp == (j - i) * sp) by (nonlinear_arith);
    assert(i * sp + sp <= j * sp && j * sp <= (n - 1) * sp) by (nonlinear_arith)
        requires
            0 <= i < j <= n - 1,
            sp >= 0,
    ;
    assert(j * sp + sp <= (n - 1) * sp || j == n - 1) by (nonlinear_arith)
        requires
            0 <= j <= n - 1,
            sp >= 0,
    ;
    let ci = participant_center(d, i);
    let cj = participant_center(d, j);
    let cl = participant_center(d, n - 1);
    assert(ci >= wi / 2 && cj >= wj / 2);
    assert(wi - wi / 2 <= maxb - maxb / 2);
    assert(cj - ci >= sp);
    assert(cl >= cj);
    assert(cl + wl / 2 + 2 <= usize::MAX);
    if j < n - 1 {
        assert(cl - cj >= sp);
    }
}

/// Message `k` sits on row `4 + 2k`: below the participant boxes, each
/// message two rows under the one before, and above the diagram's last row.
pub proof fn law_sequence_message_rows(d: SequenceModel, k: int)
    requires
        seq_layout_fits(d),
        0 <= k < seq_layout(d).message_ys.len(),
    ensures
        seq_layout(d).message_ys.len() == d.messages.len(),
        seq_layout(d).message_ys[k] == 4 + 2 * k,
        seq_layout(d).message_ys[k] < seq_layout(d).height,
        k > 0 ==> seq_layout(d).message_ys[k - 1] < seq_layout(d).message_ys[k],
{
}

fn padded_width(label: &String, pad: usize, min: usize) -> (w: usize)
    requires
        utf8_len(label@) + pad <= usize::MAX,
    ensures
        w == max_int(utf8_len(label@) + pad, min as int),
{
    let cs = chars_of(label.as_str());
    let n = utf8_length(cs.as_slice()) + pad;
    if n > min {
        n
    } else {
        min
    }
}

fn label_bytes(label: &String) -> (n: usize)
    requires
        utf8_len(label@) <= usize::MAX,
    ensures
        n == utf8_len(label@),
{
    let cs = chars_of(label.as_str());
    utf8_length(cs.as_slice())
}

/// Lays out a sequence diagram.
///
/// Participants are spaced by the widest box and longest message label.
/// Messages flow top to bottom with uniform row height.
pub fn layout(diagram: &SequenceDiagram, _opts: &RenderOptions) -> (r: SequenceLayout)
    requires
        seq_layout_fits(diagram@),
    ensures
        r@ == seq_layout(diagram@),
{
    let ghost d = diagram@;
    let participant_height: usize = 3;
    let message_row_height: usize = 2;
    let box_padding: usize = 4;
    let left_margin: usize = 1;
    let n = diagram.participants.len();
    let m = diagram.messages.len();

    if n == 0 {
        let r = SequenceLayout {
            participants: PositionMap::new(),
            message_ys: Vec::new(),
            width: 40,
            height: participant_height + 2,
        };
        proof {
            assert(r@.message_ys =~= Seq::<usize>::empty());
        }
        return r;
    }
    // Box widths from label lengths
    let mut box_widths: Vec<usize> = Vec::new();
    let mut max_box_width: usize = 8;
    let mut k: usize = 0;
    while k < n
        invariant
            0 <= k <= n,
            n == d.participants.len(),
            d == diagram@,
            seq_layout_fits(d),
            box_padding == 4,
            box_widths@.len() == k,
            forall|j: int| 0 <= j < k ==> box_widths@[j] == box_width(#[trigger] d.participants[j]),
            max_box_width == widest_box(d.participants, k as int),
        decreases n - k,
    {
        proof {
            assert(d.participants[k as int] == diagram.participants@[k as int]@);
            assert(utf8_len(d.participants[k as int].label) + 4 <= usize::MAX);
        }
        let w = padded_width(&diagram.participants[k].label, box_padding, 8);
        box_widths.push(w);
        if w > max_box_width {
            max_box_width = w;
        }
        k = k + 1;
    }
    // Max message label length drives minimum column spacing
    let mut max_msg_label: usize = 0;
    let mut k: usize = 0;
    while k < m
        invariant
            0 <= k <= m,
            m == d.messages.len(),
            n == d.participants.len(),
            n > 0,
            d == diagram@,
            seq_layout_fits(d),
            max_msg_label == longest_label(d.messages, k as int),
        decreases m - k,
    {
        proof {
            assert(d.messages[k as int] == diagram.messages@[k as int]@);
            lemma_longest_label_bounds(d.messages, m as int, k as int);
        }
        let len = label_bytes(&diagram.messages[k].label);
        if len > max_msg_label {
            max_msg_label = len;
        }
        k = k + 1;
    }
    proof {
        lemma_longest_label_nonneg(d.messages, m as int);
    }
    // Center-to-center distance between adjacent participants
    let a = max_box_width + 4;
    let b = max_msg_label + 6;
    let ab = if a > b {
        a
    } else {
        b
    };
    let col_spacing = if ab > 20 {
        ab
    } else {
        20
    };
    assert(col_spacing == column_spacing(d));

    // Place participants at uniform center spacing
    let mut participant_positions = PositionMap::new();
    let mut i: usize = 0;
    while i < n
        invariant
            0 <= i <= n,
            n == d.participants.len(),
            n > 0,
            d == diagram@,
            seq_layout_fits(d),
            left_margin == 1,
            participant_height == 3,
            box_widths@.len() == n,
            forall|j: int| 0 <= j < n ==> box_widths@[j] == box_width(#[trigger] d.participants[j]),
            max_box_width == widest_box(d.participants, n as int),
            col_spacing == column_spacing(d),
            participant_positions@ == seq_positions_upto(d, i as int),
        decreases n - i,
    {
        proof {
            assert(i * col_spacing <= (n - 1) * col_spacing) by (nonlinear_arith)
                requires
                    i < n,
            ;
            assert(d.participants[i as int] == diagram.participants@[i as int]@);
        }
        let center_x = left_margin + max_box_width / 2 + i * col_spacing;
        let half = box_widths[i] / 2;
        let x = if center_x >= half {
            center_x - half
        } else {
            0
        };
        let pos = Position { x, y: 0, width: box_widths[i], height: participant_height };
        proof {
            assert(participant_position(d, i as int) == pos);
        }
        participant_positions.insert(diagram.participants[i].id.clone(), pos);
        i = i + 1;
    }

    // Message y positions
    let mut message_ys: Vec<usize> = Vec::new();
    let mut i: usize = 0;
    while i < m
        invariant
            0 <= i <= m,
            m == d.messages.len(),
            n == d.participants.len(),
            n > 0,
            seq_layout_fits(d),
            participant_height == 3,
            message_row_height == 2,
            message_ys@.len() == i,
            forall|j: int| 0 <= j < i ==> message_ys@[j] == 4 + 2 * j,
        decreases m - i,
    {
        assert(i * message_row_height == 2 * i);
        message_ys.push(participant_height + 1 + i * message_row_height);
        i = i + 1;
    }
    let total_height = if m == 0 {
        participant_height + 2
    } else {
        message_ys[m - 1] + 2
    };
    let last_center = left_margin + max_box_width / 2 + (n - 1) * col_spacing;
    let last_half = box_widths[n - 1] / 2;
    let total_width = last_center + last_half + 2;
    let r = SequenceLayout {
        participants: participant_positions,
        message_ys,
        width: total_width,
        height: total_height,
    };
    proof {
        assert(r@.message_ys =~= Seq::new(m as nat, |i: int| (4 + 2 * i) as usize));
    }
    r
}

/// Whether `layout` can lay out the diagram without overflowing `usize`.
pub fn layout_fits(diagram: &SequenceDiagram) -> (b: bool)
    ensures
        b == seq_layout_fits(diagram@),
{
    let ghost d = diagram@;
    let n = diagram.participants.len();
    let m = diagram.messages.len();
    if n == 0 {
        return true;
    }
    let max = usize::MAX as u128;
    let mut widest: u128 = 8;
    let mut last_box: u128 = 8;
    let mut k: usize = 0;
    while k < n
        invariant
            0 <= k <= n,
            n == d.participants.len(),
            d == diagram@,
            max == usize::MAX,
            forall|j: int| 0 <= j < k ==> utf8_len(#[trigger] d.participants[j].label) + 4 <= usize::MAX,
            widest == widest_box(d.participants, k as int),
            k > 0 ==> last_box == box_width(d.participants[k - 1]),
            widest <= max,
            last_box <= max,
        decreases n - k,
    {
        proof {
            assert(d.participants[k as int] == diagram.participants@[k as int]@);
        }
        let cs = chars_of(diagram.participants[k].label.as_str());
        let len = utf8_length_wide(cs.as_slice());
        if len + 4 > max {
            proof {
                assert(!(utf8_len(d.participants[k as int].label) + 4 <= usize::MAX));
            }
            return false;
        }
        let w = if len + 4 > 8 {
            len + 4
        } else {
            8
        };
        last_box = w;
        if w > widest {
            widest = w;
        }
        k = k + 1;
    }
    let mut longest: u128 = 0;
    let mut k: usize = 0;
    while k < m
        invariant
            0 <= k <= m,
            m == d.messages.len(),
            d == diagram@,
            longest == longest_label(d.messages, k as int),
            longest <= 4 * usize::MAX,
            widest <= max,
            last_box <= max,
            max == usize::MAX,
        decreases m - k,
    {
        proof {
            assert(d.messages[k as int] == diagram.messages@[k as int]@);
        }
        let cs = chars_of(diagram.messages[k].label.as_str());
        let len = utf8_length_wide(cs.as_slice());
        if len > longest {
            longest = len;
        }
        k = k + 1;
    }
    if longest + 6 > max || widest + 4 > max {
        return false;
    }
    let a = widest + 4;
    let b = longest + 6;
    let ab = if a > b {
        a
    } else {
        b
    };
    let col = if ab > 20 {
        ab
    } else {
        20
    };
    assert(col == column_spacing(d));
    assert(usize::MAX <= 0xFFFF_FFFF_FFFF_FFFFu128);
    assert((n as u128 - 1) * col <= 0xFFFF_FFFF_FFFF_FFFFu128 * 0xFFFF_FFFF_FFFF_FFFFu128) by (nonlinear_arith)
        requires
            col <= 0xFFFF_FFFF_FFFF_FFFFu128,
            n <= 0xFFFF_FFFF_FFFF_FFFFu128,
            n >= 1,
    ;
    let center = 1 + widest / 2 + (n as u128 - 1) * col;
    center + last_box / 2 + 2 <= max && 2 * (m as u128) + 4 <= max
}

} // verus!
