use miru::layout::flowchart;
use miru::layout::sequence;
use miru::layout::{Position, PositionMap};
use miru::parser::common::{Direction, EdgeStyle, NodeShape};
use miru::parser::flowchart::{Edge, Flowchart, Node};
use miru::parser::sequence::{Message, MessageStyle, Participant, SequenceDiagram};
use miru::RenderOptions;

fn node(id: &str, label: &str) -> Node {
    Node { id: id.into(), label: label.into(), shape: NodeShape::Rectangle }
}

fn participant(id: &str, label: &str) -> Participant {
    Participant { id: id.into(), label: label.into() }
}

fn message(from: &str, to: &str, label: &str, style: MessageStyle) -> Message {
    Message { from: from.into(), to: to.into(), label: label.into(), style }
}

#[test]
fn layout_horizontal() {
    let flowchart = Flowchart {
        direction: Direction::LeftRight,
        nodes: vec![node("A", "Start"), node("B", "End")],
        edges: vec![],
    };
    let opts = RenderOptions::default();
    let positions = flowchart::layout(&flowchart, &opts);

    let a_pos = positions.get("A").unwrap();
    let b_pos = positions.get("B").unwrap();
    assert!(b_pos.x > a_pos.x + a_pos.width, "B right of A");
    assert_eq!(a_pos.y, b_pos.y, "same y in LR layout");
}

#[test]
fn layout_vertical_centered() {
    let flowchart = Flowchart {
        direction: Direction::TopDown,
        nodes: vec![node("A", "Short"), node("B", "A Very Long Label")],
        edges: vec![],
    };
    let opts = RenderOptions::default();
    let positions = flowchart::layout(&flowchart, &opts);

    let a_pos = positions.get("A").unwrap();
    let b_pos = positions.get("B").unwrap();
    assert!(b_pos.y > a_pos.y + a_pos.height, "B below A");
    let a_center = a_pos.x + a_pos.width / 2;
    let b_center = b_pos.x + b_pos.width / 2;
    assert_eq!(a_center, b_center, "centers aligned vertically");
}

#[test]
fn layout_two_participants() {
    let diagram = SequenceDiagram {
        participants: vec![participant("A", "Alice"), participant("B", "Bob")],
        messages: vec![message("A", "B", "Hello", MessageStyle::Solid)],
    };
    let opts = RenderOptions::default();
    let result = sequence::layout(&diagram, &opts);

    assert_eq!(result.participants.len(), 2);
    assert_eq!(result.message_ys.len(), 1);

    let a_pos = result.participants.get("A").unwrap();
    let b_pos = result.participants.get("B").unwrap();
    assert!(b_pos.x > a_pos.x + a_pos.width, "participants should not overlap");
}

#[test]
fn layout_empty_diagram() {
    let diagram = SequenceDiagram { participants: vec![], messages: vec![] };
    let opts = RenderOptions::default();
    let result = sequence::layout(&diagram, &opts);

    assert_eq!(result.participants.len(), 0);
    assert!(result.width > 0);
    assert!(result.height > 0);
}

#[test]
fn message_ys_increase_monotonically() {
    let diagram = SequenceDiagram {
        participants: vec![participant("A", "A"), participant("B", "B")],
        messages: vec![
            message("A", "B", "one", MessageStyle::Solid),
            message("B", "A", "two", MessageStyle::Dashed),
        ],
    };
    let opts = RenderOptions::default();
    let result = sequence::layout(&diagram, &opts);

    assert_eq!(result.message_ys.len(), 2);
    assert!(result.message_ys[1] > result.message_ys[0]);
}

#[test]
fn flowchart_horizontal_positions_exact() {
    let fc = Flowchart {
        direction: Direction::RightLeft,
        nodes: vec![node("A", "A"), node("B", "A label of twenty ch")],
        edges: vec![Edge { from: "A".into(), to: "B".into(), label: None, style: EdgeStyle::Solid }],
    };
    let p = flowchart::layout(&fc, &RenderOptions::default());
    assert_eq!(p.get("A"), Some(Position { x: 2, y: 2, width: 14, height: 3 }));
    assert_eq!(p.get("B"), Some(Position { x: 24, y: 2, width: 24, height: 3 }));
    assert_eq!(p.get("C"), None);
    assert_eq!(p.len(), 2);
}

#[test]
fn flowchart_vertical_positions_exact() {
    let fc = Flowchart {
        direction: Direction::BottomUp,
        nodes: vec![node("A", "Short"), node("B", "A Very Long Label"), node("C", "")],
        edges: vec![],
    };
    let p = flowchart::layout(&fc, &RenderOptions::default());
    // The widest box is 17 + 4 = 21 columns; narrower ones are centred on it.
    assert_eq!(p.get("A"), Some(Position { x: 5, y: 0, width: 14, height: 3 }));
    assert_eq!(p.get("B"), Some(Position { x: 2, y: 6, width: 21, height: 3 }));
    assert_eq!(p.get("C"), Some(Position { x: 5, y: 12, width: 14, height: 3 }));
}

#[test]
fn flowchart_layout_counts_bytes_not_chars() {
    let fc = Flowchart {
        direction: Direction::LeftRight,
        nodes: vec![node("A", "ééééééééé"), node("B", "B")],
        edges: vec![],
    };
    let p = flowchart::layout(&fc, &RenderOptions::default());
    assert_eq!(p.get("A").unwrap().width, 22);
    assert_eq!(p.get("B").unwrap().x, 2 + 22 + 8);
    assert!(flowchart::layout_fits(&fc));
}

#[test]
fn flowchart_duplicate_ids_keep_last_position() {
    let fc = Flowchart {
        direction: Direction::TopDown,
        nodes: vec![node("A", "one"), node("A", "two")],
        edges: vec![],
    };
    let p = flowchart::layout(&fc, &RenderOptions::default());
    assert_eq!(p.len(), 1);
    assert_eq!(p.get("A").unwrap().y, 6);
}

#[test]
fn sequence_layout_exact() {
    let diagram = SequenceDiagram {
        participants: vec![participant("A", "Alice"), participant("B", "Bob")],
        messages: vec![message("A", "B", "Hi", MessageStyle::Solid)],
    };
    let lay = sequence::layout(&diagram, &RenderOptions::default());
    assert_eq!(lay.participants.get("A"), Some(Position { x: 1, y: 0, width: 9, height: 3 }));
    assert_eq!(lay.participants.get("B"), Some(Position { x: 21, y: 0, width: 8, height: 3 }));
    assert_eq!(lay.message_ys, vec![4]);
    assert_eq!(lay.width, 31);
    assert_eq!(lay.height, 6);
}

#[test]
fn sequence_spacing_grows_with_long_labels() {
    let long = "a message label of thirty chars";
    let diagram = SequenceDiagram {
        participants: vec![participant("A", "A"), participant("B", "B")],
        messages: vec![message("A", "B", long, MessageStyle::Solid), message("B", "A", "", MessageStyle::Solid)],
    };
    let lay = sequence::layout(&diagram, &RenderOptions::default());
    // Centres are 31 + 6 = 37 columns apart.
    let a = lay.participants.get("A").unwrap();
    let b = lay.participants.get("B").unwrap();
    assert_eq!((b.x + b.width / 2) - (a.x + a.width / 2), 37);
    assert_eq!(lay.message_ys, vec![4, 6]);
    assert_eq!(lay.height, 8);
    assert!(sequence::layout_fits(&diagram));
}

#[test]
fn empty_sequence_layout_is_forty_by_five() {
    let lay = sequence::layout(&SequenceDiagram { participants: vec![], messages: vec![] }, &RenderOptions::default());
    assert_eq!(lay.width, 40);
    assert_eq!(lay.height, 5);
    assert!(lay.message_ys.is_empty());
}

#[test]
fn position_map_reads_back_what_was_written() {
    let mut m = PositionMap::new();
    assert_eq!(m.len(), 0);
    let p1 = Position { x: 1, y: 2, width: 3, height: 4 };
    let p2 = Position { x: 5, y: 6, width: 7, height: 8 };
    m.insert("a".into(), p1);
    m.insert("b".into(), p2);
    assert_eq!(m.get("a"), Some(p1));
    assert_eq!(m.get("b"), Some(p2));
    m.insert("a".into(), p2);
    assert_eq!(m.len(), 2);
    assert_eq!(m.get("a"), Some(p2));
    assert_eq!(m.get("b"), Some(p2));
    assert_eq!(m.entry(0), p2);
    assert_eq!(m.get("c"), None);
}
