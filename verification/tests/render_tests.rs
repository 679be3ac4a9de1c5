use miru::layout;
use miru::parser::common::{Direction, EdgeStyle, NodeShape};
use miru::parser::flowchart::{Edge, Flowchart, Node};
use miru::parser::sequence::{Message, MessageStyle, Participant, SequenceDiagram};
use miru::render::{flowchart, sequence};
use miru::RenderOptions;

fn node(id: &str, label: &str) -> Node {
    Node { id: id.into(), label: label.into(), shape: NodeShape::Rectangle }
}

fn edge(label: Option<&str>, style: EdgeStyle) -> Edge {
    Edge { from: "A".into(), to: "B".into(), label: label.map(|l| l.to_string()), style }
}

fn chart(direction: Direction, e: Edge) -> Flowchart {
    Flowchart { direction, nodes: vec![node("A", "Start"), node("B", "End")], edges: vec![e] }
}

fn two_party(from: &str, to: &str, a_label: &str, b_label: &str, label: &str, style: MessageStyle) -> SequenceDiagram {
    SequenceDiagram {
        participants: vec![
            Participant { id: "A".into(), label: a_label.into() },
            Participant { id: "B".into(), label: b_label.into() },
        ],
        messages: vec![Message { from: from.into(), to: to.into(), label: label.into(), style }],
    }
}

fn draw_chart(fc: &Flowchart, opts: &RenderOptions) -> String {
    let positions = layout::flowchart::layout(fc, opts);
    flowchart::render(fc, &positions, opts).to_string()
}

fn draw_sequence(d: &SequenceDiagram, opts: &RenderOptions) -> String {
    let lay = layout::sequence::layout(d, opts);
    sequence::render(d, &lay, opts).to_string()
}

#[test]
fn render_vertical_edges() {
    let flowchart = chart(Direction::TopDown, edge(None, EdgeStyle::Solid));
    let opts = RenderOptions::default();
    let output = draw_chart(&flowchart, &opts);

    assert!(output.contains("Start"));
    assert!(output.contains("End"));
    assert!(output.contains('v'), "should have downward arrowhead");
}

#[test]
fn render_horizontal_edges() {
    let flowchart = chart(Direction::LeftRight, edge(None, EdgeStyle::Solid));
    let opts = RenderOptions::default();
    let output = draw_chart(&flowchart, &opts);

    assert!(output.contains("Start"));
    assert!(output.contains("End"));
    assert!(output.contains('>'), "should have right arrowhead");
}

#[test]
fn render_edge_with_label() {
    let flowchart = chart(Direction::TopDown, edge(Some("Yes"), EdgeStyle::Solid));
    let opts = RenderOptions::default();
    let output = draw_chart(&flowchart, &opts);

    assert!(output.contains("Yes"), "should have edge label");
}

#[test]
fn render_draws_lifelines_and_arrows() {
    let diagram = two_party("A", "B", "Alice", "Bob", "Hello", MessageStyle::Solid);
    let opts = RenderOptions::default();
    let output = draw_sequence(&diagram, &opts);

    assert!(output.contains("Alice"));
    assert!(output.contains("Bob"));
    assert!(output.contains('>'), "should have right-pointing arrow");
    assert!(output.contains("Hello"), "should have message label");
}

#[test]
fn render_dashed_arrow_left() {
    let diagram = two_party("B", "A", "Alice", "Bob", "Reply", MessageStyle::Dashed);
    let opts = RenderOptions::default();
    let output = draw_sequence(&diagram, &opts);

    assert!(output.contains('<'), "dashed left arrow should have '<'");
    assert!(output.contains("Reply"));
}

#[test]
fn render_ascii_mode() {
    let diagram = two_party("A", "B", "A", "B", "msg", MessageStyle::Solid);
    let opts = RenderOptions { max_width: 80, ascii_only: true };
    let output = draw_sequence(&diagram, &opts);

    // ASCII mode: no Unicode box-drawing characters
    assert!(!output.contains('\u{250C}')); // no ┌
    assert!(!output.contains('\u{2500}')); // no ─
    assert!(output.contains('+'));
    assert!(output.contains('-'));
}

fn h(n: usize) -> String {
    "\u{2500}".repeat(n)
}

fn sp(n: usize) -> String {
    " ".repeat(n)
}

#[test]
fn vertical_flowchart_exact() {
    let fc = chart(Direction::TopDown, edge(None, EdgeStyle::Solid));
    let expected = [
        format!("  \u{250C}{}\u{2510}", h(12)),
        "  \u{2502}   Start    \u{2502}".to_string(),
        format!("  \u{2514}{}\u{2518}", h(12)),
        format!("{}\u{2502}", sp(9)),
        format!("{}\u{2502}", sp(9)),
        format!("{}v", sp(9)),
        format!("  \u{250C}{}\u{2510}", h(12)),
        "  \u{2502}    End     \u{2502}".to_string(),
        format!("  \u{2514}{}\u{2518}", h(12)),
        String::new(),
        String::new(),
    ]
    .join("\n");
    assert_eq!(draw_chart(&fc, &RenderOptions::default()), expected);
}

#[test]
fn horizontal_labelled_flowchart_exact() {
    let fc = Flowchart {
        direction: Direction::LeftRight,
        nodes: vec![node("A", "A"), node("B", "B")],
        edges: vec![edge(Some("go"), EdgeStyle::Solid)],
    };
    let expected = [
        String::new(),
        String::new(),
        format!("  \u{250C}{}\u{2510}   go   \u{250C}{}\u{2510}", h(12), h(12)),
        format!("  \u{2502}{}A{}\u{2502}{}>\u{2502}{}B{}\u{2502}", sp(5), sp(6), h(7), sp(5), sp(6)),
        format!("  \u{2514}{}\u{2518}{}\u{2514}{}\u{2518}", h(12), sp(8), h(12)),
        String::new(),
        String::new(),
    ]
    .join("\n");
    assert_eq!(draw_chart(&fc, &RenderOptions::default()), expected);
}

#[test]
fn edge_styles_in_both_directions() {
    let opts = RenderOptions { max_width: 80, ascii_only: true };
    let dotted_down = draw_chart(&chart(Direction::TopDown, edge(None, EdgeStyle::Dotted)), &opts);
    assert_eq!(dotted_down.lines().nth(3), Some("         :"));
    let thick_down = draw_chart(&chart(Direction::TopDown, edge(None, EdgeStyle::Thick)), &opts);
    assert_eq!(thick_down.lines().nth(3), Some("         |"));
    let thick_right = draw_chart(&chart(Direction::LeftRight, edge(None, EdgeStyle::Thick)), &opts);
    assert_eq!(thick_right.lines().nth(3), Some("  |   Start    |=======>|    End     |"));
    let dotted_right = draw_chart(&chart(Direction::LeftRight, edge(None, EdgeStyle::Dotted)), &opts);
    assert_eq!(dotted_right.lines().nth(3), Some("  |   Start    |- - - ->|    End     |"));
}

#[test]
fn edge_against_the_layout_points_back() {
    let fc = Flowchart {
        direction: Direction::TopDown,
        nodes: vec![node("A", "Start"), node("B", "End")],
        edges: vec![Edge { from: "B".into(), to: "A".into(), label: None, style: EdgeStyle::Solid }],
    };
    let out = draw_chart(&fc, &RenderOptions { max_width: 80, ascii_only: true });
    assert_eq!(out.lines().nth(3), Some("         |"));
    assert_eq!(out.lines().nth(5), Some("         ^"));
    let fc = Flowchart { direction: Direction::RightLeft, ..fc };
    let out = draw_chart(&fc, &RenderOptions { max_width: 80, ascii_only: true });
    assert_eq!(out.lines().nth(3), Some("  |   Start    |-------<|    End     |"));
}

#[test]
fn edge_to_unknown_node_is_skipped() {
    let fc = Flowchart {
        direction: Direction::TopDown,
        nodes: vec![node("A", "Start")],
        edges: vec![Edge { from: "A".into(), to: "Z".into(), label: Some("lost".into()), style: EdgeStyle::Solid }],
    };
    let out = draw_chart(&fc, &RenderOptions::default());
    assert!(!out.contains("lost"));
    assert_eq!(out.split('\n').count(), 5);
}

#[test]
fn flowchart_is_cut_at_max_width() {
    let fc = Flowchart {
        direction: Direction::LeftRight,
        nodes: vec![node("A", "A"), node("B", "B")],
        edges: vec![edge(None, EdgeStyle::Solid)],
    };
    let opts = RenderOptions { max_width: 20, ascii_only: true };
    let positions = layout::flowchart::layout(&fc, &opts);
    let canvas = flowchart::render(&fc, &positions, &opts);
    assert_eq!(canvas.width(), 20);
    assert_eq!(canvas.height(), 7);
    let expected = format!("\n\n  +{}+\n  |{}A{}|----\n  +{}+\n\n", "-".repeat(12), sp(5), sp(6), "-".repeat(12));
    assert_eq!(canvas.to_string(), expected);
    assert!(canvas.to_string().lines().all(|l| l.chars().count() <= 20));
}

#[test]
fn sequence_exact() {
    let d = two_party("A", "B", "Alice", "Bob", "Hi", MessageStyle::Solid);
    let expected = [
        format!(" \u{250C}{}\u{2510}{}\u{250C}{}\u{2510}", h(7), sp(11), h(6)),
        format!(" \u{2502} Alice \u{2502}{}\u{2502} Bob  \u{2502}", sp(11)),
        format!(" \u{2514}{}\u{2518}{}\u{2514}{}\u{2518}", h(7), sp(11), h(6)),
        format!("{}\u{2502}{}Hi{}\u{2502}", sp(5), sp(8), sp(9)),
        format!("{}\u{2502}{}>\u{2502}", sp(5), h(18)),
        format!("{}\u{2502}{}\u{2502}", sp(5), sp(19)),
    ]
    .join("\n");
    assert_eq!(draw_sequence(&d, &RenderOptions::default()), expected);
}

#[test]
fn sequence_message_kinds() {
    let opts = RenderOptions { max_width: 80, ascii_only: true };
    let dashed_left = draw_sequence(&two_party("B", "A", "Alice", "Bob", "", MessageStyle::Dashed), &opts);
    assert_eq!(dashed_left.lines().nth(4), Some(format!("     |<{}|", "- ".repeat(9)).as_str()));
    let cross = draw_sequence(&two_party("A", "B", "Alice", "Bob", "", MessageStyle::SolidCross), &opts);
    assert_eq!(cross.lines().nth(4), Some(format!("     |{}x|", "-".repeat(18)).as_str()));
    let dashed_cross = draw_sequence(&two_party("A", "B", "Alice", "Bob", "", MessageStyle::DashedCross), &opts);
    assert_eq!(dashed_cross.lines().nth(4), Some(format!("     |{}x|", "- ".repeat(9)).as_str()));
    let to_self = draw_sequence(&two_party("A", "A", "Alice", "Bob", "me", MessageStyle::Solid), &opts);
    assert_eq!(to_self.lines().nth(4), Some("     |                   |"));
    assert!(!to_self.contains("me"));
}

#[test]
fn sequence_is_cut_to_max_width() {
    let d = two_party("A", "B", "A", "B", "x", MessageStyle::Solid);
    let opts = RenderOptions { max_width: 10, ascii_only: false };
    let lay = layout::sequence::layout(&d, &opts);
    let canvas = sequence::render(&d, &lay, &opts);
    assert_eq!(canvas.width(), 10);
    assert_eq!(canvas.height(), lay.height);
    assert!(canvas.to_string().split('\n').all(|l| l.chars().count() <= 10));
}

#[test]
fn narrow_sequence_is_widened_to_forty() {
    let d = SequenceDiagram { participants: vec![Participant { id: "A".into(), label: "A".into() }], messages: vec![] };
    let opts = RenderOptions::default();
    let lay = layout::sequence::layout(&d, &opts);
    assert_eq!(lay.width, 11);
    assert_eq!(sequence::render(&d, &lay, &opts).width(), 40);
}

#[test]
fn empty_sequence_renders_blank_rows() {
    let d = SequenceDiagram { participants: vec![], messages: vec![] };
    assert_eq!(draw_sequence(&d, &RenderOptions::default()), "\n\n\n\n");
}

#[test]
fn fit_checks_accept_ordinary_diagrams() {
    let fc = chart(Direction::TopDown, edge(Some("ok"), EdgeStyle::Solid));
    let opts = RenderOptions::default();
    let positions = layout::flowchart::layout(&fc, &opts);
    assert!(flowchart::render_fits(&fc, &positions, &opts));
    let d = two_party("A", "B", "Alice", "Bob", "Hi", MessageStyle::Solid);
    let lay = layout::sequence::layout(&d, &opts);
    assert!(sequence::render_fits(&d, &lay));
}
