use miru::parser::common::{Direction, EdgeStyle, NodeShape};
use miru::parser::flowchart;
use miru::parser::sequence::{self, MessageStyle};
use miru::parser::{parse, Diagram};
use miru::RenderError;

#[test]
fn parse_simple_flowchart() {
    let input = "graph TD\n    A[Start] --> B[End]";
    let fc = flowchart::parse(input).unwrap();
    assert_eq!(fc.nodes.len(), 2);
    assert_eq!(fc.edges.len(), 1);
    assert_eq!(fc.nodes[0].label, "Start");
    assert_eq!(fc.nodes[1].label, "End");
}

#[test]
fn parse_direction() {
    let input = "graph LR\n    A --> B";
    let fc = flowchart::parse(input).unwrap();
    assert_eq!(fc.direction, Direction::LeftRight);
}

#[test]
fn parse_diamond_node() {
    let input = "graph TD\n    A{Decision}";
    let fc = flowchart::parse(input).unwrap();
    assert_eq!(fc.nodes[0].shape, NodeShape::Diamond);
    assert_eq!(fc.nodes[0].label, "Decision");
}

#[test]
fn parse_simple_sequence() {
    let input = "sequenceDiagram\n    Alice->>Bob: Hello\n    Bob-->>Alice: Hi back";
    let seq = sequence::parse(input).unwrap();
    assert_eq!(seq.participants.len(), 2);
    assert_eq!(seq.messages.len(), 2);
    assert_eq!(seq.messages[0].label, "Hello");
    assert_eq!(seq.messages[1].style, MessageStyle::Dashed);
}

#[test]
fn parse_with_participant_decl() {
    let input = "sequenceDiagram\n    participant A as Alice\n    participant B as Bob\n    A->>B: Hello";
    let seq = sequence::parse(input).unwrap();
    assert_eq!(seq.participants[0].label, "Alice");
    assert_eq!(seq.participants[1].label, "Bob");
}

#[test]
fn flowchart_every_direction_keyword() {
    let cases = [
        ("graph TD\nA", Direction::TopDown),
        ("graph TB\nA", Direction::TopDown),
        ("flowchart BT\nA", Direction::BottomUp),
        ("flowchart LR\nA", Direction::LeftRight),
        ("graph RL\nA", Direction::RightLeft),
    ];
    for (input, dir) in cases {
        assert_eq!(flowchart::parse(input).unwrap().direction, dir);
    }
}

#[test]
fn flowchart_unknown_direction_is_parse_error() {
    match flowchart::parse("graph XY\n    A --> B") {
        Err(RenderError::ParseError(m)) => assert_eq!(m, "unknown direction: XY"),
        other => panic!("unexpected: {:?}", other),
    }
}

#[test]
fn flowchart_missing_direction_is_parse_error() {
    match flowchart::parse("graph\n    A --> B") {
        Err(RenderError::ParseError(m)) => assert_eq!(m, "expected direction after graph/flowchart keyword"),
        other => panic!("unexpected: {:?}", other),
    }
}

#[test]
fn flowchart_empty_input_is_parse_error() {
    match flowchart::parse("") {
        Err(RenderError::ParseError(m)) => assert_eq!(m, "empty input"),
        other => panic!("unexpected: {:?}", other),
    }
}

#[test]
fn flowchart_chain_gives_one_edge_per_arrow() {
    let fc = flowchart::parse("graph TD\n    A --> B --> C;").unwrap();
    let ids: Vec<&str> = fc.nodes.iter().map(|n| n.id.as_str()).collect();
    assert_eq!(ids, vec!["A", "B", "C"]);
    assert_eq!(fc.edges.len(), 2);
    assert_eq!((fc.edges[0].from.as_str(), fc.edges[0].to.as_str()), ("A", "B"));
    assert_eq!((fc.edges[1].from.as_str(), fc.edges[1].to.as_str()), ("B", "C"));
}

#[test]
fn flowchart_arrow_styles_and_labels() {
    let fc = flowchart::parse("graph LR\n    A -.-> B\n    B ==>|fast| C\n    C -->|ok| D").unwrap();
    assert_eq!(fc.edges.len(), 3);
    assert_eq!(fc.edges[0].style, EdgeStyle::Dotted);
    assert_eq!(fc.edges[0].label, None);
    assert_eq!(fc.edges[1].style, EdgeStyle::Thick);
    assert_eq!(fc.edges[1].label.as_deref(), Some("fast"));
    assert_eq!(fc.edges[2].style, EdgeStyle::Solid);
    assert_eq!(fc.edges[2].label.as_deref(), Some("ok"));
    assert_eq!(fc.edges[2].to, "D");
}

#[test]
fn flowchart_shapes() {
    let fc = flowchart::parse("graph TD\n    A[Box]\n    B(Round)\n    C{Choice}\n    D").unwrap();
    assert_eq!(fc.nodes[0].shape, NodeShape::Rectangle);
    assert_eq!(fc.nodes[1].shape, NodeShape::RoundedRect);
    assert_eq!(fc.nodes[1].label, "Round");
    assert_eq!(fc.nodes[2].shape, NodeShape::Diamond);
    assert_eq!(fc.nodes[3].shape, NodeShape::Rectangle);
    assert_eq!(fc.nodes[3].label, "D");
}

#[test]
fn flowchart_later_label_replaces_earlier() {
    let fc = flowchart::parse("graph TD\n    A --> B\n    A(Alpha)\n    A").unwrap();
    assert_eq!(fc.nodes.len(), 2);
    assert_eq!(fc.nodes[0].label, "Alpha");
    assert_eq!(fc.nodes[0].shape, NodeShape::RoundedRect);
}

#[test]
fn flowchart_skips_comments_and_blank_lines() {
    let fc = flowchart::parse("graph TD\n\n    %% a comment --> here\n    A --> B\n").unwrap();
    assert_eq!(fc.nodes.len(), 2);
    assert_eq!(fc.edges.len(), 1);
}

#[test]
fn flowchart_label_is_read_between_the_pipes() {
    let fc = flowchart::parse("graph TD\n    A -->| Yes | B").unwrap();
    let ids: Vec<&str> = fc.nodes.iter().map(|n| n.id.as_str()).collect();
    assert_eq!(ids, vec!["A", "B"]);
    assert_eq!(fc.edges.len(), 1);
    assert_eq!(fc.edges[0].from, "A");
    assert_eq!(fc.edges[0].to, "B");
    assert_eq!(fc.edges[0].label.as_deref(), Some("Yes"));
    assert_eq!(fc.edges[0].style, EdgeStyle::Solid);
    let fc = flowchart::parse("graph TD\n    A -->  |x| B").unwrap();
    assert_eq!(fc.edges[0].label.as_deref(), Some("x"));
    assert_eq!(fc.edges[0].to, "B");
}

#[test]
fn flowchart_multibyte_label_after_spaces() {
    let fc = flowchart::parse("graph TD\n    A -->|  \u{e9}| B").unwrap();
    assert_eq!(fc.edges.len(), 1);
    assert_eq!(fc.edges[0].from, "A");
    assert_eq!(fc.edges[0].to, "B");
    assert_eq!(fc.edges[0].label.as_deref(), Some("\u{e9}"));
    let fc = flowchart::parse("graph TD\n    A -->  |\u{e9}| B --> C").unwrap();
    let ends: Vec<(&str, &str)> = fc.edges.iter().map(|e| (e.from.as_str(), e.to.as_str())).collect();
    assert_eq!(ends, vec![("A", "B"), ("B", "C")]);
}

#[test]
fn flowchart_unclosed_label_is_no_label() {
    let fc = flowchart::parse("graph TD\n    A -->|open B").unwrap();
    assert_eq!(fc.edges[0].label, None);
    assert_eq!(fc.edges[0].to, "|open B");
}

#[test]
fn flowchart_dangling_arrow_is_a_node() {
    let fc = flowchart::parse("graph TD\n    A -->").unwrap();
    assert_eq!(fc.edges.len(), 0);
    assert_eq!(fc.nodes.len(), 1);
    assert_eq!(fc.nodes[0].id, "A -->");
}

#[test]
fn flowchart_ids_distinct_and_edges_reach_nodes() {
    let fc = flowchart::parse("graph TD\n    A --> B\n    B --> A\n    C --> A").unwrap();
    for (i, a) in fc.nodes.iter().enumerate() {
        for b in &fc.nodes[i + 1..] {
            assert_ne!(a.id, b.id);
        }
    }
    for e in &fc.edges {
        assert!(fc.nodes.iter().any(|n| n.id == e.from));
        assert!(fc.nodes.iter().any(|n| n.id == e.to));
    }
}

#[test]
fn sequence_all_arrow_kinds() {
    let seq = sequence::parse("sequenceDiagram\n A->>B: a\n A-->>B: b\n A-xB: c\n A--xB: d\n A->>B").unwrap();
    let styles: Vec<MessageStyle> = seq.messages.iter().map(|m| m.style).collect();
    assert_eq!(
        styles,
        vec![
            MessageStyle::Solid,
            MessageStyle::Dashed,
            MessageStyle::SolidCross,
            MessageStyle::DashedCross,
            MessageStyle::Solid,
        ]
    );
    assert_eq!(seq.messages[2].to, "B");
    assert_eq!(seq.messages[4].label, "");
}

#[test]
fn sequence_first_declaration_wins() {
    let seq = sequence::parse("sequenceDiagram\n participant A as First\n participant A as Second\n participant C").unwrap();
    assert_eq!(seq.participants.len(), 2);
    assert_eq!(seq.participants[0].label, "First");
    assert_eq!(seq.participants[1].id, "C");
    assert_eq!(seq.participants[1].label, "C");
}

#[test]
fn sequence_message_creates_participants() {
    let seq = sequence::parse("sequenceDiagram\n %% note\n X->>Y: hi\n junk line").unwrap();
    assert_eq!(seq.participants.len(), 2);
    assert_eq!(seq.participants[0].id, "X");
    assert_eq!(seq.participants[1].label, "Y");
    assert_eq!(seq.messages.len(), 1);
}

#[test]
fn diagram_kind_is_chosen_by_first_word() {
    assert!(matches!(parse("  graph TD\n A"), Ok(Diagram::Flowchart(_))));
    assert!(matches!(parse("flowchart LR\n A"), Ok(Diagram::Flowchart(_))));
    assert!(matches!(parse("sequenceDiagram\n A->>B: x"), Ok(Diagram::Sequence(_))));
    match parse("pie title Pets") {
        Err(RenderError::UnsupportedDiagram(k)) => assert_eq!(k, "pie"),
        other => panic!("unexpected: {:?}", other),
    }
    match parse("   ") {
        Err(RenderError::UnsupportedDiagram(k)) => assert_eq!(k, "unknown"),
        other => panic!("unexpected: {:?}", other),
    }
}

#[test]
fn leftmost_arrow_is_taken_first() {
    let fc = flowchart::parse("graph TD\n    A --> B -.-> C ==> D").unwrap();
    let ids: Vec<&str> = fc.nodes.iter().map(|n| n.id.as_str()).collect();
    assert_eq!(ids, vec!["A", "B", "C", "D"]);
    let styles: Vec<EdgeStyle> = fc.edges.iter().map(|e| e.style).collect();
    assert_eq!(styles, vec![EdgeStyle::Solid, EdgeStyle::Dotted, EdgeStyle::Thick]);
}

#[test]
fn flowchart_keeps_source_order() {
    let fc = flowchart::parse("graph LR\n    C\n    B --> A --> C\n    D --> B\n    A[Alpha]").unwrap();
    let ids: Vec<&str> = fc.nodes.iter().map(|n| n.id.as_str()).collect();
    assert_eq!(ids, vec!["C", "B", "A", "D"]);
    let ends: Vec<(&str, &str)> = fc.edges.iter().map(|e| (e.from.as_str(), e.to.as_str())).collect();
    assert_eq!(ends, vec![("B", "A"), ("A", "C"), ("D", "B")]);
    assert_eq!(fc.nodes[2].label, "Alpha");
}

#[test]
fn sequence_keeps_first_appearance_and_declared_label() {
    let seq = sequence::parse(
        "sequenceDiagram\n    B->>A: one\n    participant C as Carol\n    C->>B: two\n    participant A as Late",
    )
    .unwrap();
    let ps: Vec<(&str, &str)> = seq.participants.iter().map(|p| (p.id.as_str(), p.label.as_str())).collect();
    assert_eq!(ps, vec![("B", "B"), ("A", "A"), ("C", "Carol")]);
    let labels: Vec<&str> = seq.messages.iter().map(|m| m.label.as_str()).collect();
    assert_eq!(labels, vec!["one", "two"]);
}
