use miru::markdown::{self, MdEvent, MdKind, MdNode};
use miru::{render, try_render, RenderError, RenderOptions};

fn h(n: usize) -> String {
    "\u{2500}".repeat(n)
}

fn sp(n: usize) -> String {
    " ".repeat(n)
}

fn start_end_chart() -> String {
    [
        format!("  \u{250C}{}\u{2510}", h(12)),
        "  \u{2502}   Start    \u{2502}".to_string(),
        format!("  \u{2514}{}\u{2518}", h(12)),
        format!("{}\u{2502}", sp(9)),
        format!("{}\u{2502}", sp(9)),
        format!("{}v", sp(9)),
        format!("  \u{250C}{}\u{2510}", h(12)),
        "  \u{2502}    End     \u{2502}".to_string(),
        format!("  \u{2514}{}\u{2518}", h(12)),
        String::new(),
        String::new(),
    ]
    .join("\n")
}

#[test]
fn render_flowchart_end_to_end() {
    let out = render("graph TD\n    A[Start] --> B[End]", &RenderOptions::default()).unwrap();
    assert_eq!(out, start_end_chart());
}

#[test]
fn render_trims_surrounding_whitespace() {
    let out = render("\n\n   graph TD\n    A[Start] --> B[End]\n\n", &RenderOptions::default()).unwrap();
    assert_eq!(out, start_end_chart());
}

#[test]
fn render_sequence_end_to_end() {
    let out = render("sequenceDiagram\n    Alice->>Bob: Hi", &RenderOptions::default()).unwrap();
    assert!(out.starts_with(" \u{250C}"));
    assert_eq!(out.lines().nth(4), Some(format!("{}\u{2502}{}>\u{2502}", sp(5), h(18)).as_str()));
}

#[test]
fn render_lines_fit_max_width() {
    let opts = RenderOptions { max_width: 25, ascii_only: true };
    let out = render("graph LR\n    A[Start] --> B[End] --> C[Third]", &opts).unwrap();
    assert!(out.split('\n').all(|l| l.chars().count() <= 25));
    let opts = RenderOptions { max_width: 40, ascii_only: true };
    let out = render("sequenceDiagram\n A->>B: x\n B->>C: y\n C->>D: z", &opts).unwrap();
    assert!(out.split('\n').all(|l| l.chars().count() <= 40));
}

#[test]
fn render_ascii_only_has_no_box_drawing() {
    let opts = RenderOptions { max_width: 80, ascii_only: true };
    let out = render("graph TD\n    A[Start] -->|yes| B{Check}\n    B -.-> C", &opts).unwrap();
    assert!(out.chars().all(|c| c.is_ascii()));
    let out = render("sequenceDiagram\n    A-->>B: hello\n    B--xA: bye", &opts).unwrap();
    assert!(out.chars().all(|c| c.is_ascii()));
}

#[test]
fn render_errors() {
    let opts = RenderOptions::default();
    match render("pie title Pets", &opts) {
        Err(e @ RenderError::UnsupportedDiagram(_)) => assert_eq!(e.message(), "unsupported diagram type: pie"),
        other => panic!("unexpected: {:?}", other),
    }
    match render("", &opts) {
        Err(e @ RenderError::UnsupportedDiagram(_)) => assert_eq!(e.message(), "unsupported diagram type: unknown"),
        other => panic!("unexpected: {:?}", other),
    }
    match render("graph QQ\n A", &opts) {
        Err(e @ RenderError::ParseError(_)) => assert_eq!(e.message(), "parse error: unknown direction: QQ"),
        other => panic!("unexpected: {:?}", other),
    }
    match render("flowchart \n A", &opts) {
        Err(e @ RenderError::ParseError(_)) => {
            assert_eq!(e.message(), "parse error: expected direction after graph/flowchart keyword")
        },
        other => panic!("unexpected: {:?}", other),
    }
    assert_eq!(RenderError::LayoutError("too wide".into()).message(), "layout error: too wide");
}

#[test]
fn try_render_matches_render() {
    let opts = RenderOptions::default();
    let input = "graph TD\n    A[Start] --> B[End]";
    assert_eq!(try_render(input, &opts).unwrap().unwrap(), render(input, &opts).unwrap());
    assert!(matches!(try_render("gantt", &opts), Some(Err(RenderError::UnsupportedDiagram(_)))));
}

#[test]
fn try_render_draws_a_multibyte_label() {
    let opts = RenderOptions::default();
    let out = try_render("graph TD\n    A -->  |\u{e9}| B", &opts).unwrap().unwrap();
    assert!(out.contains('\u{e9}'));
    assert_eq!(out, render("graph TD\n    A -->  |\u{e9}| B", &opts).unwrap());
}

#[test]
fn default_options() {
    let o = RenderOptions::default();
    assert_eq!(o.max_width, 80);
    assert!(!o.ascii_only);
}

#[test]
fn markdown_blocks() {
    let src = "# Title\n\nSome *text* and **bold** with `code` and [a link](http://x.y).\n\n> quoted\n\n- one\n- two\n\n---\n";
    let out = markdown::render(src, false).unwrap();
    let expected = [
        "# Title\n\n",
        "Some _text_ and **bold** with `code` and [a link](http://x.y).\n\n",
        "> quoted\n\n",
        "  - one\n  - two\n",
        &"\u{2500}".repeat(32),
        "\n\n",
    ]
    .concat();
    assert_eq!(out, expected);
}

#[test]
fn markdown_breaks() {
    let out = markdown::render("one\ntwo  \nthree\n", false).unwrap();
    assert_eq!(out, "one two\nthree\n\n");
}

#[test]
fn markdown_code_block_is_fenced() {
    let out = markdown::render("```rust\nfn main() {}\n```\n", false).unwrap();
    assert_eq!(out, "```rust\nfn main() {}\n```\n\n");
}

#[test]
fn markdown_mermaid_block_is_drawn() {
    let out = markdown::render("```mermaid\ngraph TD\n    A[Start] --> B[End]\n```\n", false).unwrap();
    assert_eq!(out, format!("{}\n\n", start_end_chart()));
}

#[test]
fn markdown_mermaid_error_shows_source() {
    let out = markdown::render("```mermaid\npie title Pets\n```\n", true).unwrap();
    assert_eq!(out, "[mermaid error: unsupported diagram type: pie]\npie title Pets\n\n");
}

#[test]
fn markdown_mermaid_with_multibyte_label_is_drawn() {
    let out = markdown::render("```mermaid\ngraph TD\n    A -->|  \u{e9}| B\n```\n", false).unwrap();
    assert!(out.contains('\u{e9}'));
    assert!(out.contains('v'));
}

#[test]
fn document_from_a_walk() {
    let events = vec![
        MdEvent::Enter(MdKind::Other),
        MdEvent::Enter(MdKind::Heading(2)),
        MdEvent::Enter(MdKind::Text("Hi".into())),
        MdEvent::Exit,
        MdEvent::Exit,
        MdEvent::Enter(MdKind::CodeBlock("mermaid".into(), "sequenceDiagram\n".into())),
        MdEvent::Exit,
        MdEvent::Exit,
    ];
    let root = markdown::document_from_events(&events).unwrap();
    assert_eq!(root.children.len(), 2);
    let out = markdown::render_document(&root, true).unwrap();
    assert_eq!(out, "## Hi\n\n\n\n\n\n\n\n");
}

#[test]
fn broken_walks_form_no_document() {
    assert!(markdown::document_from_events(&vec![]).is_none());
    assert!(markdown::document_from_events(&vec![MdEvent::Enter(MdKind::Other)]).is_none());
    assert!(markdown::document_from_events(&vec![MdEvent::Exit]).is_none());
    let two_roots = vec![
        MdEvent::Enter(MdKind::Other),
        MdEvent::Exit,
        MdEvent::Enter(MdKind::Other),
        MdEvent::Exit,
    ];
    assert!(markdown::document_from_events(&two_roots).is_none());
}

#[test]
fn item_and_quote_children_render_inline() {
    let root = MdNode {
        kind: MdKind::Other,
        children: vec![MdNode {
            kind: MdKind::BlockQuote,
            children: vec![
                MdNode { kind: MdKind::Paragraph, children: vec![MdNode { kind: MdKind::Text("a".into()), children: vec![] }] },
                MdNode { kind: MdKind::Code("b".into()), children: vec![] },
            ],
        }],
    };
    assert_eq!(markdown::render_document(&root, false).unwrap(), "> a`b`\n\n");
}

#[test]
fn sequence_text_fits_a_narrow_max_width() {
    let opts = RenderOptions { max_width: 10, ascii_only: false };
    let out = render("sequenceDiagram\n A->>B: hi", &opts).unwrap();
    assert!(out.split('\n').all(|l| l.chars().count() <= 10));
    assert_eq!(out.lines().next(), Some(" \u{250C}\u{2500}\u{2500}\u{2500}\u{2500}\u{2500}\u{2500}\u{2510}"));
}

#[test]
fn markdown_mermaid_block_between_paragraphs() {
    let src = "before\n\n```mermaid\ngraph TD\n    A[Start] --> B[End]\n```\n\nafter\n";
    let out = markdown::render(src, false).unwrap();
    assert_eq!(out, format!("before\n\n{}\n\nafter\n\n", start_end_chart()));
}
