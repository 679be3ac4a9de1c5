//! Markdown rendering for the terminal: a document is parsed with comrak into
//! a tree of nodes, and the tree is written out as plain styled text, with
//! mermaid code blocks drawn as diagrams.
use vstd::prelude::*;

use comrak::nodes::NodeValue;

use crate::text::{chars_eq, chars_of, push_char, push_chars, push_str, string_from, trim, trim_slice};
use crate::{error_message, render_defined, render_text, try_render, ErrorModel, RenderOptions};

verus! {

/// The kind of a markdown node, with what rendering reads of it.
#[derive(Debug)]
pub enum MdKind {
    /// A heading of the given level.
    Heading(u8),
    Paragraph,
    /// A code block: its info string and its text.
    CodeBlock(String, String),
    List,
    Item,
    BlockQuote,
    ThematicBreak,
    Text(String),
    SoftBreak,
    LineBreak,
    /// An inline code span and its text.
    Code(String),
    Strong,
    Emph,
    /// A link to the given URL.
    Link(String),
    /// Any other node, the document root included.
    Other,
}

/// A node of a markdown document and its children.
#[derive(Debug)]
pub struct MdNode {
    pub kind: MdKind,
    pub children: Vec<MdNode>,
}

/// One step of a walk through a document: entering a node, or leaving the
/// node entered last and not yet left.
#[derive(Debug)]
pub enum MdEvent {
    Enter(MdKind),
    Exit,
}

/// What an `MdKind` holds, with its text as chars.
pub enum MdKindModel {
    Heading(u8),
    Paragraph,
    CodeBlock(Seq<char>, Seq<char>),
    List,
    Item,
    BlockQuote,
    ThematicBreak,
    Text(Seq<char>),
    SoftBreak,
    LineBreak,
    Code(Seq<char>),
    Strong,
    Emph,
    Link(Seq<char>),
    Other,
}

/// What an `MdNode` holds.
pub struct MdNodeModel {
    pub kind: MdKindModel,
    pub children: Seq<MdNodeModel>,
}

/// What an `MdEvent` holds.
pub enum MdEventModel {
    Enter(MdKindModel),
    Exit,
}

pub open spec fn kind_model(k: MdKind) -> MdKindModel {
    match k {
        MdKind::Heading(l) => MdKindModel::Heading(l),
        MdKind::Paragraph => MdKindModel::Paragraph,
        MdKind::CodeBlock(i, l) => MdKindModel::CodeBlock(i@, l@),
        MdKind::List => MdKindModel::List,
        MdKind::Item => MdKindModel::Item,
        MdKind::BlockQuote => MdKindModel::BlockQuote,
        MdKind::ThematicBreak => MdKindModel::ThematicBreak,
        MdKind::Text(t) => MdKindModel::Text(t@),
        MdKind::SoftBreak => MdKindModel::SoftBreak,
        MdKind::LineBreak => MdKindModel::LineBreak,
        MdKind::Code(c) => MdKindModel::Code(c@),
        MdKind::Strong => MdKindModel::Strong,
        MdKind::Emph => MdKindModel::Emph,
        MdKind::Link(u) => MdKindModel::Link(u@),
        MdKind::Other => MdKindModel::Other,
    }
}

pub open spec fn node_model(n: MdNode) -> MdNodeModel
    decreases n, 1int,
{
    MdNodeModel { kind: kind_model(n.kind), children: nodes_model(n.children@) }
}

pub open spec fn nodes_model(ns: Seq<MdNode>) -> Seq<MdNodeModel>
    decreases ns, 0int,
{
    if ns.len() == 0 {
        Seq::empty()
    } else {
        nodes_model(ns.drop_last()).push(node_model(ns.last()))
    }
}

pub open spec fn event_model(e: MdEvent) -> MdEventModel {
    match e {
        MdEvent::Enter(k) => MdEventModel::Enter(kind_model(k)),
        MdEvent::Exit => MdEventModel::Exit,
    }
}

pub open spec fn event_models(es: Seq<MdEvent>) -> Seq<MdEventModel> {
    es.map_values(|e: MdEvent| event_model(e))
}

// ---------------------------------------------------------------------------
// From a walk to a tree
// ---------------------------------------------------------------------------

/// The node whose walk starts at event `i`, and the index after its walk.
pub open spec fn node_at(ev: Seq<MdEventModel>, i: int) -> Option<(MdNodeModel, int)>
    decreases ev.len() - i, 0int,
{
    if i < 0 || i >= ev.len() {
        None
    } else {
        match ev[i] {
            MdEventModel::Exit => None,
            MdEventModel::Enter(k) => match children_at(ev, i + 1) {
                Some((cs, j)) => if 0 <= j < ev.len() && ev[j] is Exit {
                    Some((MdNodeModel { kind: k, children: cs }, j + 1))
                } else {
                    None
                },
                None => None,
            },
        }
    }
}

/// The nodes whose walks follow one another from event `i` up to an exit
/// (or the end), and the index of that exit.
pub open spec fn children_at(ev: Seq<MdEventModel>, i: int) -> Option<(Seq<MdNodeModel>, int)>
    decreases ev.len() - i, 1int,
{
    if i < 0 || i >= ev.len() || ev[i] is Exit {
        Some((Seq::empty(), i))
    } else {
        match node_at(ev, i) {
            Some((n, j)) => if j <= i || j > ev.len() {
                None
            } else {
                match children_at(ev, j) {
                    Some((rest, k)) => Some((seq![n] + rest, k)),
                    None => None,
                }
            },
            None => None,
        }
    }
}

/// The document that a walk describes: the node whose walk is all of it.
pub open spec fn document_of(ev: Seq<MdEventModel>) -> Option<MdNodeModel> {
    match node_at(ev, 0) {
        Some((n, j)) => if j == ev.len() {
            Some(n)
        } else {
            None
        },
        None => None,
    }
}

// ---------------------------------------------------------------------------
// The text of a document
// ---------------------------------------------------------------------------

/// The options that mermaid diagrams in a document are drawn with.
pub open spec fn diagram_opts(ascii_only: bool) -> RenderOptions {
    RenderOptions { max_width: 80, ascii_only }
}

pub open spec fn mermaid_info() -> Seq<char> {
    seq!['m', 'e', 'r', 'm', 'a', 'i', 'd']
}

/// The text of an inline node: text as it is, breaks as a space or a newline,
/// code in backticks, strong text in `**`, emphasis in `_`, links as
/// `[text](url)`, and the children of anything else.
pub open spec fn inline_text(n: MdNodeModel) -> Seq<char>
    decreases n, 1int,
{
    match n.kind {
        MdKindModel::Text(t) => t,
        MdKindModel::SoftBreak => seq![' '],
        MdKindModel::LineBreak => seq!['\n'],
        MdKindModel::Code(c) => seq!['`'] + c + seq!['`'],
        MdKindModel::Strong => seq!['*', '*'] + inlines_text(n.children) + seq!['*', '*'],
        MdKindModel::Emph => seq!['_'] + inlines_text(n.children) + seq!['_'],
        MdKindModel::Link(url) => seq!['['] + inlines_text(n.children) + seq![']', '('] + url + seq![')'],
        _ => inlines_text(n.children),
    }
}

pub open spec fn inlines_text(ns: Seq<MdNodeModel>) -> Seq<char>
    decreases ns, 0int,
{
    if ns.len() == 0 {
        Seq::empty()
    } else {
        inlines_text(ns.drop_last()) + inline_text(ns.last())
    }
}

/// The text of a node inside a list item or a block quote: a paragraph's
/// inline children, anything else as inline.
pub open spec fn inline_block_text(n: MdNodeModel) -> Seq<char> {
    match n.kind {
        MdKindModel::Paragraph => inlines_text(n.children),
        _ => inline_text(n),
    }
}

pub open spec fn inline_blocks_text(ns: Seq<MdNodeModel>) -> Seq<char>
    decreases ns.len(),
{
    if ns.len() == 0 {
        Seq::empty()
    } else {
        inline_blocks_text(ns.drop_last()) + inline_block_text(ns.last())
    }
}

/// A code block: a `mermaid` block as its drawn diagram (or the error and
/// its source), any other as a fenced block.
pub open spec fn code_block_text(info: Seq<char>, literal: Seq<char>, ascii_only: bool) -> Seq<char> {
    if trim(info) == mermaid_info() {
        match render_text(trim(literal), diagram_opts(ascii_only)) {
            Ok(d) => d + seq!['\n'],
            Err(e) => "[mermaid error: "@ + error_message(e) + "]\n"@ + literal,
        }
    } else {
        "```"@ + info + seq!['\n'] + literal + "```\n"@
    }
}

/// The text of a block node, each block followed by a blank line.
pub open spec fn block_text(n: MdNodeModel, ascii_only: bool) -> Seq<char>
    decreases n, 1int,
{
    match n.kind {
        MdKindModel::Heading(level) => Seq::new(level as nat, |i: int| '#') + seq![' '] + inlines_text(
            n.children,
        ) + seq!['\n', '\n'],
        MdKindModel::Paragraph => inlines_text(n.children) + seq!['\n', '\n'],
        MdKindModel::CodeBlock(info, literal) => code_block_text(info, literal, ascii_only) + seq!['\n'],
        MdKindModel::List => blocks_text(n.children, ascii_only),
        MdKindModel::Item => "  - "@ + inline_blocks_text(n.children) + seq!['\n'],
        MdKindModel::BlockQuote => "> "@ + inline_blocks_text(n.children) + seq!['\n', '\n'],
        MdKindModel::ThematicBreak => "────────────────────────────────\n\n"@,
        _ => blocks_text(n.children, ascii_only),
    }
}

pub open spec fn blocks_text(ns: Seq<MdNodeModel>, ascii_only: bool) -> Seq<char>
    decreases ns, 0int,
{
    if ns.len() == 0 {
        Seq::empty()
    } else {
        blocks_text(ns.drop_last(), ascii_only) + block_text(ns.last(), ascii_only)
    }
}

/// Every mermaid block that gets drawn can be drawn (see `render_defined`).
pub open spec fn block_drawable(n: MdNodeModel, ascii_only: bool) -> bool
    decreases n, 1int,
{
    match n.kind {
        MdKindModel::CodeBlock(info, literal) => trim(info) == mermaid_info() ==> render_defined(
            trim(literal),
            diagram_opts(ascii_only),
        ),
        MdKindModel::List => blocks_drawable(n.children, ascii_only),
        MdKindModel::Heading(_) | MdKindModel::Paragraph | MdKindModel::Item
        | MdKindModel::BlockQuote | MdKindModel::ThematicBreak => true,
        _ => blocks_drawable(n.children, ascii_only),
    }
}

pub open spec fn blocks_drawable(ns: Seq<MdNodeModel>, ascii_only: bool) -> bool
    decreases ns, 0int,
{
    if ns.len() == 0 {
        true
    } else {
        blocks_drawable(ns.drop_last(), ascii_only) && block_drawable(ns.last(), ascii_only)
    }
}

/// A heading of level `n` is written as exactly `n` `#` chars and a space,
/// then its text, for every level.
pub proof fn law_heading_marker(block: MdNodeModel, ascii_only: bool)
    requires
        block.kind is Heading,
    ensures
        ({
            let n = block.kind->Heading_0 as int;
            let t = block_text(block, ascii_only);
            &&& t.len() > n
            &&& forall|i: int| 0 <= i < n ==> t[i] == '#'
            &&& t[n] == ' '
        }),
{
}

/// A mermaid code block is replaced by its drawn diagram: where its
/// trimmed source renders to `d`, the block's text is `d` and a blank line,
/// with neither the source nor any error text.
pub proof fn law_mermaid_block_drawn(block: MdNodeModel, ascii_only: bool, d: Seq<char>)
    requires
        block.kind matches MdKindModel::CodeBlock(info, literal) && trim(info) == mermaid_info() && render_text(
            trim(literal),
            diagram_opts(ascii_only),
        ) == Ok::<Seq<char>, ErrorModel>(d),
    ensures
        block_text(block, ascii_only) == d + seq!['\n', '\n'],
{
    assert(d + seq!['\n'] + seq!['\n'] =~= d + seq!['\n', '\n']);
}

/// A mermaid code block that does not parse shows the error and then its
/// source as it stands, and rendering goes on.
pub proof fn law_mermaid_block_error(block: MdNodeModel, ascii_only: bool, e: ErrorModel)
    requires
        block.kind matches MdKindModel::CodeBlock(info, literal) && trim(info) == mermaid_info() && render_text(
            trim(literal),
            diagram_opts(ascii_only),
        ) == Err::<Seq<char>, ErrorModel>(e),
    ensures
        block.kind matches MdKindModel::CodeBlock(info, literal) && block_text(block, ascii_only) == "[mermaid error: "@
            + error_message(e) + "]\n"@ + literal + seq!['\n'],
{
}

/// Any other code block is written fenced, with its info string and its
/// text as they stand.
pub proof fn law_other_code_block(block: MdNodeModel, ascii_only: bool)
    requires
        block.kind matches MdKindModel::CodeBlock(info, literal) && trim(info) != mermaid_info(),
    ensures
        block.kind matches MdKindModel::CodeBlock(info, literal) && block_text(block, ascii_only) == "```"@ + info
            + seq!['\n'] + literal + "```\n"@ + seq!['\n'],
{
}

/// The text of blocks one after another is the text of each in turn, so a
/// block's text stands in a document exactly where the block stands.
pub proof fn law_blocks_text_concat(a: Seq<MdNodeModel>, b: Seq<MdNodeModel>, ascii_only: bool)
    ensures
        blocks_text(a + b, ascii_only) == blocks_text(a, ascii_only) + blocks_text(b, ascii_only),
        blocks_drawable(a + b, ascii_only) == (blocks_drawable(a, ascii_only) && blocks_drawable(b, ascii_only)),
    decreases b.len(),
{
    if b.len() == 0 {
        assert(a + b =~= a);
        assert(blocks_text(a, ascii_only) + blocks_text(b, ascii_only) =~= blocks_text(a, ascii_only));
    } else {
        assert((a + b).drop_last() =~= a + b.drop_last());
        assert((a + b).last() == b.last());
        law_blocks_text_concat(a, b.drop_last(), ascii_only);
        assert(blocks_text(a, ascii_only) + blocks_text(b, ascii_only) =~= blocks_text(a, ascii_only) + blocks_text(
            b.drop_last(),
            ascii_only,
        ) + block_text(b.last(), ascii_only));
    }
}

// ---------------------------------------------------------------------------
// Lemmas
// ---------------------------------------------------------------------------

pub proof fn lemma_nodes_model(ns: Seq<MdNode>)
    ensures
        nodes_model(ns).len() == ns.len(),
        forall|i: int| 0 <= i < ns.len() ==> #[trigger] nodes_model(ns)[i] == node_model(ns[i]),
    decreases ns.len(),
{
    if ns.len() > 0 {
        lemma_nodes_model(ns.drop_last());
    }
}

pub proof fn lemma_node_at_advances(ev: Seq<MdEventModel>, i: int)
    ensures
        node_at(ev, i) matches Some((n, j)) ==> i < j <= ev.len(),
    decreases ev.len() - i, 0int,
{
    if 0 <= i < ev.len() && ev[i] is Enter {
        lemma_children_at_advances(ev, i + 1);
    }
}

pub proof fn lemma_children_at_advances(ev: Seq<MdEventModel>, i: int)
    ensures
        children_at(ev, i) matches Some((cs, k)) ==> i <= k && (i <= ev.len() ==> k <= ev.len()),
    decreases ev.len() - i, 1int,
{
    if 0 <= i < ev.len() && !(ev[i] is Exit) {
        lemma_node_at_advances(ev, i);
        if let Some((n, j)) = node_at(ev, i) {
            if i < j <= ev.len() {
                lemma_children_at_advances(ev, j);
            }
        }
    }
}

// ---------------------------------------------------------------------------
// Executable
// ---------------------------------------------------------------------------

fn copy_kind(k: &MdKind) -> (r: MdKind)
    ensures
        kind_model(r) == kind_model(*k),
{
    match k {
        MdKind::Heading(l) => MdKind::Heading(*l),
        MdKind::Paragraph => MdKind::Paragraph,
        MdKind::CodeBlock(i, l) => MdKind::CodeBlock(i.clone(), l.clone()),
        MdKind::List => MdKind::List,
        MdKind::Item => MdKind::Item,
        MdKind::BlockQuote => MdKind::BlockQuote,
        MdKind::ThematicBreak => MdKind::ThematicBreak,
        MdKind::Text(t) => MdKind::Text(t.clone()),
        MdKind::SoftBreak => MdKind::SoftBreak,
        MdKind::LineBreak => MdKind::LineBreak,
        MdKind::Code(c) => MdKind::Code(c.clone()),
        MdKind::Strong => MdKind::Strong,
        MdKind::Emph => MdKind::Emph,
        MdKind::Link(u) => MdKind::Link(u.clone()),
        MdKind::Other => MdKind::Other,
    }
}

/// Builds the node whose walk starts at event `i`.
fn build_node(events: &Vec<MdEvent>, i: usize) -> (r: Option<(MdNode, usize)>)
    ensures
        r matches Some((n, j)) ==> node_at(event_models(events@), i as int) == Some((node_model(n), j as int)),
        r is None ==> node_at(event_models(events@), i as int) is None,
    decreases events@.len() - i, 0int,
{
    let ghost ev = event_models(events@);
    if i >= events.len() {
        return None;
    }
    let kind = match &events[i] {
        MdEvent::Exit => return None,
        MdEvent::Enter(k) => copy_kind(k),
    };
    match build_children(events, i + 1) {
        Some((children, j)) => {
            if j < events.len() {
                match &events[j] {
                    MdEvent::Exit => {
                        let n = MdNode { kind, children };
                        Some((n, j + 1))
                    },
                    MdEvent::Enter(_) => None,
                }
            } else {
                None
            }
        },
        None => None,
    }
}

/// Builds the nodes whose walks follow one another from event `i`.
fn build_children(events: &Vec<MdEvent>, i: usize) -> (r: Option<(Vec<MdNode>, usize)>)
    requires
        i <= events@.len(),
    ensures
        r matches Some((ns, j)) ==> children_at(event_models(events@), i as int) == Some(
            (nodes_model(ns@), j as int),
        ) && j <= events@.len(),
        r is None ==> children_at(event_models(events@), i as int) is None,
    decreases events@.len() - i, 1int,
{
    let ghost ev = event_models(events@);
    if i >= events.len() {
        proof {
            assert(nodes_model(Seq::<MdNode>::empty()) =~= Seq::<MdNodeModel>::empty());
        }
        return Some((Vec::new(), i));
    }
    if let MdEvent::Exit = &events[i] {
        proof {
            assert(nodes_model(Seq::<MdNode>::empty()) =~= Seq::<MdNodeModel>::empty());
        }
        return Some((Vec::new(), i));
    }
    match build_node(events, i) {
        Some((n, j)) => {
            proof {
                lemma_node_at_advances(ev, i as int);
            }
            match build_children(events, j) {
                Some((rest, k)) => {
                    let mut all: Vec<MdNode> = Vec::new();
                    all.push(n);
                    let mut rest = rest;
                    let ghost rest_view = rest@;
                    all.append(&mut rest);
                    proof {
                        lemma_nodes_model(all@);
                        lemma_nodes_model(rest_view);
                        assert(all@ =~= seq![n] + rest_view);
                        assert(nodes_model(all@) =~= seq![node_model(n)] + nodes_model(rest_view));
                    }
                    Some((all, k))
                },
                None => None,
            }
        },
        None => None,
    }
}

/// Builds the document that a walk describes.
pub fn document_from_events(events: &Vec<MdEvent>) -> (r: Option<MdNode>)
    ensures
        r matches Some(n) ==> document_of(event_models(events@)) == Some(node_model(n)),
        r is None ==> document_of(event_models(events@)) is None,
{
    match build_node(events, 0) {
        Some((n, j)) => if j == events.len() {
            Some(n)
        } else {
            None
        },
        None => None,
    }
}

/// Writes the inline children of a node.
fn render_inlines(nodes: &Vec<MdNode>, out: &mut String)
    ensures
        final(out)@ == old(out)@ + inlines_text(nodes_model(nodes@)),
    decreases nodes, 0int,
{
    let ghost ms = nodes_model(nodes@);
    proof {
        lemma_nodes_model(nodes@);
        assert(ms.take(0) =~= Seq::<MdNodeModel>::empty());
    }
    let mut k: usize = 0;
    while k < nodes.len()
        invariant
            0 <= k <= nodes@.len(),
            ms == nodes_model(nodes@),
            ms.len() == nodes@.len(),
            forall|i: int| 0 <= i < nodes@.len() ==> #[trigger] ms[i] == node_model(nodes@[i]),
            out@ == old(out)@ + inlines_text(ms.take(k as int)),
        decreases nodes@.len() - k,
    {
        proof {
            assert(ms.take(k + 1).drop_last() =~= ms.take(k as int));
        }
        render_inline(&nodes[k], out);
        k = k + 1;
    }
    proof {
        assert(ms.take(k as int) =~= ms);
    }
}

/// Writes an inline node.
fn render_inline(node: &MdNode, out: &mut String)
    ensures
        final(out)@ == old(out)@ + inline_text(node_model(*node)),
    decreases node, 1int,
{
    match &node.kind {
        MdKind::Text(text) => {
            push_str(out, text.as_str());
        },
        MdKind::SoftBreak => {
            push_char(out, ' ');
        },
        MdKind::LineBreak => {
            push_char(out, '\n');
        },
        MdKind::Code(code) => {
            push_char(out, '`');
            push_str(out, code.as_str());
            push_char(out, '`');
        },
        MdKind::Strong => {
            push_char(out, '*');
            push_char(out, '*');
            render_inlines(&node.children, out);
            push_char(out, '*');
            push_char(out, '*');
        },
        MdKind::Emph => {
            push_char(out, '_');
            render_inlines(&node.children, out);
            push_char(out, '_');
        },
        MdKind::Link(url) => {
            push_char(out, '[');
            render_inlines(&node.children, out);
            push_char(out, ']');
            push_char(out, '(');
            push_str(out, url.as_str());
            push_char(out, ')');
        },
        _ => {
            render_inlines(&node.children, out);
        },
    }
}

/// Writes the children of a list item or a block quote.
fn render_inline_blocks(nodes: &Vec<MdNode>, out: &mut String)
    ensures
        final(out)@ == old(out)@ + inline_blocks_text(nodes_model(nodes@)),
{
    let ghost ms = nodes_model(nodes@);
    proof {
        lemma_nodes_model(nodes@);
        assert(ms.take(0) =~= Seq::<MdNodeModel>::empty());
    }
    let mut k: usize = 0;
    while k < nodes.len()
        invariant
            0 <= k <= nodes@.len(),
            ms == nodes_model(nodes@),
            ms.len() == nodes@.len(),
            forall|i: int| 0 <= i < nodes@.len() ==> #[trigger] ms[i] == node_model(nodes@[i]),
            out@ == old(out)@ + inline_blocks_text(ms.take(k as int)),
        decreases nodes@.len() - k,
    {
        proof {
            assert(ms.take(k + 1).drop_last() =~= ms.take(k as int));
        }
        let child = &nodes[k];
        match &child.kind {
            MdKind::Paragraph => render_inlines(&child.children, out),
            _ => render_inline(child, out),
        }
        k = k + 1;
    }
    proof {
        assert(ms.take(k as int) =~= ms);
    }
}

/// Writes a code block; `false` where it is a mermaid block that cannot be drawn.
fn render_code_block(info: &String, literal: &String, ascii_only: bool, out: &mut String) -> (ok: bool)
    ensures
        ok == (trim(info@) == mermaid_info() ==> render_defined(trim(literal@), diagram_opts(ascii_only))),
        ok ==> final(out)@ == old(out)@ + code_block_text(info@, literal@, ascii_only),
{
    let info_chars = chars_of(info.as_str());
    let mermaid = vec!['m', 'e', 'r', 'm', 'a', 'i', 'd'];
    if chars_eq(trim_slice(info_chars.as_slice()), mermaid.as_slice()) {
        let literal_chars = chars_of(literal.as_str());
        let source = string_from(trim_slice(literal_chars.as_slice()));
        let opts = RenderOptions { max_width: 80, ascii_only };
        match try_render(source.as_str(), &opts) {
            None => false,
            Some(Ok(diagram)) => {
                push_str(out, diagram.as_str());
                push_char(out, '\n');
                true
            },
            Some(Err(e)) => {
                push_str(out, "[mermaid error: ");
                let msg = e.message();
                push_str(out, msg.as_str());
                push_str(out, "]\n");
                push_str(out, literal.as_str());
                true
            },
        }
    } else {
        push_str(out, "```");
        push_str(out, info.as_str());
        push_char(out, '\n');
        push_str(out, literal.as_str());
        push_str(out, "```\n");
        true
    }
}

/// Writes block nodes one after another; `false` where a mermaid block
/// among them cannot be drawn.
fn render_blocks(nodes: &Vec<MdNode>, ascii_only: bool, out: &mut String) -> (ok: bool)
    ensures
        ok == blocks_drawable(nodes_model(nodes@), ascii_only),
        ok ==> final(out)@ == old(out)@ + blocks_text(nodes_model(nodes@), ascii_only),
    decreases nodes, 0int,
{
    let ghost ms = nodes_model(nodes@);
    proof {
        lemma_nodes_model(nodes@);
        assert(ms.take(0) =~= Seq::<MdNodeModel>::empty());
    }
    let mut k: usize = 0;
    while k < nodes.len()
        invariant
            0 <= k <= nodes@.len(),
            ms == nodes_model(nodes@),
            ms.len() == nodes@.len(),
            forall|i: int| 0 <= i < nodes@.len() ==> #[trigger] ms[i] == node_model(nodes@[i]),
            blocks_drawable(ms.take(k as int), ascii_only),
            out@ == old(out)@ + blocks_text(ms.take(k as int), ascii_only),
        decreases nodes@.len() - k,
    {
        proof {
            assert(ms.take(k + 1).drop_last() =~= ms.take(k as int));
        }
        if !render_block(&nodes[k], ascii_only, out) {
            proof {
                lemma_blocks_drawable_prefix(ms, k + 1, ascii_only);
            }
            return false;
        }
        k = k + 1;
    }
    proof {
        assert(ms.take(k as int) =~= ms);
    }
    true
}

/// Writes a block node; `false` where a mermaid block in it cannot be drawn.
fn render_block(node: &MdNode, ascii_only: bool, out: &mut String) -> (ok: bool)
    ensures
        ok == block_drawable(node_model(*node), ascii_only),
        ok ==> final(out)@ == old(out)@ + block_text(node_model(*node), ascii_only),
    decreases node, 1int,
{
    match &node.kind {
        MdKind::Heading(level) => {
            let ghost start = out@;
            let mut i: u8 = 0;
            while i < *level
                invariant
                    0 <= i <= *level,
                    out@ == start + Seq::new(i as nat, |k: int| '#'),
                decreases *level - i,
            {
                push_char(out, '#');
                proof {
                    assert(start + Seq::new((i + 1) as nat, |k: int| '#') =~= (start + Seq::new(
                        i as nat,
                        |k: int| '#',
                    )).push('#'));
                }
                i = i + 1;
            }
            push_char(out, ' ');
            render_inlines(&node.children, out);
            push_char(out, '\n');
            push_char(out, '\n');
            true
        },
        MdKind::Paragraph => {
            render_inlines(&node.children, out);
            push_char(out, '\n');
            push_char(out, '\n');
            true
        },
        MdKind::CodeBlock(info, literal) => {
            if !render_code_block(info, literal, ascii_only, out) {
                return false;
            }
            push_char(out, '\n');
            true
        },
        MdKind::List => render_blocks(&node.children, ascii_only, out),
        MdKind::Item => {
            push_str(out, "  - ");
            render_inline_blocks(&node.children, out);
            push_char(out, '\n');
            true
        },
        MdKind::BlockQuote => {
            push_str(out, "> ");
            render_inline_blocks(&node.children, out);
            push_char(out, '\n');
            push_char(out, '\n');
            true
        },
        MdKind::ThematicBreak => {
            push_str(out, "────────────────────────────────\n\n");
            true
        },
        _ => render_blocks(&node.children, ascii_only, out),
    }
}

proof fn lemma_blocks_drawable_prefix(ms: Seq<MdNodeModel>, k: int, ascii_only: bool)
    requires
        0 <= k <= ms.len(),
        !blocks_drawable(ms.take(k), ascii_only),
    ensures
        !blocks_drawable(ms, ascii_only),
    decreases ms.len(),
{
    if k < ms.len() {
        assert(ms.drop_last().take(k) =~= ms.take(k));
        lemma_blocks_drawable_prefix(ms.drop_last(), k, ascii_only);
    } else {
        assert(ms.take(k) =~= ms);
    }
}

/// The text of a document: its top-level blocks one after another.
pub open spec fn document_text(root: MdNodeModel, ascii_only: bool) -> Seq<char> {
    blocks_text(root.children, ascii_only)
}

/// Renders a document's blocks to styled terminal text; `None` where a
/// mermaid block in it cannot be drawn (see `render_defined`).
pub fn render_document(root: &MdNode, ascii_only: bool) -> (r: Option<String>)
    ensures
        r is Some <==> blocks_drawable(node_model(*root).children, ascii_only),
        r matches Some(s) ==> s@ == document_text(node_model(*root), ascii_only),
{
    let mut output = String::new();
    if render_blocks(&root.children, ascii_only, &mut output) {
        Some(output)
    } else {
        None
    }
}

// ---------------------------------------------------------------------------
// Parsing with comrak
// ---------------------------------------------------------------------------

/// comrak's `NodeValue`, the kind of a node of a parsed document; opaque here.
#[verifier::external_type_specification]
#[verifier::external_body]
pub struct ExNodeValue(comrak::nodes::NodeValue);

/// The block kind of a comrak `NodeValue`: headings with their level,
/// paragraphs, code blocks with their info string and text, lists, list
/// items, block quotes and thematic breaks; `Other` for every other variant.
/// A `NodeValue` is opaque here, so nothing is stated of the result.
#[verifier::external_body]
fn block_kind(value: &NodeValue) -> MdKind {
    match value {
        NodeValue::Heading(h) => MdKind::Heading(h.level),
        NodeValue::Paragraph => MdKind::Paragraph,
        NodeValue::CodeBlock(c) => MdKind::CodeBlock(c.info.clone(), c.literal.clone()),
        NodeValue::List(_) => MdKind::List,
        NodeValue::Item(_) => MdKind::Item,
        NodeValue::BlockQuote => MdKind::BlockQuote,
        NodeValue::ThematicBreak => MdKind::ThematicBreak,
        _ => MdKind::Other,
    }
}

/// The inline kind of a comrak `NodeValue`: text, soft and hard breaks, code
/// spans with their text, strong text, emphasis and links with their URL;
/// `Other` for every other variant. A `NodeValue` is opaque here, so nothing
/// is stated of the result.
#[verifier::external_body]
fn inline_kind(value: &NodeValue) -> MdKind {
    match value {
        NodeValue::Text(t) => MdKind::Text(t.to_string()),
        NodeValue::SoftBreak => MdKind::SoftBreak,
        NodeValue::LineBreak => MdKind::LineBreak,
        NodeValue::Code(c) => MdKind::Code(c.literal.clone()),
        NodeValue::Strong => MdKind::Strong,
        NodeValue::Emph => MdKind::Emph,
        NodeValue::Link(l) => MdKind::Link(l.url.clone()),
        _ => MdKind::Other,
    }
}

/// The kind of a comrak `NodeValue`, block or inline.
fn md_kind(value: &NodeValue) -> MdKind {
    let k = block_kind(value);
    if let MdKind::Other = k {
        inline_kind(value)
    } else {
        k
    }
}

/// The walk through the document that comrak's `parse_document` builds from
/// a source text with default options.
pub uninterp spec fn markdown_events(source: Seq<char>) -> Seq<MdEventModel>;

/// comrak's `parse_document` on `source` with `Options::default()`, walked
/// with `traverse`: an `Enter` as each node starts and an `Exit` as it ends,
/// in document order, from the document root. The contract claims only that
/// the walk is a function of the source text.
#[verifier::external_body]
fn parse_markdown(source: &str) -> (events: Vec<MdEvent>)
    ensures
        event_models(events@) == markdown_events(source@),
{
    let arena = comrak::Arena::new();
    let root = comrak::parse_document(&arena, source, &comrak::Options::default());
    root.traverse().map(|edge| match edge {
        comrak::arena_tree::NodeEdge::Start(node) => MdEvent::Enter(md_kind(&node.data.borrow().value)),
        comrak::arena_tree::NodeEdge::End(_) => MdEvent::Exit,
    }).collect()
}

/// Whether `render` gives text for `source`: its walk forms a document, and
/// every mermaid block drawn in it can be drawn.
pub open spec fn renders(source: Seq<char>, ascii_only: bool) -> bool {
    document_of(markdown_events(source)) matches Some(root) && blocks_drawable(root.children, ascii_only)
}

/// Renders a markdown string to styled terminal text.
///
/// Mermaid code blocks are detected and rendered as inline ASCII diagrams.
/// `None` where a mermaid block cannot be drawn (see `render_defined`).
pub fn render(source: &str, ascii_only: bool) -> (r: Option<String>)
    ensures
        r is Some <==> renders(source@, ascii_only),
        r matches Some(s) ==> s@ == document_text(document_of(markdown_events(source@)).unwrap(), ascii_only),
{
    let events = parse_markdown(source);
    match document_from_events(&events) {
        Some(root) => render_document(&root, ascii_only),
        None => None,
    }
}

} // verus!
