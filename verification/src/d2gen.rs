use vstd::prelude::*;

use crate::model::{Diagram, Edge, Node, ShapeKind};

verus! {

// ---------------------------------------------------------------------------
// Decimal rendering of node ids
// ---------------------------------------------------------------------------

/// The character of a decimal digit `d` (for `0 <= d < 10`).
pub open spec fn digit_char(d: int) -> char {
    if d == 0 {
        '0'
    } else if d == 1 {
        '1'
    } else if d == 2 {
        '2'
    } else if d == 3 {
        '3'
    } else if d == 4 {
        '4'
    } else if d == 5 {
        '5'
    } else if d == 6 {
        '6'
    } else if d == 7 {
        '7'
    } else if d == 8 {
        '8'
    } else {
        '9'
    }
}

/// The usual base-10 representation of `n`, most significant digit first,
/// without leading zeros.
pub open spec fn decimal(n: nat) -> Seq<char>
    decreases n,
{
    if n < 10 {
        seq![digit_char(n as int)]
    } else {
        decimal(n / 10).push(digit_char((n % 10) as int))
    }
}

/// The D2 identifier of the node with id `id`: `node` followed by `id` in decimal.
pub open spec fn node_name(id: nat) -> Seq<char> {
    "node"@ + decimal(id)
}

/// The one-character string of a decimal digit.
fn digit_str(d: usize) -> (s: &'static str)
    requires
        d < 10,
    ensures
        s@ == seq![digit_char(d as int)],
{
    proof {
        reveal_strlit("0");
        reveal_strlit("1");
        reveal_strlit("2");
        reveal_strlit("3");
        reveal_strlit("4");
        reveal_strlit("5");
        reveal_strlit("6");
        reveal_strlit("7");
        reveal_strlit("8");
        reveal_strlit("9");
    }
    if d == 0 {
        "0"
    } else if d == 1 {
        "1"
    } else if d == 2 {
        "2"
    } else if d == 3 {
        "3"
    } else if d == 4 {
        "4"
    } else if d == 5 {
        "5"
    } else if d == 6 {
        "6"
    } else if d == 7 {
        "7"
    } else if d == 8 {
        "8"
    } else {
        "9"
    }
}

/// Renders `n` in decimal.
fn decimal_string(n: usize) -> (s: String)
    ensures
        s@ == decimal(n as nat),
    decreases n,
{
    if n < 10 {
        String::from_str(digit_str(n))
    } else {
        let mut s = decimal_string(n / 10);
        s.append(digit_str(n % 10));
        s
    }
}

/// The D2 identifier of a node: `node` followed by its id in decimal.
pub fn node_id(id: usize) -> (s: String)
    ensures
        s@ == node_name(id as nat),
{
    let mut s = String::from_str("node");
    let digits = decimal_string(id);
    s.append(digits.as_str());
    s
}

// ---------------------------------------------------------------------------
// Rendering
// ---------------------------------------------------------------------------

/// The D2 `shape:` keyword of a recognized shape kind.
pub open spec fn shape_keyword(shape: ShapeKind) -> Seq<char> {
    match shape {
        ShapeKind::Rectangle => "rectangle"@,
        ShapeKind::Circle => "circle"@,
        ShapeKind::Diamond => "diamond"@,
    }
}

/// The D2 `shape:` keyword of a recognized shape kind.
pub fn d2_shape_keyword(shape: ShapeKind) -> (s: &'static str)
    ensures
        s@ == shape_keyword(shape),
{
    match shape {
        ShapeKind::Rectangle => "rectangle",
        ShapeKind::Circle => "circle",
        ShapeKind::Diamond => "diamond",
    }
}

/// The text shown for a node: its label, or its identifier when it has none.
pub open spec fn node_caption(node: Node) -> Seq<char> {
    match node.label {
        Some(label) => label@,
        None => node_name(node.id as nat),
    }
}

/// `<id>: <caption> {shape: <keyword>}` followed by a newline.
pub open spec fn node_line(node: Node) -> Seq<char> {
    node_name(node.id as nat) + ": "@ + node_caption(node) + " {shape: "@ + shape_keyword(node.shape)
        + "}\n"@
}

/// The connector of an edge: `->` when directed, `--` otherwise.
pub open spec fn arrow(directed: bool) -> Seq<char> {
    if directed {
        "->"@
    } else {
        "--"@
    }
}

/// `: <label>` for a labeled edge, nothing otherwise.
pub open spec fn edge_label_suffix(edge: Edge) -> Seq<char> {
    match edge.label {
        Some(label) => ": "@ + label@,
        None => Seq::empty(),
    }
}

/// `<from> <arrow> <to>`, the label suffix, and a newline.
pub open spec fn edge_line(edge: Edge) -> Seq<char> {
    node_name(edge.from as nat) + " "@ + arrow(edge.directed) + " "@ + node_name(edge.to as nat)
        + edge_label_suffix(edge) + "\n"@
}

/// The lines of the given nodes, in order.
pub open spec fn node_lines(nodes: Seq<Node>) -> Seq<char>
    decreases nodes.len(),
{
    if nodes.len() == 0 {
        Seq::empty()
    } else {
        node_lines(nodes.drop_last()) + node_line(nodes.last())
    }
}

/// The lines of the given edges, in order.
pub open spec fn edge_lines(edges: Seq<Edge>) -> Seq<char>
    decreases edges.len(),
{
    if edges.len() == 0 {
        Seq::empty()
    } else {
        edge_lines(edges.drop_last()) + edge_line(edges.last())
    }
}

/// The D2 source of a diagram: one line per node, then one line per edge.
pub open spec fn d2_source(diagram: Diagram) -> Seq<char> {
    node_lines(diagram.nodes@) + edge_lines(diagram.edges@)
}

/// The line of one node.
fn render_node(node: &Node) -> (line: String)
    ensures
        line@ == node_line(*node),
{
    let id = node_id(node.id);
    let mut line = String::new();
    line.append(id.as_str());
    line.append(": ");
    match &node.label {
        Some(label) => line.append(label.as_str()),
        None => line.append(id.as_str()),
    }
    line.append(" {shape: ");
    line.append(d2_shape_keyword(node.shape));
    line.append("}\n");
    line
}

/// The line of one edge.
fn render_edge(edge: &Edge) -> (line: String)
    ensures
        line@ == edge_line(*edge),
{
    let from = node_id(edge.from);
    let to = node_id(edge.to);
    let mut line = String::new();
    line.append(from.as_str());
    line.append(" ");
    line.append(if edge.directed { "->" } else { "--" });
    line.append(" ");
    line.append(to.as_str());
    if let Some(label) = &edge.label {
        line.append(": ");
        line.append(label.as_str());
    }
    line.append("\n");
    line
}

/// Renders a recognized `Diagram` as D2 source text.
pub fn generate(diagram: &Diagram) -> (out: String)
    ensures
        out@ == d2_source(*diagram),
{
    let mut out = String::new();

    let n_nodes: usize = diagram.nodes.len();
    let mut i: usize = 0;
    while i < n_nodes
        invariant
            n_nodes == diagram.nodes@.len(),
            i <= n_nodes,
            out@ == node_lines(diagram.nodes@.take(i as int)),
        decreases n_nodes - i,
    {
        let line = render_node(&diagram.nodes[i]);
        out.append(line.as_str());
        assert(diagram.nodes@.take(i + 1).drop_last() =~= diagram.nodes@.take(i as int));
        i = i + 1;
    }
    assert(diagram.nodes@.take(n_nodes as int) =~= diagram.nodes@);
    let ghost after_nodes = out@;

    let n_edges: usize = diagram.edges.len();
    let mut j: usize = 0;
    while j < n_edges
        invariant
            n_edges == diagram.edges@.len(),
            j <= n_edges,
            after_nodes == node_lines(diagram.nodes@),
            out@ == after_nodes + edge_lines(diagram.edges@.take(j as int)),
        decreases n_edges - j,
    {
        let line = render_edge(&diagram.edges[j]);
        out.append(line.as_str());
        assert(diagram.edges@.take(j + 1).drop_last() =~= diagram.edges@.take(j as int));
        j = j + 1;
    }
    assert(diagram.edges@.take(n_edges as int) =~= diagram.edges@);
    out
}

// ---------------------------------------------------------------------------
// Laws
// ---------------------------------------------------------------------------

proof fn lemma_decimal_nonempty(n: nat)
    ensures
        decimal(n).len() >= 1,
        n >= 10 ==> decimal(n).len() >= 2,
    decreases n,
{
    if n >= 10 {
        lemma_decimal_nonempty(n / 10);
    }
}

proof fn lemma_decimal_injective(a: nat, b: nat)
    requires
        decimal(a) == decimal(b),
    ensures
        a == b,
    decreases a + b,
{
    lemma_decimal_nonempty(a);
    lemma_decimal_nonempty(b);
    if a < 10 && b < 10 {
        assert(decimal(a)[0] == digit_char(a as int));
        assert(decimal(b)[0] == digit_char(b as int));
    } else if a >= 10 && b >= 10 {
        let da = decimal(a);
        let db = decimal(b);
        assert(da.last() == digit_char((a % 10) as int));
        assert(db.last() == digit_char((b % 10) as int));
        assert(da.drop_last() =~= decimal(a / 10));
        assert(db.drop_last() =~= decimal(b / 10));
        lemma_decimal_injective(a / 10, b / 10);
    } else {
        assert(decimal(a).len() != decimal(b).len());
    }
}

/// Distinct node ids are rendered as distinct D2 identifiers, so the nodes of
/// a diagram with distinct ids never merge in the generated source.
pub proof fn lemma_node_names_distinct(a: nat, b: nat)
    requires
        a != b,
    ensures
        node_name(a) != node_name(b),
{
    if node_name(a) == node_name(b) {
        let p = "node"@;
        assert(node_name(a).skip(p.len() as int) =~= decimal(a));
        assert(node_name(b).skip(p.len() as int) =~= decimal(b));
        lemma_decimal_injective(a, b);
    }
}

/// The number of line breaks in `s`.
pub open spec fn line_breaks(s: Seq<char>) -> nat
    decreases s.len(),
{
    if s.len() == 0 {
        0
    } else {
        line_breaks(s.drop_last()) + if s.last() == '\n' {
            1nat
        } else {
            0nat
        }
    }
}

/// `s` holds no line break.
pub open spec fn single_line(s: Seq<char>) -> bool {
    forall|i: int| 0 <= i < s.len() ==> s[i] != '\n'
}

/// The node's label, if any, holds no line break.
pub open spec fn label_single_line(node: Node) -> bool {
    match node.label {
        Some(l) => single_line(l@),
        None => true,
    }
}

/// The edge's label, if any, holds no line break.
pub open spec fn edge_label_single_line(edge: Edge) -> bool {
    match edge.label {
        Some(l) => single_line(l@),
        None => true,
    }
}

proof fn lemma_line_breaks_concat(a: Seq<char>, b: Seq<char>)
    ensures
        line_breaks(a + b) == line_breaks(a) + line_breaks(b),
    decreases b.len(),
{
    if b.len() > 0 {
        assert((a + b).drop_last() =~= a + b.drop_last());
        lemma_line_breaks_concat(a, b.drop_last());
    } else {
        assert(a + b =~= a);
    }
}

proof fn lemma_single_line_has_no_breaks(s: Seq<char>)
    requires
        single_line(s),
    ensures
        line_breaks(s) == 0,
    decreases s.len(),
{
    if s.len() > 0 {
        lemma_single_line_has_no_breaks(s.drop_last());
    }
}

proof fn lemma_decimal_single_line(n: nat)
    ensures
        single_line(decimal(n)),
    decreases n,
{
    if n >= 10 {
        lemma_decimal_single_line(n / 10);
    }
}

proof fn lemma_node_name_no_breaks(id: nat)
    ensures
        line_breaks(node_name(id)) == 0,
{
    reveal_strlit("node");
    lemma_decimal_single_line(id);
    assert(single_line(node_name(id)));
    lemma_single_line_has_no_breaks(node_name(id));
}

proof fn lemma_literal_breaks()
    ensures
        line_breaks(": "@) == 0,
        line_breaks(" "@) == 0,
        line_breaks(" {shape: "@) == 0,
        line_breaks("}\n"@) == 1,
        line_breaks("\n"@) == 1,
        line_breaks("->"@) == 0,
        line_breaks("--"@) == 0,
        line_breaks("rectangle"@) == 0,
        line_breaks("circle"@) == 0,
        line_breaks("diamond"@) == 0,
{
    reveal_strlit(": ");
    reveal_strlit(" ");
    reveal_strlit(" {shape: ");
    reveal_strlit("}\n");
    reveal_strlit("\n");
    reveal_strlit("->");
    reveal_strlit("--");
    reveal_strlit("rectangle");
    reveal_strlit("circle");
    reveal_strlit("diamond");
    lemma_single_line_has_no_breaks(": "@);
    lemma_single_line_has_no_breaks(" "@);
    lemma_single_line_has_no_breaks(" {shape: "@);
    lemma_single_line_has_no_breaks("->"@);
    lemma_single_line_has_no_breaks("--"@);
    lemma_single_line_has_no_breaks("rectangle"@);
    lemma_single_line_has_no_breaks("circle"@);
    lemma_single_line_has_no_breaks("diamond"@);
    reveal_with_fuel(line_breaks, 3);
    assert(("}\n"@).last() == '\n');
    assert(("}\n"@).drop_last() =~= seq!['}']);
    assert(seq!['}'].drop_last() =~= Seq::<char>::empty());
    assert(("\n"@).last() == '\n');
    assert(("\n"@).drop_last() =~= Seq::<char>::empty());
}

proof fn lemma_node_line_breaks(node: Node)
    requires
        label_single_line(node),
    ensures
        line_breaks(node_line(node)) == 1,
{
    lemma_literal_breaks();
    lemma_node_name_no_breaks(node.id as nat);
    match node.label {
        Some(l) => lemma_single_line_has_no_breaks(l@),
        None => {},
    }
    let a = node_name(node.id as nat);
    let b = ": "@;
    let c = node_caption(node);
    let d = " {shape: "@;
    let e = shape_keyword(node.shape);
    let f = "}\n"@;
    lemma_line_breaks_concat(a, b);
    lemma_line_breaks_concat(a + b, c);
    lemma_line_breaks_concat(a + b + c, d);
    lemma_line_breaks_concat(a + b + c + d, e);
    lemma_line_breaks_concat(a + b + c + d + e, f);
}

proof fn lemma_edge_line_breaks(edge: Edge)
    requires
        edge_label_single_line(edge),
    ensures
        line_breaks(edge_line(edge)) == 1,
{
    lemma_literal_breaks();
    lemma_node_name_no_breaks(edge.from as nat);
    lemma_node_name_no_breaks(edge.to as nat);
    match edge.label {
        Some(l) => {
            lemma_single_line_has_no_breaks(l@);
            lemma_line_breaks_concat(": "@, l@);
        },
        None => {},
    }
    let a = node_name(edge.from as nat);
    let b = " "@;
    let c = arrow(edge.directed);
    let d = node_name(edge.to as nat);
    let e = edge_label_suffix(edge);
    let f = "\n"@;
    lemma_line_breaks_concat(a, b);
    lemma_line_breaks_concat(a + b, c);
    lemma_line_breaks_concat(a + b + c, b);
    lemma_line_breaks_concat(a + b + c + b, d);
    lemma_line_breaks_concat(a + b + c + b + d, e);
    lemma_line_breaks_concat(a + b + c + b + d + e, f);
}

proof fn lemma_node_lines_breaks(nodes: Seq<Node>)
    requires
        forall|i: int| 0 <= i < nodes.len() ==> label_single_line(#[trigger] nodes[i]),
    ensures
        line_breaks(node_lines(nodes)) == nodes.len(),
    decreases nodes.len(),
{
    if nodes.len() > 0 {
        let rest = nodes.drop_last();
        assert forall|i: int| 0 <= i < rest.len() implies label_single_line(#[trigger] rest[i]) by {
            assert(rest[i] == nodes[i]);
        }
        lemma_node_lines_breaks(rest);
        lemma_node_line_breaks(nodes[nodes.len() - 1]);
        lemma_line_breaks_concat(node_lines(rest), node_line(nodes.last()));
    }
}

proof fn lemma_edge_lines_breaks(edges: Seq<Edge>)
    requires
        forall|i: int| 0 <= i < edges.len() ==> edge_label_single_line(#[trigger] edges[i]),
    ensures
        line_breaks(edge_lines(edges)) == edges.len(),
    decreases edges.len(),
{
    if edges.len() > 0 {
        let rest = edges.drop_last();
        assert forall|i: int| 0 <= i < rest.len() implies edge_label_single_line(#[trigger] rest[i]) by {
            assert(rest[i] == edges[i]);
        }
        lemma_edge_lines_breaks(rest);
        lemma_edge_line_breaks(edges[edges.len() - 1]);
        lemma_line_breaks_concat(edge_lines(rest), edge_line(edges.last()));
    }
}

/// The D2 source of a diagram whose labels are single-line has exactly one
/// line per node and one line per edge.
pub proof fn law_one_line_per_node_and_edge(diagram: Diagram)
    requires
        forall|i: int|
            0 <= i < diagram.nodes@.len() ==> label_single_line(#[trigger] diagram.nodes@[i]),
        forall|i: int|
            0 <= i < diagram.edges@.len() ==> edge_label_single_line(#[trigger] diagram.edges@[i]),
    ensures
        line_breaks(d2_source(diagram)) == diagram.nodes@.len() + diagram.edges@.len(),
{
    lemma_node_lines_breaks(diagram.nodes@);
    lemma_edge_lines_breaks(diagram.edges@);
    lemma_line_breaks_concat(node_lines(diagram.nodes@), edge_lines(diagram.edges@));
}

/// The D2 source lists the node lines first and the edge lines after them,
/// and the lines of no nodes or no edges are empty.
pub proof fn law_source_layout(diagram: Diagram)
    ensures
        d2_source(diagram) == node_lines(diagram.nodes@) + edge_lines(diagram.edges@),
        node_lines(Seq::empty()) == Seq::<char>::empty(),
        edge_lines(Seq::empty()) == Seq::<char>::empty(),
{
}

/// Appending a node appends exactly its line: `node<id>: `, its label (or
/// `node<id>` when it has none), ` {shape: `, the shape's keyword (`rectangle`,
/// `circle` or `diamond`) and `}` with a line break.
#[verifier::spinoff_prover]
pub proof fn law_node_line_text(nodes: Seq<Node>, node: Node)
    ensures
        node_lines(nodes.push(node)) == node_lines(nodes) + "node"@ + decimal(node.id as nat)
            + ": "@ + (match node.label {
            Some(l) => l@,
            None => "node"@ + decimal(node.id as nat),
        }) + " {shape: "@ + (match node.shape {
            ShapeKind::Rectangle => "rectangle"@,
            ShapeKind::Circle => "circle"@,
            ShapeKind::Diamond => "diamond"@,
        }) + "}\n"@,
{
    assert(nodes.push(node).drop_last() =~= nodes);
    let name = "node"@ + decimal(node.id as nat);
    let caption = match node.label {
        Some(l) => l@,
        None => "node"@ + decimal(node.id as nat),
    };
    let kw = shape_keyword(node.shape);
    assert(node_line(node) == name + ": "@ + caption + " {shape: "@ + kw + "}\n"@);
    assert(node_lines(nodes) + (name + ": "@ + caption + " {shape: "@ + kw + "}\n"@)
        =~= node_lines(nodes) + "node"@ + decimal(node.id as nat) + ": "@ + caption + " {shape: "@
        + kw + "}\n"@);
}

/// Appending an edge appends exactly its line: `node<from>`, then ` -> ` when
/// the edge is directed and ` -- ` when it is not (whether or not it has a
/// label), then `node<to>`, then `: <label>` when it has a label, and a line
/// break.
#[verifier::spinoff_prover]
pub proof fn law_edge_line_text(edges: Seq<Edge>, edge: Edge)
    ensures
        edge_lines(edges.push(edge)) == edge_lines(edges) + "node"@ + decimal(edge.from as nat) + (
        if edge.directed {
            " -> "@
        } else {
            " -- "@
        }) + "node"@ + decimal(edge.to as nat) + (match edge.label {
            Some(l) => ": "@ + l@,
            None => Seq::empty(),
        }) + "\n"@,
{
    reveal_strlit(" ");
    reveal_strlit("->");
    reveal_strlit("--");
    reveal_strlit(" -> ");
    reveal_strlit(" -- ");
    assert(edges.push(edge).drop_last() =~= edges);
    let connector = if edge.directed {
        " -> "@
    } else {
        " -- "@
    };
    assert(" "@ + arrow(edge.directed) + " "@ =~= connector);
    let from = "node"@ + decimal(edge.from as nat);
    let to = "node"@ + decimal(edge.to as nat);
    let suffix = edge_label_suffix(edge);
    assert(edge_line(edge) == from + " "@ + arrow(edge.directed) + " "@ + to + suffix + "\n"@);
    assert(from + " "@ + arrow(edge.directed) + " "@ + to + suffix + "\n"@ =~= from + connector
        + to + suffix + "\n"@);
    assert(edge_lines(edges) + (from + connector + to + suffix + "\n"@) =~= edge_lines(edges)
        + "node"@ + decimal(edge.from as nat) + connector + "node"@ + decimal(edge.to as nat)
        + suffix + "\n"@);
}

} // verus!
