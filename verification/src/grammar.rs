use crate::models::{text_opt, IndexError};
use crate::syntax::{
    lines_fit, span_fits, well_nested, FieldRole, NodeKind, SyntaxNode, SyntaxTree,
};
use crate::text::same_text;
use vstd::prelude::*;
use vstd::utf8::encode_utf8;

verus! {

/// `tree_sitter::Tree`, a syntax tree as the parser holds it.
#[verifier::external_type_specification]
#[verifier::external_body]
pub struct ExTree(tree_sitter::Tree);

/// What the parser reports of one node: the name of its kind, the name of the
/// field that it fills in its parent, the number of its ancestors, the bytes
/// and the rows that it covers, and whether a syntax error lies in its subtree.
#[derive(Debug)]
pub struct RawNode {
    pub kind: String,
    pub field: Option<String>,
    pub depth: usize,
    pub start_byte: usize,
    pub end_byte: usize,
    pub start_row: usize,
    pub end_row: usize,
    pub has_error: bool,
}

/// What the parser reports of one node, as contracts see it.
pub struct RawNodeView {
    pub kind: Seq<char>,
    pub field: Option<Seq<char>>,
    pub depth: usize,
    pub start_byte: usize,
    pub end_byte: usize,
    pub start_row: usize,
    pub end_row: usize,
    pub has_error: bool,
}

impl View for RawNode {
    type V = RawNodeView;

    open spec fn view(&self) -> RawNodeView {
        RawNodeView {
            kind: self.kind@,
            field: text_opt(self.field),
            depth: self.depth,
            start_byte: self.start_byte,
            end_byte: self.end_byte,
            start_row: self.start_row,
            end_row: self.end_row,
            has_error: self.has_error,
        }
    }
}

/// The views of the nodes `raw`.
pub open spec fn raw_views(raw: Seq<RawNode>) -> Seq<RawNodeView> {
    Seq::new(raw.len(), |k: int| raw[k]@)
}

/// The nodes of the syntax tree that the parser makes of the Python text
/// `code`, in the order of a depth-first walk, or `None` where it makes none.
pub uninterp spec fn parsed_nodes(code: Seq<char>) -> Option<Seq<RawNodeView>>;

/// The nodes of a syntax tree, in the order of a depth-first walk.
pub uninterp spec fn tree_nodes(tree: tree_sitter::Tree) -> Seq<RawNodeView>;

/// Calls `tree_sitter::Parser::parse` on a new parser with the grammar of
/// `tree_sitter_python`, without an earlier tree, a time limit or a way to
/// cancel. What comes back depends on the text alone: the same text gives no
/// tree, or a tree with the same nodes.
#[verifier::external_body]
fn parse_python(code: &str) -> (r: Option<tree_sitter::Tree>)
    ensures
        match r {
            Some(tree) => parsed_nodes(code@) == Some(tree_nodes(tree)),
            None => parsed_nodes(code@) is None,
        },
{
    let mut parser = tree_sitter::Parser::new();
    parser.set_language(&tree_sitter_python::LANGUAGE.into()).ok()?;
    parser.parse(code, None)
}

/// Calls `tree_sitter::Node::descendant_count` on the root of the tree: the
/// number of nodes of the tree, the root included.
#[verifier::external_body]
fn tree_len(tree: &tree_sitter::Tree) -> (n: usize)
    ensures
        n == tree_nodes(*tree).len(),
{
    tree.root_node().descendant_count()
}

/// Moves a new cursor of the tree with `tree_sitter::TreeCursor::goto_descendant`
/// to the node that a depth-first walk meets as number `i`, the root being
/// number zero, and reads that node: its depth and field from the cursor, the
/// rest from the `tree_sitter::Node`.
#[verifier::external_body]
fn tree_node(tree: &tree_sitter::Tree, i: usize) -> (raw: RawNode)
    requires
        i < tree_nodes(*tree).len(),
    ensures
        raw@ == tree_nodes(*tree)[i as int],
{
    let mut cursor = tree.walk();
    cursor.goto_descendant(i);
    let node = cursor.node();
    RawNode {
        kind: node.kind().to_string(),
        field: cursor.field_name().map(String::from),
        depth: cursor.depth() as usize,
        start_byte: node.start_byte(),
        end_byte: node.end_byte(),
        start_row: node.start_position().row,
        end_row: node.end_position().row,
        has_error: node.has_error(),
    }
}

/// The nodes of `tree`, in the order of a depth-first walk.
fn flatten(tree: &tree_sitter::Tree) -> (raw: Vec<RawNode>)
    ensures
        raw_views(raw@) == tree_nodes(*tree),
{
    let n = tree_len(tree);
    let mut raw: Vec<RawNode> = Vec::new();
    let mut i: usize = 0;
    while i < n
        invariant
            i <= n == tree_nodes(*tree).len(),
            raw@.len() == i,
            forall|k: int| 0 <= k < i ==> (#[trigger] raw@[k])@ == tree_nodes(*tree)[k],
        decreases n - i,
    {
        let node = tree_node(tree, i);
        raw.push(node);
        i += 1;
    }
    assert(raw_views(raw@) =~= tree_nodes(*tree));
    raw
}

/// The kind of a node whose kind has the name `name`.
pub open spec fn kind_of(name: Seq<char>) -> NodeKind {
    if name == "module"@ {
        NodeKind::Module
    } else if name == "class_definition"@ {
        NodeKind::ClassDefinition
    } else if name == "function_definition"@ {
        NodeKind::FunctionDefinition
    } else if name == "identifier"@ {
        NodeKind::Identifier
    } else if name == "string"@ {
        NodeKind::StringLiteral
    } else if name == "parameters"@ {
        NodeKind::Parameters
    } else if name == "call"@ {
        NodeKind::Call
    } else {
        NodeKind::Other
    }
}

/// The kind of a node whose kind has the name `name`.
pub fn classify_kind(name: &str) -> (kind: NodeKind)
    ensures
        kind == kind_of(name@),
{
    if same_text(name, "module") {
        NodeKind::Module
    } else if same_text(name, "class_definition") {
        NodeKind::ClassDefinition
    } else if same_text(name, "function_definition") {
        NodeKind::FunctionDefinition
    } else if same_text(name, "identifier") {
        NodeKind::Identifier
    } else if same_text(name, "string") {
        NodeKind::StringLiteral
    } else if same_text(name, "parameters") {
        NodeKind::Parameters
    } else if same_text(name, "call") {
        NodeKind::Call
    } else {
        NodeKind::Other
    }
}

/// The part of a node that fills the field `field` of its parent.
pub open spec fn role_of(field: Option<Seq<char>>) -> FieldRole {
    match field {
        Some(name) => if name == "function"@ {
            FieldRole::Callee
        } else if name == "return_type"@ {
            FieldRole::ReturnType
        } else {
            FieldRole::Other
        },
        None => FieldRole::Other,
    }
}

/// The part of a node that fills the field `field` of its parent.
pub fn classify_role(field: &Option<String>) -> (role: FieldRole)
    ensures
        role == role_of(text_opt(*field)),
{
    match field {
        Some(name) => {
            if same_text(name.as_str(), "function") {
                FieldRole::Callee
            } else if same_text(name.as_str(), "return_type") {
                FieldRole::ReturnType
            } else {
                FieldRole::Other
            }
        },
        None => FieldRole::Other,
    }
}

/// The line number for the row `row`: the row, or the greatest line number
/// where the row lies beyond it.
pub open spec fn line_of_row(row: usize) -> i32 {
    if row > i32::MAX {
        i32::MAX
    } else {
        row as i32
    }
}

/// The line number for the row `row`.
pub fn line_number(row: usize) -> (line: i32)
    ensures
        line == line_of_row(row),
{
    if row > i32::MAX as usize {
        i32::MAX
    } else {
        row as i32
    }
}

/// The node of a syntax tree that stands for what the parser reports in `raw`.
pub open spec fn node_of(raw: RawNodeView) -> SyntaxNode {
    SyntaxNode {
        kind: kind_of(raw.kind),
        role: role_of(raw.field),
        depth: raw.depth,
        start_byte: raw.start_byte,
        end_byte: raw.end_byte,
        start_line: line_of_row(raw.start_row),
        end_line: line_of_row(raw.end_row),
    }
}

/// The nodes of a syntax tree that stand for what the parser reports in `raw`.
pub open spec fn nodes_of(raw: Seq<RawNodeView>) -> Seq<SyntaxNode> {
    Seq::new(raw.len(), |k: int| node_of(raw[k]))
}

/// Whether the nodes `raw` that the parser reports of the text `code` make a
/// syntax tree of it: they form one tree whose root is a module without a
/// syntax error, and each node covers whole characters of the text, and lines
/// in their order.
pub open spec fn accepted(code: Seq<char>, raw: Seq<RawNodeView>) -> bool {
    &&& well_nested(nodes_of(raw))
    &&& forall|i: int|
        0 <= i < raw.len() ==> span_fits(encode_utf8(code), #[trigger] nodes_of(raw)[i])
            && lines_fit(nodes_of(raw)[i])
    &&& kind_of(raw[0].kind) == NodeKind::Module
    &&& !raw[0].has_error
}

/// The syntax tree of the text `code`, given the nodes `raw` that the parser
/// reports of it.
pub fn tree_from_nodes(code: &str, raw: &Vec<RawNode>) -> (r: Result<SyntaxTree, IndexError>)
    ensures
        match r {
            Ok(tree) => {
                &&& accepted(code@, raw_views(raw@))
                &&& tree.wf()
                &&& tree.source() == code@
                &&& tree.nodes() == nodes_of(raw_views(raw@))
            },
            Err(e) => e == IndexError::ParseFailure && !accepted(code@, raw_views(raw@)),
        },
{
    let mut nodes: Vec<SyntaxNode> = Vec::new();
    let mut i: usize = 0;
    while i < raw.len()
        invariant
            i <= raw@.len(),
            nodes@.len() == i,
            forall|k: int| 0 <= k < i ==> (#[trigger] nodes@[k]) == node_of(raw@[k]@),
        decreases raw@.len() - i,
    {
        let node = SyntaxNode {
            kind: classify_kind(raw[i].kind.as_str()),
            role: classify_role(&raw[i].field),
            depth: raw[i].depth,
            start_byte: raw[i].start_byte,
            end_byte: raw[i].end_byte,
            start_line: line_number(raw[i].start_row),
            end_line: line_number(raw[i].end_row),
        };
        nodes.push(node);
        i += 1;
    }
    assert(nodes@ =~= nodes_of(raw_views(raw@)));
    if raw.len() == 0 || raw[0].has_error {
        return Err(IndexError::ParseFailure);
    }
    match nodes[0].kind {
        NodeKind::Module => {},
        _ => {
            return Err(IndexError::ParseFailure);
        },
    }
    match SyntaxTree::new(code.to_owned(), nodes) {
        Some(tree) => Ok(tree),
        None => Err(IndexError::ParseFailure),
    }
}

/// Whether the Python text `code` has a syntax tree: the parser makes one of
/// it, and `accepted` takes it.
pub open spec fn parses(code: Seq<char>) -> bool {
    match parsed_nodes(code) {
        Some(raw) => accepted(code, raw),
        None => false,
    }
}

/// The syntax tree of the Python text `code`.
pub fn parse_source(code: &str) -> (r: Result<SyntaxTree, IndexError>)
    ensures
        match r {
            Ok(tree) => {
                &&& parses(code@)
                &&& tree.wf()
                &&& tree.source() == code@
                &&& tree.nodes() == nodes_of(parsed_nodes(code@)->0)
            },
            Err(e) => e == IndexError::ParseFailure && !parses(code@),
        },
{
    match parse_python(code) {
        Some(tree) => {
            let raw = flatten(&tree);
            tree_from_nodes(code, &raw)
        },
        None => Err(IndexError::ParseFailure),
    }
}

} // verus!
