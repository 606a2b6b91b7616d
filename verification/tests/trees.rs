use autocontain::db::{insert_repository, Store};
use autocontain::grammar::{classify_kind, classify_role, line_number, tree_from_nodes, RawNode};
use autocontain::models::{IndexError, Repository};
use autocontain::parser::{
    create_class_struct, create_function_struct, extract_callee, extract_classes_and_functions,
    extract_dependencies, extract_identifier, extract_name,
};
use autocontain::syntax::{FieldRole, NodeKind, Pattern, SyntaxNode, SyntaxTree};

fn node(kind: NodeKind, role: FieldRole, depth: usize, start: usize, end: usize) -> SyntaxNode {
    SyntaxNode { kind, role, depth, start_byte: start, end_byte: end, start_line: 0, end_line: 0 }
}

fn raw(kind: &str, field: Option<&str>, depth: usize, start: usize, end: usize) -> RawNode {
    RawNode {
        kind: kind.to_string(),
        field: field.map(|f| f.to_string()),
        depth,
        start_byte: start,
        end_byte: end,
        start_row: 0,
        end_row: 0,
        has_error: false,
    }
}

#[test]
fn tree_needs_one_root_and_steps_of_one() {
    let o = FieldRole::Other;
    let ok = vec![
        node(NodeKind::Module, o, 0, 0, 3),
        node(NodeKind::Other, o, 1, 0, 1),
        node(NodeKind::Other, o, 2, 0, 1),
        node(NodeKind::Other, o, 1, 1, 3),
    ];
    assert!(SyntaxTree::new("abc".to_string(), ok).is_some());
    assert!(SyntaxTree::new("abc".to_string(), vec![]).is_none());
    assert!(SyntaxTree::new("abc".to_string(), vec![node(NodeKind::Module, o, 1, 0, 3)]).is_none());
    let two_roots = vec![node(NodeKind::Module, o, 0, 0, 3), node(NodeKind::Other, o, 0, 0, 1)];
    assert!(SyntaxTree::new("abc".to_string(), two_roots).is_none());
    let jump = vec![node(NodeKind::Module, o, 0, 0, 3), node(NodeKind::Other, o, 2, 0, 1)];
    assert!(SyntaxTree::new("abc".to_string(), jump).is_none());
}

#[test]
fn tree_needs_spans_on_whole_characters() {
    let o = FieldRole::Other;
    assert!(SyntaxTree::new("aé".to_string(), vec![node(NodeKind::Module, o, 0, 0, 3)]).is_some());
    assert!(SyntaxTree::new("aé".to_string(), vec![node(NodeKind::Module, o, 0, 1, 3)]).is_some());
    assert!(SyntaxTree::new("aé".to_string(), vec![node(NodeKind::Module, o, 0, 0, 2)]).is_none());
    assert!(SyntaxTree::new("aé".to_string(), vec![node(NodeKind::Module, o, 0, 2, 3)]).is_none());
    assert!(SyntaxTree::new("aé".to_string(), vec![node(NodeKind::Module, o, 0, 0, 4)]).is_none());
    assert!(SyntaxTree::new("aé".to_string(), vec![node(NodeKind::Module, o, 0, 2, 1)]).is_none());
    let tree = SyntaxTree::new("aé".to_string(), vec![node(NodeKind::Module, o, 0, 1, 3)]).unwrap();
    assert_eq!(tree.text(0), "é");
    assert_eq!(tree.len(), 1);
}

#[test]
fn searches_stay_in_their_range() {
    let o = FieldRole::Other;
    let nodes = vec![
        node(NodeKind::Module, o, 0, 0, 0),
        node(NodeKind::FunctionDefinition, o, 1, 0, 0),
        node(NodeKind::Identifier, o, 2, 0, 0),
        node(NodeKind::Call, o, 2, 0, 0),
        node(NodeKind::Identifier, FieldRole::Callee, 3, 0, 0),
        node(NodeKind::FunctionDefinition, o, 1, 0, 0),
        node(NodeKind::Call, o, 2, 0, 0),
    ];
    let tree = SyntaxTree::new(String::new(), nodes).unwrap();
    assert_eq!(tree.subtree_end(0), 7);
    assert_eq!(tree.subtree_end(1), 5);
    assert_eq!(tree.subtree_end(3), 5);
    assert_eq!(tree.subtree_end(4), 5);
    assert_eq!(tree.subtree_end(6), 7);
    assert_eq!(tree.find_all(Pattern::of_kind(NodeKind::Call), 0, 7), vec![3, 6]);
    assert_eq!(tree.find_all(Pattern::of_kind(NodeKind::Call), 4, 6), Vec::<usize>::new());
    assert_eq!(tree.find_first(Pattern::of_kind(NodeKind::Identifier), 0, 7), Some(2));
    assert_eq!(tree.find_first(Pattern::of_kind(NodeKind::Identifier), 3, 7), Some(4));
    assert_eq!(tree.find_first(Pattern::of_kind_at(NodeKind::Identifier, 3), 0, 7), Some(4));
    assert_eq!(tree.find_first(Pattern::of_role_at(FieldRole::Callee, 3), 0, 4), None);
    assert_eq!(tree.find_first(Pattern::of_kind(NodeKind::Parameters), 0, 7), None);
}

#[test]
fn definition_without_identifier_is_unknown() {
    let o = FieldRole::Other;
    let nodes = vec![
        node(NodeKind::Module, o, 0, 0, 7),
        node(NodeKind::ClassDefinition, o, 1, 0, 7),
        node(NodeKind::Other, o, 2, 0, 5),
        node(NodeKind::Other, o, 2, 6, 7),
        node(NodeKind::Identifier, o, 3, 6, 7),
    ];
    let tree = SyntaxTree::new("class :".to_string(), nodes).unwrap();
    assert_eq!(extract_identifier(&tree, 1), None);
    assert_eq!(extract_name(&tree, 1), "<unknown>");
    let class = create_class_struct(&tree, 1, 4, "k.py");
    assert_eq!(class.name, "<unknown>");
    assert_eq!(class.id, None);
    assert_eq!(class.repo_id, 4);
    assert_eq!(class.attributes, None);
    assert_eq!(class.docstring, None);
    let function = create_function_struct(&tree, 1, 4, Some(2), "k.py");
    assert_eq!(function.name, "<unknown>");
    assert_eq!(function.class_id, Some(2));
    assert_eq!(function.parameters, None);
    assert_eq!(function.return_type, None);
}

#[test]
fn callee_must_be_a_plain_identifier() {
    let o = FieldRole::Other;
    let nodes = vec![
        node(NodeKind::Module, o, 0, 0, 9),
        node(NodeKind::Call, o, 1, 0, 3),
        node(NodeKind::Identifier, FieldRole::Callee, 2, 0, 1),
        node(NodeKind::Call, o, 1, 4, 9),
        node(NodeKind::Other, FieldRole::Callee, 2, 4, 7),
        node(NodeKind::Identifier, o, 3, 4, 5),
        node(NodeKind::Call, o, 1, 0, 3),
        node(NodeKind::Identifier, FieldRole::Callee, 2, 0, 1),
    ];
    let tree = SyntaxTree::new("f() a.b()".to_string(), nodes).unwrap();
    assert_eq!(extract_callee(&tree, 1), Some("f".to_string()));
    assert_eq!(extract_callee(&tree, 3), None);
    assert_eq!(extract_callee(&tree, 0), None);
    assert_eq!(extract_dependencies(&tree, 0), vec!["f".to_string()]);
    assert_eq!(extract_dependencies(&tree, 3), Vec::<String>::new());
}

#[test]
fn kinds_fields_and_lines_are_classified() {
    assert_eq!(classify_kind("module"), NodeKind::Module);
    assert_eq!(classify_kind("class_definition"), NodeKind::ClassDefinition);
    assert_eq!(classify_kind("function_definition"), NodeKind::FunctionDefinition);
    assert_eq!(classify_kind("identifier"), NodeKind::Identifier);
    assert_eq!(classify_kind("string"), NodeKind::StringLiteral);
    assert_eq!(classify_kind("parameters"), NodeKind::Parameters);
    assert_eq!(classify_kind("call"), NodeKind::Call);
    assert_eq!(classify_kind("block"), NodeKind::Other);
    assert_eq!(classify_kind(""), NodeKind::Other);
    assert_eq!(classify_role(&Some("function".to_string())), FieldRole::Callee);
    assert_eq!(classify_role(&Some("return_type".to_string())), FieldRole::ReturnType);
    assert_eq!(classify_role(&Some("name".to_string())), FieldRole::Other);
    assert_eq!(classify_role(&None), FieldRole::Other);
    assert_eq!(line_number(0), 0);
    assert_eq!(line_number(41), 41);
    assert_eq!(line_number(i32::MAX as usize), i32::MAX);
    assert_eq!(line_number(i32::MAX as usize + 1), i32::MAX);
}

#[test]
fn reported_nodes_make_a_tree() {
    let nodes = vec![
        raw("module", None, 0, 0, 12),
        raw("function_definition", None, 1, 0, 12),
        raw("identifier", Some("name"), 2, 4, 5),
        raw("parameters", Some("parameters"), 2, 5, 7),
        raw("type", Some("return_type"), 2, 9, 12),
    ];
    let tree = tree_from_nodes("def f()->int", &nodes).unwrap();
    assert_eq!(tree.len(), 5);
    assert_eq!(tree.node(1).kind, NodeKind::FunctionDefinition);
    assert_eq!(tree.node(4).role, FieldRole::ReturnType);
    assert_eq!(tree.node(4).kind, NodeKind::Other);
    let function = create_function_struct(&tree, 1, 1, None, "f.py");
    assert_eq!(function.name, "f");
    assert_eq!(function.parameters, Some(String::new()));
    assert_eq!(function.return_type, Some("int".to_string()));
    let mut store = Store::new();
    insert_repository(&mut store, &Repository { id: None, name: "r".to_string(), description: None }).unwrap();
    assert_eq!(extract_classes_and_functions(&tree, &mut store, 1, "f.py"), Ok(()));
    assert_eq!(store.functions().len(), 1);
}

#[test]
fn reported_nodes_are_refused_when_they_make_no_module() {
    let not_module = vec![raw("block", None, 0, 0, 1)];
    assert_eq!(tree_from_nodes("x", &not_module).err(), Some(IndexError::ParseFailure));
    let mut broken = raw("module", None, 0, 0, 1);
    broken.has_error = true;
    assert_eq!(tree_from_nodes("x", &vec![broken]).err(), Some(IndexError::ParseFailure));
    assert_eq!(tree_from_nodes("x", &vec![]).err(), Some(IndexError::ParseFailure));
    let beyond = vec![raw("module", None, 0, 0, 2)];
    assert_eq!(tree_from_nodes("x", &beyond).err(), Some(IndexError::ParseFailure));
    let deep = vec![raw("module", None, 0, 0, 1), raw("block", None, 2, 0, 1)];
    assert_eq!(tree_from_nodes("x", &deep).err(), Some(IndexError::ParseFailure));
    assert!(tree_from_nodes("x", &vec![raw("module", None, 0, 0, 1)]).is_ok());
}

#[test]
fn tree_needs_lines_in_their_order() {
    let o = FieldRole::Other;
    let mut root = node(NodeKind::Module, o, 0, 0, 1);
    root.start_line = 2;
    root.end_line = 2;
    assert!(SyntaxTree::new("x".to_string(), vec![root]).is_some());
    root.end_line = 1;
    assert!(SyntaxTree::new("x".to_string(), vec![root]).is_none());
    root.start_line = -1;
    root.end_line = 1;
    assert!(SyntaxTree::new("x".to_string(), vec![root]).is_none());
    let mut reported = raw("module", None, 0, 0, 1);
    reported.start_row = 3;
    reported.end_row = 2;
    assert_eq!(tree_from_nodes("x", &vec![reported]).err(), Some(IndexError::ParseFailure));
    let mut reported = raw("module", None, 0, 0, 1);
    reported.start_row = 3;
    reported.end_row = 7;
    let tree = tree_from_nodes("x", &vec![reported]).unwrap();
    assert_eq!(tree.node(0).start_line, 3);
    assert_eq!(tree.node(0).end_line, 7);
    let class = create_class_struct(&tree, 0, 1, "x.py");
    assert_eq!((class.start_line, class.end_line), (3, 7));
}
