use autocontain::db::{get_dependencies, insert_repository, Store};
use autocontain::grammar::parse_source;
use autocontain::models::{IndexError, Repository};
use autocontain::parser::{
    extract_attribute_list, extract_classes_and_functions, extract_dependencies,
    extract_docstring, extract_identifier, extract_methods, extract_parameters,
    extract_return_type, is_source_file, parse_file, parse_repository, SourceFile,
};
use autocontain::repo::parse_repo;
use autocontain::syntax::{NodeKind, SyntaxTree};

const SAMPLE: &str = r#"import os


def helper(x):
    """Adds one."""
    return x + 1


class Shape:
    """A shape."""

    def __init__(self, width: int, height):
        self.width = width
        self.height = height

    def area(self) -> int:
        """The area."""
        return helper(self.width) * helper(self.height)

    @staticmethod
    def unit():
        return Shape(1, 1)


def main():
    """Entry point."""
    s = Shape(2, 3)
    print(s.area())
    print(helper(1))
    helper(2)
"#;

fn store_with_repository() -> (Store, i32) {
    let mut store = Store::new();
    let repo = Repository { id: None, name: "demo".to_string(), description: None };
    let id = insert_repository(&mut store, &repo).unwrap();
    (store, id)
}

fn find_nodes(tree: &SyntaxTree, kind: NodeKind) -> Vec<usize> {
    let mut found = Vec::new();
    for i in 0..tree.len() {
        if tree.node(i).kind == kind {
            found.push(i);
        }
    }
    found
}

#[test]
fn parse_gives_a_module_with_definitions() {
    let tree = parse_source(SAMPLE).unwrap();
    assert_eq!(tree.node(0).kind, NodeKind::Module);
    assert_eq!(tree.node(0).depth, 0);
    assert_eq!(find_nodes(&tree, NodeKind::ClassDefinition).len(), 1);
    assert_eq!(find_nodes(&tree, NodeKind::FunctionDefinition).len(), 5);
    assert_eq!(find_nodes(&tree, NodeKind::Module), vec![0]);
}

#[test]
fn parse_reads_lines_and_text() {
    let tree = parse_source(SAMPLE).unwrap();
    let class = find_nodes(&tree, NodeKind::ClassDefinition)[0];
    assert_eq!(tree.node(class).start_line, 8);
    assert_eq!(tree.node(class).end_line, 21);
    assert_eq!(tree.node(class).depth, 1);
    assert_eq!(tree.text(0), SAMPLE);
}

#[test]
fn parse_refuses_malformed_text() {
    assert_eq!(parse_source("def broken(:\n    pass\n").err(), Some(IndexError::ParseFailure));
    assert_eq!(parse_source("class (((").err(), Some(IndexError::ParseFailure));
}

#[test]
fn parse_takes_text_beyond_ascii() {
    let tree = parse_source("def f():\n    \"\"\"Größe ändern\"\"\"\n    return 'é'\n").unwrap();
    let f = find_nodes(&tree, NodeKind::FunctionDefinition)[0];
    assert_eq!(extract_docstring(&tree, f), Some("Größe ändern".to_string()));
}

#[test]
fn identifiers_parameters_and_return_types() {
    let tree = parse_source(SAMPLE).unwrap();
    let fns = find_nodes(&tree, NodeKind::FunctionDefinition);
    let names: Vec<Option<String>> = fns.iter().map(|&f| extract_identifier(&tree, f)).collect();
    assert_eq!(
        names,
        vec![
            Some("helper".to_string()),
            Some("__init__".to_string()),
            Some("area".to_string()),
            Some("unit".to_string()),
            Some("main".to_string()),
        ]
    );
    assert_eq!(extract_parameters(&tree, fns[0]), Some("x".to_string()));
    assert_eq!(extract_parameters(&tree, fns[1]), Some("self, width: int, height".to_string()));
    assert_eq!(extract_parameters(&tree, fns[3]), Some("".to_string()));
    assert_eq!(extract_return_type(&tree, fns[2]), Some("int".to_string()));
    assert_eq!(extract_return_type(&tree, fns[0]), None);
    let class = find_nodes(&tree, NodeKind::ClassDefinition)[0];
    assert_eq!(extract_identifier(&tree, class), Some("Shape".to_string()));
    assert_eq!(extract_identifier(&tree, 0), None);
}

#[test]
fn docstrings_lose_their_quotes() {
    let tree = parse_source(SAMPLE).unwrap();
    let fns = find_nodes(&tree, NodeKind::FunctionDefinition);
    assert_eq!(extract_docstring(&tree, fns[0]), Some("Adds one.".to_string()));
    assert_eq!(extract_docstring(&tree, fns[2]), Some("The area.".to_string()));
    assert_eq!(extract_docstring(&tree, fns[3]), None);
    let class = find_nodes(&tree, NodeKind::ClassDefinition)[0];
    assert_eq!(extract_docstring(&tree, class), Some("A shape.".to_string()));
}

#[test]
fn class_attributes_come_from_the_constructor() {
    let tree = parse_source(SAMPLE).unwrap();
    let class = find_nodes(&tree, NodeKind::ClassDefinition)[0];
    assert_eq!(
        extract_attribute_list(&tree, class),
        vec!["width: int".to_string(), "height: unknown".to_string()]
    );
}

#[test]
fn class_methods_are_summarised() {
    let tree = parse_source(SAMPLE).unwrap();
    let class = find_nodes(&tree, NodeKind::ClassDefinition)[0];
    assert_eq!(extract_methods(&tree, class), vec!["area -> int".to_string(), "unit".to_string()]);
}

#[test]
fn identical_calls_give_one_dependency() {
    let tree = parse_source(SAMPLE).unwrap();
    let fns = find_nodes(&tree, NodeKind::FunctionDefinition);
    let main = fns[4];
    assert_eq!(
        extract_dependencies(&tree, main),
        vec!["Shape".to_string(), "print".to_string(), "helper".to_string()]
    );
    assert_eq!(extract_dependencies(&tree, fns[2]), vec!["helper".to_string()]);
    assert_eq!(extract_dependencies(&tree, fns[0]), Vec::<String>::new());
}

#[test]
fn member_calls_are_not_dependencies() {
    let tree = parse_source("def f(a):\n    a.run()\n    os.path.join(a)\n    go()\n").unwrap();
    let f = find_nodes(&tree, NodeKind::FunctionDefinition)[0];
    assert_eq!(extract_dependencies(&tree, f), vec!["go".to_string()]);
}

#[test]
fn indexing_gives_one_row_per_definition() {
    let tree = parse_source(SAMPLE).unwrap();
    let (mut store, repo_id) = store_with_repository();
    assert_eq!(extract_classes_and_functions(&tree, &mut store, repo_id, "demo/shape.py"), Ok(()));
    assert_eq!(store.classes().len(), 1);
    assert_eq!(store.functions().len(), 5);
    let class = &store.classes()[0];
    assert_eq!(class.id, Some(1));
    assert_eq!(class.repo_id, repo_id);
    assert_eq!(class.name, "Shape");
    assert_eq!(class.attributes, Some("width: int, height: unknown".to_string()));
    assert_eq!(class.file_location, "demo/shape.py");
    assert_eq!(class.start_line, 8);
    assert_eq!(class.end_line, 21);
    assert_eq!(class.docstring, Some("A shape.".to_string()));
}

#[test]
fn methods_carry_the_id_of_their_class() {
    let tree = parse_source(SAMPLE).unwrap();
    let (mut store, repo_id) = store_with_repository();
    extract_classes_and_functions(&tree, &mut store, repo_id, "demo/shape.py").unwrap();
    let rows: Vec<(String, Option<i32>, Option<i32>)> =
        store.functions().iter().map(|f| (f.name.clone(), f.class_id, f.id)).collect();
    assert_eq!(
        rows,
        vec![
            ("helper".to_string(), None, Some(1)),
            ("__init__".to_string(), Some(1), Some(2)),
            ("area".to_string(), Some(1), Some(3)),
            ("unit".to_string(), Some(1), Some(4)),
            ("main".to_string(), None, Some(5)),
        ]
    );
    let area = &store.functions()[2];
    assert_eq!(area.parameters, Some("self".to_string()));
    assert_eq!(area.return_type, Some("int".to_string()));
    assert_eq!(area.docstring, Some("The area.".to_string()));
    assert_eq!(area.start_line, 15);
    assert_eq!(area.end_line, 17);
    assert_eq!(area.file_location, "demo/shape.py");
}

#[test]
fn every_method_refers_to_a_class_of_its_repository() {
    let (mut store, first) = store_with_repository();
    let second =
        insert_repository(&mut store, &Repository { id: None, name: "other".to_string(), description: None }).unwrap();
    let tree = parse_source(SAMPLE).unwrap();
    extract_classes_and_functions(&tree, &mut store, first, "a.py").unwrap();
    extract_classes_and_functions(&tree, &mut store, second, "b.py").unwrap();
    for function in store.functions() {
        if let Some(class_id) = function.class_id {
            let class = &store.classes()[(class_id - 1) as usize];
            assert_eq!(class.id, Some(class_id));
            assert_eq!(class.repo_id, function.repo_id);
        }
    }
    assert_eq!(store.classes().len(), 2);
    assert_eq!(store.functions().len(), 10);
}

#[test]
fn dependencies_are_keyed_by_name_and_class() {
    let tree = parse_source(SAMPLE).unwrap();
    let (mut store, repo_id) = store_with_repository();
    extract_classes_and_functions(&tree, &mut store, repo_id, "demo/shape.py").unwrap();
    assert_eq!(get_dependencies(&store, "area", Some(1)), vec![("helper".to_string(), Some(1))]);
    assert_eq!(get_dependencies(&store, "area", None), Vec::new());
    assert_eq!(
        get_dependencies(&store, "main", None),
        vec![
            ("Shape".to_string(), None),
            ("print".to_string(), None),
            ("helper".to_string(), None)
        ]
    );
    let helper_edges = store.dependencies().iter().filter(|e| e.dependency == "helper").count();
    assert_eq!(helper_edges, 2);
}

#[test]
fn same_named_classes_in_two_files_get_their_own_ids() {
    let first = parse_source("class Node:\n    def left(self):\n        pass\n").unwrap();
    let second = parse_source("class Node:\n    def right(self):\n        pass\n").unwrap();
    let (mut store, repo_id) = store_with_repository();
    extract_classes_and_functions(&first, &mut store, repo_id, "a/node.py").unwrap();
    extract_classes_and_functions(&second, &mut store, repo_id, "b/node.py").unwrap();
    let classes = store.classes();
    assert_eq!(classes.len(), 2);
    assert_eq!(classes[0].name, "Node");
    assert_eq!(classes[1].name, "Node");
    assert_ne!(classes[0].id, classes[1].id);
    let functions = store.functions();
    assert_eq!(functions[0].name, "left");
    assert_eq!(functions[0].class_id, classes[0].id);
    assert_eq!(functions[0].file_location, classes[0].file_location);
    assert_eq!(functions[1].name, "right");
    assert_eq!(functions[1].class_id, classes[1].id);
    assert_eq!(functions[1].file_location, "b/node.py");
}

#[test]
fn nested_functions_are_recorded_without_a_class() {
    let tree = parse_source("def outer():\n    def inner():\n        go()\n    inner()\n").unwrap();
    let (mut store, repo_id) = store_with_repository();
    extract_classes_and_functions(&tree, &mut store, repo_id, "n.py").unwrap();
    let rows: Vec<(String, Option<i32>)> =
        store.functions().iter().map(|f| (f.name.clone(), f.class_id)).collect();
    assert_eq!(rows, vec![("outer".to_string(), None), ("inner".to_string(), None)]);
    assert_eq!(
        get_dependencies(&store, "outer", None),
        vec![("go".to_string(), None), ("inner".to_string(), None)]
    );
}

#[test]
fn functions_below_other_statements_are_not_recorded() {
    let tree = parse_source("if True:\n    def hidden():\n        pass\n\ndef seen():\n    pass\n").unwrap();
    let (mut store, repo_id) = store_with_repository();
    extract_classes_and_functions(&tree, &mut store, repo_id, "h.py").unwrap();
    let names: Vec<String> = store.functions().iter().map(|f| f.name.clone()).collect();
    assert_eq!(names, vec!["seen".to_string()]);
}

#[test]
fn indexing_needs_the_repository() {
    let tree = parse_source(SAMPLE).unwrap();
    let mut store = Store::new();
    assert_eq!(
        extract_classes_and_functions(&tree, &mut store, 1, "x.py"),
        Err(IndexError::StoreFailure)
    );
    assert_eq!(store.functions().len(), 0);
    assert_eq!(store.classes().len(), 0);
}

#[test]
fn a_file_that_does_not_parse_leaves_the_store() {
    let (mut store, repo_id) = store_with_repository();
    assert_eq!(
        parse_file("def broken(:\n", &mut store, repo_id, "bad.py"),
        Err(IndexError::ParseFailure)
    );
    assert_eq!(store.functions().len(), 0);
    assert_eq!(parse_file("def fine():\n    pass\n", &mut store, repo_id, "ok.py"), Ok(()));
    assert_eq!(store.functions().len(), 1);
}

#[test]
fn a_bad_file_does_not_stop_the_repository() {
    let files = vec![
        SourceFile { path: "a.py".to_string(), code: Some("def a():\n    b()\n".to_string()) },
        SourceFile { path: "bad.py".to_string(), code: Some("def (\n".to_string()) },
        SourceFile { path: "gone.py".to_string(), code: None },
        SourceFile { path: "b.py".to_string(), code: Some("def b():\n    pass\n".to_string()) },
    ];
    let (mut store, repo_id) = store_with_repository();
    assert_eq!(
        parse_repository(&files, &mut store, repo_id),
        Ok(vec![Ok(true), Err(IndexError::ParseFailure), Err(IndexError::IoFailure), Ok(true)])
    );
    let names: Vec<String> = store.functions().iter().map(|f| f.name.clone()).collect();
    assert_eq!(names, vec!["a".to_string(), "b".to_string()]);
}

#[test]
fn parse_repo_adds_the_repository_first() {
    let files = vec![SourceFile {
        path: "m.py".to_string(),
        code: Some("class C:\n    def m(self):\n        pass\n".to_string()),
    }];
    let mut store = Store::new();
    assert_eq!(parse_repo("first", &files, &mut store), Ok((1, vec![Ok(true)])));
    assert_eq!(parse_repo("second", &files, &mut store), Ok((2, vec![Ok(true)])));
    assert_eq!(store.repositories().len(), 2);
    assert_eq!(store.repositories()[1].name, "second");
    assert_eq!(store.repositories()[1].id, Some(2));
    assert_eq!(store.repositories()[1].description, None);
    assert_eq!(store.classes()[1].repo_id, 2);
    assert_eq!(store.functions()[1].class_id, Some(2));
    assert_eq!(store.functions()[1].repo_id, 2);
}

#[test]
fn a_row_that_the_store_refuses_ends_the_run() {
    let files = vec![
        SourceFile { path: "gone.py".to_string(), code: None },
        SourceFile { path: "a.py".to_string(), code: Some("def a():\n    pass\n".to_string()) },
        SourceFile { path: "b.py".to_string(), code: Some("def b():\n    pass\n".to_string()) },
    ];
    let mut store = Store::new();
    assert_eq!(parse_repository(&files, &mut store, 7), Err(IndexError::StoreFailure));
    assert_eq!(store.functions().len(), 0);
    let no_definitions = vec![SourceFile { path: "c.py".to_string(), code: Some("x = 1\n".to_string()) }];
    assert_eq!(parse_repository(&no_definitions, &mut store, 7), Ok(vec![Ok(true)]));
    assert_eq!(parse_repository(&Vec::new(), &mut store, 7), Ok(Vec::new()));
}

#[test]
fn source_files_end_in_py() {
    assert!(is_source_file("a.py"));
    assert!(is_source_file("src/pkg/mod.py"));
    assert!(is_source_file("dir.d/x.y.py"));
    assert!(!is_source_file("a.pyc"));
    assert!(!is_source_file("a.txt"));
    assert!(!is_source_file("py"));
    assert!(!is_source_file(".py"));
    assert!(!is_source_file("dir.py/readme"));
    assert!(!is_source_file("a.py/"));
    assert!(!is_source_file(""));
}

#[test]
fn parameters_keep_the_brackets_that_belong_to_them() {
    let tree = parse_source("def f(a, b=g()):\n    pass\n").unwrap();
    let f = find_nodes(&tree, NodeKind::FunctionDefinition)[0];
    assert_eq!(extract_parameters(&tree, f), Some("a, b=g()".to_string()));
    let tree = parse_source("def f((a), b=(1, (2, 3))):\n    pass\n");
    if let Ok(tree) = tree {
        let f = find_nodes(&tree, NodeKind::FunctionDefinition)[0];
        assert_eq!(extract_parameters(&tree, f), Some("(a), b=(1, (2, 3))".to_string()));
    }
    let tree = parse_source(
        "class C:\n    def __init__(self, size: int = len(()), pair: Tuple[int, int] = (1, 2)):\n        pass\n",
    )
    .unwrap();
    let class = find_nodes(&tree, NodeKind::ClassDefinition)[0];
    assert_eq!(
        extract_attribute_list(&tree, class),
        vec!["size: int = len(())".to_string(), "pair: Tuple[int, int] = (1, 2)".to_string()]
    );
    let (mut store, repo_id) = store_with_repository();
    extract_classes_and_functions(&tree, &mut store, repo_id, "c.py").unwrap();
    assert_eq!(
        store.functions()[0].parameters,
        Some("self, size: int = len(()), pair: Tuple[int, int] = (1, 2)".to_string())
    );
}

#[test]
fn files_that_are_no_source_files_are_passed_over() {
    let code = "def f():\n    pass\n";
    let files = vec![
        SourceFile { path: "repo/a.py".to_string(), code: Some(code.to_string()) },
        SourceFile { path: "repo/notes.txt".to_string(), code: Some(code.to_string()) },
        SourceFile { path: "repo/node_modules/b.py".to_string(), code: Some(code.to_string()) },
        SourceFile { path: "repo/.git/config".to_string(), code: None },
        SourceFile { path: "repo/build/deep/c.py".to_string(), code: Some(code.to_string()) },
        SourceFile { path: "repo/py".to_string(), code: Some(code.to_string()) },
    ];
    let (mut store, repo_id) = store_with_repository();
    assert_eq!(
        parse_repository(&files, &mut store, repo_id),
        Ok(vec![Ok(true), Ok(false), Ok(true), Ok(false), Ok(true), Ok(false)])
    );
    let places: Vec<String> = store.functions().iter().map(|f| f.file_location.clone()).collect();
    assert_eq!(places, vec!["repo/a.py", "repo/node_modules/b.py", "repo/build/deep/c.py"]);
    for function in store.functions() {
        assert!(function.file_location.ends_with(".py"));
        assert_eq!(function.repo_id, repo_id);
    }
}

#[test]
fn repositories_keep_their_description() {
    let mut store = Store::new();
    let with = Repository { id: None, name: "a".to_string(), description: Some("about".to_string()) };
    let without = Repository { id: Some(9), name: "b".to_string(), description: None };
    assert_eq!(insert_repository(&mut store, &with), Ok(1));
    assert_eq!(insert_repository(&mut store, &without), Ok(2));
    assert_eq!(store.repositories()[0].description, Some("about".to_string()));
    assert_eq!(store.repositories()[1].description, None);
    assert_eq!(store.repositories()[1].id, Some(2));
    assert_eq!(store.repositories()[1].name, "b");
    assert_eq!(store.classes().len(), 0);
    assert_eq!(store.functions().len(), 0);
    assert_eq!(store.dependencies().len(), 0);
}

#[test]
fn a_repository_gets_one_row_for_each_definition() {
    let files = vec![
        SourceFile { path: "pkg/shape.py".to_string(), code: Some(SAMPLE.to_string()) },
        SourceFile {
            path: "pkg/sub/node.py".to_string(),
            code: Some("class Node:\n    def left(self):\n        pass\n\nclass Leaf:\n    pass\n".to_string()),
        },
        SourceFile { path: "pkg/README.md".to_string(), code: Some("class Not: pass".to_string()) },
        SourceFile { path: "pkg/free.py".to_string(), code: Some("def free():\n    pass\n".to_string()) },
    ];
    let (mut store, repo_id) = store_with_repository();
    let other = insert_repository(
        &mut store,
        &Repository { id: None, name: "other".to_string(), description: None },
    )
    .unwrap();
    parse_repository(
        &vec![SourceFile { path: "o.py".to_string(), code: Some("def o():\n    pass\n".to_string()) }],
        &mut store,
        other,
    )
    .unwrap();
    assert_eq!(
        parse_repository(&files, &mut store, repo_id),
        Ok(vec![Ok(true), Ok(true), Ok(false), Ok(true)])
    );
    let classes = store.classes().iter().filter(|c| c.repo_id == repo_id).count();
    let functions = store.functions().iter().filter(|f| f.repo_id == repo_id).count();
    assert_eq!(classes, 3);
    assert_eq!(functions, 7);
    assert_eq!(store.classes().len(), 3);
    assert_eq!(store.functions().len(), 8);
    let mut ids: Vec<Option<i32>> = store.classes().iter().map(|c| c.id).collect();
    ids.dedup();
    assert_eq!(ids, vec![Some(1), Some(2), Some(3)]);
    for function in store.functions() {
        if let Some(class_id) = function.class_id {
            let class = &store.classes()[(class_id - 1) as usize];
            assert_eq!(class.file_location, function.file_location);
        }
    }
}
