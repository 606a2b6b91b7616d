use autocontain::chat::{build_flow, format_program_flow, reconstruct_flow, render_flow, FlowLine};
use autocontain::db::{
    get_function_description, insert_class, insert_dependencies, insert_function, insert_repository, Store,
};
use autocontain::models::{Function, IndexError, Repository};

fn function(name: &str, class_id: Option<i32>, docstring: Option<&str>) -> Function {
    Function {
        id: None,
        repo_id: 1,
        class_id,
        name: name.to_string(),
        parameters: None,
        return_type: None,
        file_location: "f.py".to_string(),
        start_line: 0,
        end_line: 1,
        docstring: docstring.map(|d| d.to_string()),
    }
}

fn store_of(functions: &[(&str, Option<&str>)], edges: &[(&str, &[&str])]) -> Store {
    let mut store = Store::new();
    insert_repository(&mut store, &Repository { id: None, name: "r".to_string(), description: None })
        .unwrap();
    for (name, doc) in functions {
        insert_function(&mut store, &function(name, None, *doc)).unwrap();
    }
    for (caller, callees) in edges {
        let names: Vec<String> = callees.iter().map(|c| c.to_string()).collect();
        insert_dependencies(&mut store, caller, None, &names).unwrap();
    }
    store
}

fn keys(lines: &[FlowLine]) -> Vec<(String, usize)> {
    lines.iter().map(|l| (l.name.clone(), l.level)).collect()
}

#[test]
fn absent_entry_gives_one_placeholder_entry() {
    let store = Store::new();
    let lines = build_flow(&store, "main", None);
    assert_eq!(lines.len(), 1);
    assert_eq!(lines[0].name, "main");
    assert_eq!(lines[0].class_id, None);
    assert_eq!(lines[0].level, 0);
    assert_eq!(lines[0].description, "No description available");
    assert_eq!(
        reconstruct_flow(&store, "main"),
        "- Function: main\n  - Purpose: No description available\n"
    );
}

#[test]
fn self_recursion_is_emitted_once() {
    let store = store_of(&[("main", Some("Loops."))], &[("main", &["main"])]);
    let lines = build_flow(&store, "main", None);
    assert_eq!(keys(&lines), vec![("main".to_string(), 0)]);
    assert_eq!(lines[0].description, "Loops.");
}

#[test]
fn mutual_recursion_ends() {
    let store = store_of(
        &[("main", Some("Start.")), ("ping", Some("Pings.")), ("pong", None)],
        &[("main", &["ping"]), ("ping", &["pong"]), ("pong", &["ping", "main"])],
    );
    let lines = build_flow(&store, "main", None);
    assert_eq!(
        keys(&lines),
        vec![("main".to_string(), 0), ("ping".to_string(), 1), ("pong".to_string(), 2)]
    );
    assert_eq!(lines[2].description, "No description available");
}

#[test]
fn shared_dependency_is_emitted_once() {
    let store = store_of(
        &[("main", None), ("left", None), ("right", None), ("leaf", Some("Shared."))],
        &[("main", &["left", "right"]), ("left", &["leaf"]), ("right", &["leaf"])],
    );
    let lines = build_flow(&store, "main", None);
    assert_eq!(
        keys(&lines),
        vec![
            ("main".to_string(), 0),
            ("left".to_string(), 1),
            ("leaf".to_string(), 2),
            ("right".to_string(), 1),
        ]
    );
}

#[test]
fn flow_text_is_indented_by_level() {
    let store = store_of(
        &[("main", Some("Entry point.")), ("helper", Some("Helps."))],
        &[("main", &["helper", "print"])],
    );
    assert_eq!(
        reconstruct_flow(&store, "main"),
        "- Function: main\n  - Purpose: Entry point.\n  - Function: helper\n    - Purpose: Helps.\n  - Function: print\n    - Purpose: No description available\n"
    );
    assert_eq!(
        format_program_flow(&store),
        "The program follows this logic flow:\n\n- Function: main\n  - Purpose: Entry point.\n  - Function: helper\n    - Purpose: Helps.\n  - Function: print\n    - Purpose: No description available\n"
    );
}

#[test]
fn render_of_no_entries_is_empty() {
    assert_eq!(render_flow(&Vec::new()), "");
    let one = vec![FlowLine {
        name: "f".to_string(),
        class_id: Some(3),
        level: 2,
        description: "d".to_string(),
    }];
    assert_eq!(render_flow(&one), "    - Function: f\n      - Purpose: d\n");
}

#[test]
fn flow_follows_the_class_of_the_edge() {
    let mut store = Store::new();
    insert_repository(&mut store, &Repository { id: None, name: "r".to_string(), description: None })
        .unwrap();
    insert_class(&mut store, &autocontain::models::Class {
            id: None,
            repo_id: 1,
            name: "C".to_string(),
            attributes: None,
            file_location: "c.py".to_string(),
            start_line: 0,
            end_line: 9,
            docstring: None,
        })
        .unwrap();
    insert_function(&mut store, &function("run", Some(1), Some("Runs."))).unwrap();
    insert_function(&mut store, &function("step", Some(1), Some("Steps."))).unwrap();
    insert_function(&mut store, &function("step", None, Some("Free step."))).unwrap();
    insert_dependencies(&mut store, "run", Some(1), &vec!["step".to_string()]).unwrap();
    let lines = build_flow(&store, "run", Some(1));
    assert_eq!(keys(&lines), vec![("run".to_string(), 0), ("step".to_string(), 1)]);
    assert_eq!(lines[1].class_id, Some(1));
    assert_eq!(lines[1].description, "Steps.");
    let free = build_flow(&store, "run", None);
    assert_eq!(keys(&free), vec![("run".to_string(), 0)]);
    assert_eq!(free[0].description, "No description available");
}

#[test]
fn descriptions_are_looked_up_by_name_and_class() {
    let store = store_of(&[("a", Some("first")), ("a", Some("second")), ("b", None)], &[]);
    assert_eq!(get_function_description(&store, "a", None), Ok("first".to_string()));
    assert_eq!(get_function_description(&store, "b", None), Err(IndexError::NotFound));
    assert_eq!(get_function_description(&store, "c", None), Err(IndexError::NotFound));
    assert_eq!(get_function_description(&store, "a", Some(1)), Err(IndexError::NotFound));
}
