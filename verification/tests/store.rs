use autocontain::db::{
    get_dependencies, get_function_description, insert_class, insert_dependencies, insert_function, insert_repository, Store,
};
use autocontain::models::{Class, DependencyEdge, Function, IndexError, Repository};

fn repository(name: &str, description: Option<&str>) -> Repository {
    Repository { id: None, name: name.to_string(), description: description.map(|d| d.to_string()) }
}

fn class(repo_id: i32, name: &str) -> Class {
    Class {
        id: None,
        repo_id,
        name: name.to_string(),
        attributes: Some("x: int".to_string()),
        file_location: "c.py".to_string(),
        start_line: 1,
        end_line: 5,
        docstring: None,
    }
}

fn function(repo_id: i32, class_id: Option<i32>, name: &str) -> Function {
    Function {
        id: None,
        repo_id,
        class_id,
        name: name.to_string(),
        parameters: Some("self".to_string()),
        return_type: None,
        file_location: "c.py".to_string(),
        start_line: 2,
        end_line: 3,
        docstring: Some("Doc.".to_string()),
    }
}

#[test]
fn repository_ids_grow_by_one() {
    let mut store = Store::new();
    assert_eq!(store.last_insert_id(), 0);
    assert_eq!(insert_repository(&mut store, &repository("a", Some("first"))), Ok(1));
    assert_eq!(insert_repository(&mut store, &repository("b", None)), Ok(2));
    assert_eq!(insert_repository(&mut store, &repository("a", None)), Ok(3));
    assert_eq!(store.last_insert_id(), 3);
    let rows = store.repositories();
    assert_eq!(rows[0].id, Some(1));
    assert_eq!(rows[0].name, "a");
    assert_eq!(rows[0].description, Some("first".to_string()));
    assert_eq!(rows[1].description, None);
    assert_eq!(rows[2].id, Some(3));
}

#[test]
fn class_id_is_read_after_the_insert() {
    let mut store = Store::new();
    insert_repository(&mut store, &repository("a", None)).unwrap();
    assert_eq!(insert_class(&mut store, &class(1, "A")), Ok(()));
    assert_eq!(store.last_insert_id(), 1);
    assert_eq!(insert_class(&mut store, &class(1, "A")), Ok(()));
    assert_eq!(store.last_insert_id(), 2);
    assert_eq!(store.classes().len(), 2);
    assert_eq!(store.classes()[1].id, Some(2));
    assert_eq!(store.classes()[1].attributes, Some("x: int".to_string()));
}

#[test]
fn class_of_unknown_repository_is_refused() {
    let mut store = Store::new();
    assert_eq!(insert_class(&mut store, &class(1, "A")), Err(IndexError::StoreFailure));
    insert_repository(&mut store, &repository("a", None)).unwrap();
    assert_eq!(insert_class(&mut store, &class(2, "A")), Err(IndexError::StoreFailure));
    assert_eq!(insert_class(&mut store, &class(0, "A")), Err(IndexError::StoreFailure));
    assert_eq!(insert_class(&mut store, &class(-1, "A")), Err(IndexError::StoreFailure));
    assert_eq!(store.classes().len(), 0);
    assert_eq!(store.last_insert_id(), 1);
}

#[test]
fn method_needs_a_class_of_its_repository() {
    let mut store = Store::new();
    insert_repository(&mut store, &repository("a", None)).unwrap();
    insert_repository(&mut store, &repository("b", None)).unwrap();
    insert_class(&mut store, &class(1, "A")).unwrap();
    assert_eq!(insert_function(&mut store, &function(1, Some(1), "m")), Ok(()));
    assert_eq!(insert_function(&mut store, &function(2, Some(1), "m")), Err(IndexError::StoreFailure));
    assert_eq!(insert_function(&mut store, &function(1, Some(2), "m")), Err(IndexError::StoreFailure));
    assert_eq!(insert_function(&mut store, &function(1, Some(0), "m")), Err(IndexError::StoreFailure));
    assert_eq!(insert_function(&mut store, &function(3, None, "f")), Err(IndexError::StoreFailure));
    assert_eq!(insert_function(&mut store, &function(2, None, "f")), Ok(()));
    assert_eq!(store.functions().len(), 2);
    assert_eq!(store.functions()[1].id, Some(2));
    assert_eq!(store.functions()[0].docstring, Some("Doc.".to_string()));
    assert_eq!(store.last_insert_id(), 2);
}

#[test]
fn dependencies_keep_their_order_and_repeat_across_runs() {
    let mut store = Store::new();
    insert_repository(&mut store, &repository("a", None)).unwrap();
    insert_class(&mut store, &class(1, "A")).unwrap();
    let names = vec!["x".to_string(), "y".to_string()];
    assert_eq!(insert_dependencies(&mut store, "f", None, &names), Ok(()));
    assert_eq!(insert_dependencies(&mut store, "f", Some(1), &vec!["z".to_string()]), Ok(()));
    assert_eq!(insert_dependencies(&mut store, "f", None, &names), Ok(()));
    assert_eq!(insert_dependencies(&mut store, "f", Some(2), &names), Err(IndexError::StoreFailure));
    assert_eq!(
        get_dependencies(&store, "f", None),
        vec![
            ("x".to_string(), None),
            ("y".to_string(), None),
            ("x".to_string(), None),
            ("y".to_string(), None)
        ]
    );
    assert_eq!(get_dependencies(&store, "f", Some(1)), vec![("z".to_string(), Some(1))]);
    assert_eq!(get_dependencies(&store, "g", None), Vec::new());
    assert_eq!(store.dependencies().len(), 5);
}

#[test]
fn rows_make_a_store_when_they_are_consistent() {
    let mut repo = repository("a", None);
    repo.id = Some(1);
    let mut c = class(1, "A");
    c.id = Some(1);
    let mut f = function(1, Some(1), "m");
    f.id = Some(1);
    let edge =
        DependencyEdge { function_name: "m".to_string(), dependency: "n".to_string(), class_id: Some(1) };
    let store = Store::from_rows(vec![repo], vec![c], vec![f], vec![edge]).unwrap();
    assert_eq!(store.last_insert_id(), 0);
    assert_eq!(get_dependencies(&store, "m", Some(1)), vec![("n".to_string(), Some(1))]);
    assert_eq!(get_function_description(&store, "m", Some(1)), Ok("Doc.".to_string()));
}

#[test]
fn rows_with_gaps_make_no_store() {
    let mut repo = repository("a", None);
    repo.id = Some(2);
    assert!(Store::from_rows(vec![repo], vec![], vec![], vec![]).is_none());
    assert!(Store::from_rows(vec![repository("a", None)], vec![], vec![], vec![]).is_none());
    let mut repo = repository("a", None);
    repo.id = Some(1);
    let mut f = function(1, Some(1), "m");
    f.id = Some(1);
    assert!(Store::from_rows(vec![repo], vec![], vec![f], vec![]).is_none());
    let edge =
        DependencyEdge { function_name: "m".to_string(), dependency: "n".to_string(), class_id: Some(1) };
    assert!(Store::from_rows(vec![], vec![], vec![], vec![edge]).is_none());
    assert!(Store::from_rows(vec![], vec![], vec![], vec![]).is_some());
}
