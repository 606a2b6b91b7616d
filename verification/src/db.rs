use crate::models::{
    text_opt, Class, ClassView, DependencyEdge, DependencyEdgeView, Function, FunctionView,
    IndexError, Repository, RepositoryView,
};
use crate::text::{same_text, texts};
use vstd::prelude::*;

verus! {

/// What a store holds: its four tables, each in the order in which its rows
/// were inserted, and the id that the last insertion assigned.
pub struct StoreView {
    pub repositories: Seq<RepositoryView>,
    pub classes: Seq<ClassView>,
    pub functions: Seq<FunctionView>,
    pub dependencies: Seq<DependencyEdgeView>,
    pub last_insert_id: i32,
}

impl StoreView {
    /// Whether `id` is the id of a repository of the store.
    pub open spec fn has_repository(self, id: i32) -> bool {
        1 <= id <= self.repositories.len()
    }

    /// Whether `id` is the id of a class of the store.
    pub open spec fn has_class(self, id: i32) -> bool {
        1 <= id <= self.classes.len()
    }

    /// Whether the class that `class_id` names, where it names one, is a class
    /// of the repository `repo_id`.
    pub open spec fn class_in_repository(self, class_id: Option<i32>, repo_id: i32) -> bool {
        class_id matches Some(c) ==> self.has_class(c) && self.classes[c - 1].repo_id == repo_id
    }

    /// The rows carry their ids in the order of insertion, starting at one; each
    /// class and function belongs to a repository of the store, each method to
    /// a class of its own repository, and each dependency of a method to a class
    /// of the store.
    pub open spec fn wf(self) -> bool {
        &&& self.repositories.len() <= i32::MAX
        &&& self.classes.len() <= i32::MAX
        &&& self.functions.len() <= i32::MAX
        &&& forall|k: int|
            0 <= k < self.repositories.len() ==> (#[trigger] self.repositories[k]).id == Some(
                (k + 1) as i32,
            )
        &&& forall|k: int|
            0 <= k < self.classes.len() ==> {
                &&& (#[trigger] self.classes[k]).id == Some((k + 1) as i32)
                &&& self.has_repository(self.classes[k].repo_id)
            }
        &&& forall|k: int|
            0 <= k < self.functions.len() ==> {
                &&& (#[trigger] self.functions[k]).id == Some((k + 1) as i32)
                &&& self.has_repository(self.functions[k].repo_id)
                &&& self.class_in_repository(self.functions[k].class_id, self.functions[k].repo_id)
            }
        &&& forall|k: int|
            0 <= k < self.dependencies.len() ==> ((#[trigger] self.dependencies[k]).class_id matches Some(
                c,
            ) ==> self.has_class(c))
    }
}

impl StoreView {
    /// The store with one more repository, `repo` under the next id, with its
    /// name and its description as they are given.
    pub open spec fn with_repository(self, repo: RepositoryView) -> StoreView {
        let id = (self.repositories.len() + 1) as i32;
        StoreView {
            repositories: self.repositories.push(RepositoryView { id: Some(id), ..repo }),
            last_insert_id: id,
            ..self
        }
    }

    /// Whether the store takes one more repository.
    pub open spec fn accepts_repository(self) -> bool {
        self.repositories.len() < i32::MAX
    }

    /// Whether the store takes the class `class`: it belongs to a repository of
    /// the store.
    pub open spec fn accepts_class(self, class: ClassView) -> bool {
        self.classes.len() < i32::MAX && self.has_repository(class.repo_id)
    }

    /// The store with one more class, `class` under the next id.
    pub open spec fn with_class(self, class: ClassView) -> StoreView {
        let id = (self.classes.len() + 1) as i32;
        StoreView {
            classes: self.classes.push(ClassView { id: Some(id), ..class }),
            last_insert_id: id,
            ..self
        }
    }

    /// Whether the store takes the function `function`: it belongs to a
    /// repository of the store and, where it is a method, to a class of that
    /// repository.
    pub open spec fn accepts_function(self, function: FunctionView) -> bool {
        &&& self.functions.len() < i32::MAX
        &&& self.has_repository(function.repo_id)
        &&& self.class_in_repository(function.class_id, function.repo_id)
    }

    /// The store with one more function, `function` under the next id.
    pub open spec fn with_function(self, function: FunctionView) -> StoreView {
        let id = (self.functions.len() + 1) as i32;
        StoreView {
            functions: self.functions.push(FunctionView { id: Some(id), ..function }),
            last_insert_id: id,
            ..self
        }
    }

    /// Whether the store takes dependencies of a function of the class
    /// `class_id`: where one is given, it is a class of the store.
    pub open spec fn accepts_dependencies(self, class_id: Option<i32>) -> bool {
        class_id matches Some(c) ==> self.has_class(c)
    }

    /// The store with one more dependency for each name of `names`, in order.
    pub open spec fn with_dependencies(
        self,
        function_name: Seq<char>,
        class_id: Option<i32>,
        names: Seq<Seq<char>>,
    ) -> StoreView {
        StoreView {
            dependencies: self.dependencies + Seq::new(
                names.len(),
                |k: int|
                    DependencyEdgeView { function_name, dependency: names[k], class_id },
            ),
            ..self
        }
    }
}

/// A store that takes a class is well formed with it.
pub proof fn lemma_with_class(store: StoreView, class: ClassView)
    requires
        store.wf(),
        store.accepts_class(class),
    ensures
        store.with_class(class).wf(),
{
}

/// A store that takes a function is well formed with it.
pub proof fn lemma_with_function(store: StoreView, function: FunctionView)
    requires
        store.wf(),
        store.accepts_function(function),
    ensures
        store.with_function(function).wf(),
{
}

/// A store that takes the dependencies of a function is well formed with them.
pub proof fn lemma_with_dependencies(
    store: StoreView,
    function_name: Seq<char>,
    class_id: Option<i32>,
    names: Seq<Seq<char>>,
)
    requires
        store.wf(),
        store.accepts_dependencies(class_id),
    ensures
        store.with_dependencies(function_name, class_id, names).wf(),
{
}

/// Referential consistency: in a well-formed store each method belongs to a
/// class of the store, and that class to the repository of the method.
pub proof fn lemma_method_has_class(store: StoreView, k: int, c: i32)
    requires
        store.wf(),
        0 <= k < store.functions.len(),
        store.functions[k].class_id == Some(c),
    ensures
        1 <= c <= store.classes.len(),
        store.classes[c - 1].id == Some(c),
        store.classes[c - 1].repo_id == store.functions[k].repo_id,
        store.has_repository(store.functions[k].repo_id),
{
}

/// In a well-formed store no two classes have the same id, whatever their names.
pub proof fn lemma_class_ids_differ(store: StoreView, c: int, d: int)
    requires
        store.wf(),
        0 <= c < d < store.classes.len(),
    ensures
        store.classes[c].id != store.classes[d].id,
{
}

/// The views of the rows `rows`.
pub open spec fn repository_rows(rows: Seq<Repository>) -> Seq<RepositoryView> {
    Seq::new(rows.len(), |k: int| rows[k]@)
}

/// The views of the rows `rows`.
pub open spec fn class_rows(rows: Seq<Class>) -> Seq<ClassView> {
    Seq::new(rows.len(), |k: int| rows[k]@)
}

/// The views of the rows `rows`.
pub open spec fn function_rows(rows: Seq<Function>) -> Seq<FunctionView> {
    Seq::new(rows.len(), |k: int| rows[k]@)
}

/// The views of the rows `rows`.
pub open spec fn dependency_rows(rows: Seq<DependencyEdge>) -> Seq<DependencyEdgeView> {
    Seq::new(rows.len(), |k: int| rows[k]@)
}

/// A relational store of repositories, classes, functions and dependencies.
pub struct Store {
    repositories: Vec<Repository>,
    classes: Vec<Class>,
    functions: Vec<Function>,
    dependencies: Vec<DependencyEdge>,
    last_insert_id: i32,
}

impl View for Store {
    type V = StoreView;

    closed spec fn view(&self) -> StoreView {
        StoreView {
            repositories: repository_rows(self.repositories@),
            classes: class_rows(self.classes@),
            functions: function_rows(self.functions@),
            dependencies: dependency_rows(self.dependencies@),
            last_insert_id: self.last_insert_id,
        }
    }
}

/// The dependencies that `edges` record for the function `name` of the class
/// `class_id`, or of no class where none is given, each with the class of its
/// row, in the order of the rows.
pub open spec fn edges_of(
    edges: Seq<DependencyEdgeView>,
    name: Seq<char>,
    class_id: Option<i32>,
) -> Seq<(Seq<char>, Option<i32>)>
    decreases edges.len(),
{
    if edges.len() == 0 {
        Seq::empty()
    } else {
        let before = edges_of(edges.drop_last(), name, class_id);
        let edge = edges.last();
        if edge.function_name == name && edge.class_id == class_id {
            before.push((edge.dependency, edge.class_id))
        } else {
            before
        }
    }
}

/// The docstring of the first of `functions` that has the name `name` and the
/// class `class_id`, or no class where none is given.
pub open spec fn description_of(
    functions: Seq<FunctionView>,
    name: Seq<char>,
    class_id: Option<i32>,
) -> Option<Seq<char>>
    decreases functions.len(),
{
    if functions.len() == 0 {
        None
    } else if functions.first().name == name && functions.first().class_id == class_id {
        functions.first().docstring
    } else {
        description_of(functions.drop_first(), name, class_id)
    }
}

/// The views of the pairs `pairs`.
pub open spec fn pair_views(pairs: Seq<(String, Option<i32>)>) -> Seq<(Seq<char>, Option<i32>)> {
    Seq::new(pairs.len(), |k: int| (pairs[k].0@, pairs[k].1))
}

/// Whether two optional class ids are the same.
pub fn same_class(a: Option<i32>, b: Option<i32>) -> (r: bool)
    ensures
        r == (a == b),
{
    match (a, b) {
        (Some(x), Some(y)) => x == y,
        (None, None) => true,
        _ => false,
    }
}

/// A copy of an optional string.
pub fn copy_opt(s: &Option<String>) -> (r: Option<String>)
    ensures
        text_opt(r) == text_opt(*s),
{
    match s {
        Some(s) => Some(s.clone()),
        None => None,
    }
}

impl Store {
    /// The rows of the store are consistent: see `StoreView::wf`.
    pub open spec fn wf(&self) -> bool {
        self@.wf()
    }

    /// A store without rows.
    pub fn new() -> (store: Store)
        ensures
            store.wf(),
            store@.repositories.len() == 0,
            store@.classes.len() == 0,
            store@.functions.len() == 0,
            store@.dependencies.len() == 0,
            store@.last_insert_id == 0,
    {
        Store {
            repositories: Vec::new(),
            classes: Vec::new(),
            functions: Vec::new(),
            dependencies: Vec::new(),
            last_insert_id: 0,
        }
    }

    /// The store that holds the given rows, where they make a well-formed one.
    pub fn from_rows(
        repositories: Vec<Repository>,
        classes: Vec<Class>,
        functions: Vec<Function>,
        dependencies: Vec<DependencyEdge>,
    ) -> (r: Option<Store>)
        ensures
            ({
                let view = StoreView {
                    repositories: repository_rows(repositories@),
                    classes: class_rows(classes@),
                    functions: function_rows(functions@),
                    dependencies: dependency_rows(dependencies@),
                    last_insert_id: 0,
                };
                match r {
                    Some(store) => view.wf() && store@ == view,
                    None => !view.wf(),
                }
            }),
    {
        let ghost view = StoreView {
            repositories: repository_rows(repositories@),
            classes: class_rows(classes@),
            functions: function_rows(functions@),
            dependencies: dependency_rows(dependencies@),
            last_insert_id: 0,
        };
        let limit = i32::MAX as usize;
        if repositories.len() > limit || classes.len() > limit || functions.len() > limit {
            return None;
        }
        let mut k: usize = 0;
        while k < repositories.len()
            invariant
                k <= repositories@.len() <= i32::MAX,
                view.repositories == repository_rows(repositories@),
                forall|j: int| 0 <= j < k ==> (#[trigger] view.repositories[j]).id == Some((j + 1) as i32),
            decreases repositories@.len() - k,
        {
            assert(view.repositories[k as int] == repositories@[k as int]@);
            match repositories[k].id {
                Some(id) => {
                    if id != (k + 1) as i32 {
                        return None;
                    }
                },
                None => {
                    return None;
                },
            }
            k += 1;
        }
        k = 0;
        while k < classes.len()
            invariant
                k <= classes@.len() <= i32::MAX,
                repositories@.len() <= i32::MAX,
                view.classes == class_rows(classes@),
                view.repositories.len() == repositories@.len(),
                forall|j: int|
                    0 <= j < k ==> {
                        &&& (#[trigger] view.classes[j]).id == Some((j + 1) as i32)
                        &&& view.has_repository(view.classes[j].repo_id)
                    },
            decreases classes@.len() - k,
        {
            assert(view.classes[k as int] == classes@[k as int]@);
            let row = &classes[k];
            match row.id {
                Some(id) => {
                    if id != (k + 1) as i32 {
                        return None;
                    }
                },
                None => {
                    return None;
                },
            }
            if row.repo_id < 1 || row.repo_id as usize > repositories.len() {
                return None;
            }
            k += 1;
        }
        k = 0;
        while k < functions.len()
            invariant
                k <= functions@.len() <= i32::MAX,
                repositories@.len() <= i32::MAX,
                classes@.len() <= i32::MAX,
                view.functions == function_rows(functions@),
                view.classes == class_rows(classes@),
                view.repositories.len() == repositories@.len(),
                forall|j: int|
                    0 <= j < k ==> {
                        &&& (#[trigger] view.functions[j]).id == Some((j + 1) as i32)
                        &&& view.has_repository(view.functions[j].repo_id)
                        &&& view.class_in_repository(
                            view.functions[j].class_id,
                            view.functions[j].repo_id,
                        )
                    },
            decreases functions@.len() - k,
        {
            assert(view.functions[k as int] == functions@[k as int]@);
            let row = &functions[k];
            match row.id {
                Some(id) => {
                    if id != (k + 1) as i32 {
                        return None;
                    }
                },
                None => {
                    return None;
                },
            }
            if row.repo_id < 1 || row.repo_id as usize > repositories.len() {
                return None;
            }
            match row.class_id {
                Some(c) => {
                    if c < 1 || c as usize > classes.len() {
                        return None;
                    }
                    assert(view.classes[c - 1] == classes@[c - 1]@);
                    if classes[c as usize - 1].repo_id != row.repo_id {
                        return None;
                    }
                },
                None => {},
            }
            k += 1;
        }
        k = 0;
        while k < dependencies.len()
            invariant
                k <= dependencies@.len(),
                classes@.len() <= i32::MAX,
                view.dependencies == dependency_rows(dependencies@),
                view.classes.len() == classes@.len(),
                forall|j: int|
                    0 <= j < k ==> ((#[trigger] view.dependencies[j]).class_id matches Some(c)
                        ==> view.has_class(c)),
            decreases dependencies@.len() - k,
        {
            assert(view.dependencies[k as int] == dependencies@[k as int]@);
            match dependencies[k].class_id {
                Some(c) => {
                    if c < 1 || c as usize > classes.len() {
                        return None;
                    }
                },
                None => {},
            }
            k += 1;
        }
        Some(Store { repositories, classes, functions, dependencies, last_insert_id: 0 })
    }

    /// The repositories, in the order of their ids.
    pub fn repositories(&self) -> (rows: &Vec<Repository>)
        ensures
            repository_rows(rows@) == self@.repositories,
    {
        &self.repositories
    }

    /// The classes, in the order of their ids.
    pub fn classes(&self) -> (rows: &Vec<Class>)
        ensures
            class_rows(rows@) == self@.classes,
    {
        &self.classes
    }

    /// The functions, in the order of their ids.
    pub fn functions(&self) -> (rows: &Vec<Function>)
        ensures
            function_rows(rows@) == self@.functions,
    {
        &self.functions
    }

    /// The dependencies, in the order in which they were added.
    pub fn dependencies(&self) -> (rows: &Vec<DependencyEdge>)
        ensures
            dependency_rows(rows@) == self@.dependencies,
    {
        &self.dependencies
    }

    /// The id that the last insertion assigned, or zero before the first.
    pub fn last_insert_id(&self) -> (id: i32)
        ensures
            id == self@.last_insert_id,
    {
        self.last_insert_id
    }
}

/// Adds the repository `repo`, with its name and description as they are
/// given, and returns the id that it got: one more than the number of
/// repositories before, and so greater than the id of each of them. The other
/// tables stay as they are.
pub fn insert_repository(store: &mut Store, repo: &Repository) -> (r: Result<i32, IndexError>)
    requires
        old(store).wf(),
    ensures
        final(store).wf(),
        match r {
            Ok(id) => {
                &&& old(store)@.accepts_repository()
                &&& id == old(store)@.repositories.len() + 1
                &&& final(store)@ == old(store)@.with_repository(repo@)
                &&& forall|k: int|
                    0 <= k < old(store)@.repositories.len() ==> (#[trigger] old(
                        store,
                    )@.repositories[k]).id == Some((k + 1) as i32) && k + 1 < id
            },
            Err(e) => {
                &&& !old(store)@.accepts_repository()
                &&& e == IndexError::StoreFailure
                &&& final(store)@ == old(store)@
            },
        },
{
    if store.repositories.len() >= i32::MAX as usize {
        return Err(IndexError::StoreFailure);
    }
    let id = (store.repositories.len() + 1) as i32;
    let row = Repository {
        id: Some(id),
        name: repo.name.clone(),
        description: copy_opt(&repo.description),
    };
    store.repositories.push(row);
    store.last_insert_id = id;
    proof {
        assert(store@.repositories =~= old(store)@.with_repository(repo@).repositories);
    }
    Ok(id)
}

/// Adds the class `class` under the next id.
pub fn insert_class(store: &mut Store, class: &Class) -> (r: Result<(), IndexError>)
    requires
        old(store).wf(),
    ensures
        final(store).wf(),
        match r {
            Ok(()) => {
                &&& old(store)@.accepts_class(class@)
                &&& final(store)@ == old(store)@.with_class(class@)
            },
            Err(e) => {
                &&& !old(store)@.accepts_class(class@)
                &&& e == IndexError::StoreFailure
                &&& final(store)@ == old(store)@
            },
        },
{
    if store.classes.len() >= i32::MAX as usize || class.repo_id < 1 || class.repo_id as usize
        > store.repositories.len() {
        return Err(IndexError::StoreFailure);
    }
    let id = (store.classes.len() + 1) as i32;
    let row = Class {
        id: Some(id),
        repo_id: class.repo_id,
        name: class.name.clone(),
        attributes: copy_opt(&class.attributes),
        file_location: class.file_location.clone(),
        start_line: class.start_line,
        end_line: class.end_line,
        docstring: copy_opt(&class.docstring),
    };
    store.classes.push(row);
    store.last_insert_id = id;
    proof {
        assert(store@.classes =~= old(store)@.with_class(class@).classes);
    }
    Ok(())
}

/// Adds the function `function` under the next id.
pub fn insert_function(store: &mut Store, function: &Function) -> (r: Result<(), IndexError>)
    requires
        old(store).wf(),
    ensures
        final(store).wf(),
        match r {
            Ok(()) => {
                &&& old(store)@.accepts_function(function@)
                &&& final(store)@ == old(store)@.with_function(function@)
            },
            Err(e) => {
                &&& !old(store)@.accepts_function(function@)
                &&& e == IndexError::StoreFailure
                &&& final(store)@ == old(store)@
            },
        },
{
    if store.functions.len() >= i32::MAX as usize || function.repo_id < 1
        || function.repo_id as usize > store.repositories.len() {
        return Err(IndexError::StoreFailure);
    }
    match function.class_id {
        Some(c) => {
            if c < 1 || c as usize > store.classes.len() {
                return Err(IndexError::StoreFailure);
            }
            if store.classes[c as usize - 1].repo_id != function.repo_id {
                assert(store@.classes[c - 1] == store.classes@[c - 1]@);
                return Err(IndexError::StoreFailure);
            }
            assert(store@.classes[c - 1] == store.classes@[c - 1]@);
        },
        None => {},
    }
    let id = (store.functions.len() + 1) as i32;
    let row = Function {
        id: Some(id),
        repo_id: function.repo_id,
        class_id: function.class_id,
        name: function.name.clone(),
        parameters: copy_opt(&function.parameters),
        return_type: copy_opt(&function.return_type),
        file_location: function.file_location.clone(),
        start_line: function.start_line,
        end_line: function.end_line,
        docstring: copy_opt(&function.docstring),
    };
    store.functions.push(row);
    store.last_insert_id = id;
    proof {
        assert(store@.functions =~= old(store)@.with_function(function@).functions);
    }
    Ok(())
}

/// Adds one dependency of the function `function_name` of the class
/// `class_id` for each name of `dependencies`, in order.
pub fn insert_dependencies(
    store: &mut Store,
    function_name: &str,
    class_id: Option<i32>,
    dependencies: &Vec<String>,
) -> (r: Result<(), IndexError>)
    requires
        old(store).wf(),
    ensures
        final(store).wf(),
        match r {
            Ok(()) => {
                &&& old(store)@.accepts_dependencies(class_id)
                &&& final(store)@ == old(store)@.with_dependencies(
                    function_name@,
                    class_id,
                    texts(dependencies@),
                )
            },
            Err(e) => {
                &&& !old(store)@.accepts_dependencies(class_id)
                &&& e == IndexError::StoreFailure
                &&& final(store)@ == old(store)@
            },
        },
{
    match class_id {
        Some(c) => {
            if c < 1 || c as usize > store.classes.len() {
                return Err(IndexError::StoreFailure);
            }
        },
        None => {},
    }
    let ghost names = texts(dependencies@);
    let mut k: usize = 0;
    assert(store@.dependencies =~= old(store)@.with_dependencies(
        function_name@,
        class_id,
        names.take(0),
    ).dependencies);
    while k < dependencies.len()
        invariant
            k <= dependencies@.len(),
            names == texts(dependencies@),
            store.wf(),
            old(store)@.accepts_dependencies(class_id),
            store@ == old(store)@.with_dependencies(function_name@, class_id, names.take(k as int)),
        decreases dependencies@.len() - k,
    {
        let edge = DependencyEdge {
            function_name: function_name.to_owned(),
            dependency: dependencies[k].clone(),
            class_id,
        };
        let ghost before = store@;
        store.dependencies.push(edge);
        proof {
            assert(names.take(k + 1)[k as int] == dependencies@[k as int]@);
            assert(store@.dependencies =~= before.dependencies.push(edge@));
            assert forall|j: int| 0 <= j < k implies names.take(k + 1)[j] == names.take(
                k as int,
            )[j] by {}
            assert(store@.dependencies =~= old(store)@.with_dependencies(
                function_name@,
                class_id,
                names.take(k + 1),
            ).dependencies);
        }
        k += 1;
    }
    assert(names.take(k as int) == names);
    Ok(())
}

/// The dependencies of the function `function_name` of the class
/// `class_id`, or of no class where none is given.
pub fn get_dependencies(store: &Store, function_name: &str, class_id: Option<i32>) -> (r: Vec<
    (String, Option<i32>),
>)
    ensures
        pair_views(r@) == edges_of(store@.dependencies, function_name@, class_id),
{
    let mut r: Vec<(String, Option<i32>)> = Vec::new();
    let mut k: usize = 0;
    let ghost edges = store@.dependencies;
    assert(pair_views(r@) =~= edges_of(edges.take(0), function_name@, class_id));
    while k < store.dependencies.len()
        invariant
            k <= store.dependencies@.len(),
            edges == store@.dependencies,
            pair_views(r@) == edges_of(edges.take(k as int), function_name@, class_id),
        decreases store.dependencies@.len() - k,
    {
        let edge = &store.dependencies[k];
        proof {
            assert(edges.take(k + 1).drop_last() == edges.take(k as int));
            assert(edges.take(k + 1).last() == edge@);
        }
        if same_text(edge.function_name.as_str(), function_name) && same_class(
            edge.class_id,
            class_id,
        ) {
            let pair = (edge.dependency.clone(), edge.class_id);
            assert(pair_views(r@.push(pair)) =~= pair_views(r@).push((pair.0@, pair.1)));
            r.push(pair);
        }
        k += 1;
    }
    assert(edges.take(k as int) == edges);
    r
}

/// The docstring of the function `function_name` of the class `class_id`,
/// or of no class where none is given: that of the first such row.
pub fn get_function_description(store: &Store, function_name: &str, class_id: Option<i32>) -> (r:
    Result<String, IndexError>)
    ensures
        match r {
            Ok(text) => description_of(store@.functions, function_name@, class_id) == Some(
                text@,
            ),
            Err(e) => e == IndexError::NotFound && description_of(
                store@.functions,
                function_name@,
                class_id,
            ) is None,
        },
{
    let mut k: usize = 0;
    let ghost rows = store@.functions;
    assert(rows.skip(0) == rows);
    while k < store.functions.len()
        invariant
            k <= store.functions@.len(),
            rows == store@.functions,
            description_of(rows, function_name@, class_id) == description_of(
                rows.skip(k as int),
                function_name@,
                class_id,
            ),
        decreases store.functions@.len() - k,
    {
        let row = &store.functions[k];
        proof {
            assert(rows.skip(k as int).drop_first() == rows.skip(k + 1));
            assert(rows.skip(k as int).first() == row@);
        }
        if same_text(row.name.as_str(), function_name) && same_class(row.class_id, class_id) {
            return match &row.docstring {
                Some(text) => Ok(text.clone()),
                None => Err(IndexError::NotFound),
            };
        }
        k += 1;
    }
    Err(IndexError::NotFound)
}

} // verus!
