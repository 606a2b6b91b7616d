use crate::db::{
    class_rows, dependency_rows, function_rows, repository_rows, Store, StoreView,
};
use crate::models::{
    Class, DependencyEdge, Function, IndexError, Repository, RepositoryView,
};
use crate::parser::{
    file_views, repository_indexed, repository_refused, SourceFile, SourceFileView,
};
use crate::repo::parse_repo;
use vstd::prelude::*;

verus! {

/// `rusqlite::Connection`, an open database.
#[verifier::external_type_specification]
#[verifier::external_body]
pub struct ExConnection(rusqlite::Connection);

/// `rusqlite::Error`, why the database refused a statement.
#[verifier::external_type_specification]
#[verifier::external_body]
pub struct ExError(rusqlite::Error);

/// The statements that create the four tables of the index where they are
/// missing.
pub const CREATE_TABLES: &'static str =
    "CREATE TABLE IF NOT EXISTS repositories (
            id INTEGER PRIMARY KEY, name TEXT NOT NULL, description TEXT);
         CREATE TABLE IF NOT EXISTS classes (
            id INTEGER PRIMARY KEY, repo_id INTEGER, name TEXT NOT NULL, attributes TEXT,
            file_location TEXT, start_line INTEGER, end_line INTEGER, docstring TEXT,
            FOREIGN KEY(repo_id) REFERENCES repositories(id));
         CREATE TABLE IF NOT EXISTS functions (
            id INTEGER PRIMARY KEY, repo_id INTEGER, class_id INTEGER, name TEXT NOT NULL,
            parameters TEXT, return_type TEXT, file_location TEXT, start_line INTEGER,
            end_line INTEGER, docstring TEXT,
            FOREIGN KEY(repo_id) REFERENCES repositories(id),
            FOREIGN KEY(class_id) REFERENCES classes(id));
         CREATE TABLE IF NOT EXISTS function_dependencies (
            function_name TEXT NOT NULL, dependency TEXT NOT NULL, class_id INTEGER,
            FOREIGN KEY(class_id) REFERENCES classes(id));";

/// The statement that reads the repositories in the order of their ids.
pub const SELECT_REPOSITORIES: &'static str =
    "SELECT id, name, description FROM repositories ORDER BY id";

/// The statement that reads the classes in the order of their ids.
pub const SELECT_CLASSES: &'static str =
    "SELECT id, repo_id, name, attributes, file_location, start_line, end_line, docstring
         FROM classes ORDER BY id";

/// The statement that reads the functions in the order of their ids.
pub const SELECT_FUNCTIONS: &'static str =
    "SELECT id, repo_id, class_id, name, parameters, return_type, file_location, start_line, end_line, docstring
         FROM functions ORDER BY id";

/// The statement that reads the dependencies in the order in which they were
/// written.
pub const SELECT_DEPENDENCIES: &'static str =
    "SELECT function_name, dependency, class_id FROM function_dependencies ORDER BY rowid";

/// The statement that writes one repository, with its id.
pub const INSERT_REPOSITORY: &'static str =
    "INSERT INTO repositories (id, name, description) VALUES (?1, ?2, ?3)";

/// The statement that writes one class, with its id.
pub const INSERT_CLASS: &'static str =
    "INSERT INTO classes (id, repo_id, name, attributes, file_location, start_line, end_line, docstring)
         VALUES (?1, ?2, ?3, ?4, ?5, ?6, ?7, ?8)";

/// The statement that writes one function, with its id.
pub const INSERT_FUNCTION: &'static str =
    "INSERT INTO functions (id, repo_id, class_id, name, parameters, return_type, file_location, start_line, end_line, docstring)
         VALUES (?1, ?2, ?3, ?4, ?5, ?6, ?7, ?8, ?9, ?10)";

/// The statement that writes one dependency.
pub const INSERT_DEPENDENCY: &'static str =
    "INSERT INTO function_dependencies (function_name, dependency, class_id) VALUES (?1, ?2, ?3)";

/// Runs `rusqlite::Connection::execute_batch` with the statements `sql`, which
/// are those that create the tables. What comes back depends on the database,
/// and nothing is said of it.
#[verifier::external_body]
fn create_tables(conn: &rusqlite::Connection, sql: &str) -> Result<(), rusqlite::Error>
    requires
        sql@ == CREATE_TABLES@,
{
    conn.execute_batch(sql)
}

/// Runs `rusqlite::Connection::execute` with the statement `sql`, which is the
/// one that writes a repository, and the fields of `row` in its order. What
/// comes back depends on the database.
#[verifier::external_body]
fn write_repository(conn: &rusqlite::Connection, sql: &str, row: &Repository) -> Result<
    usize,
    rusqlite::Error,
>
    requires
        sql@ == INSERT_REPOSITORY@,
{
    conn.execute(sql, (&row.id, &row.name, &row.description))
}

/// Runs `rusqlite::Connection::execute` with the statement `sql`, which is the
/// one that writes a class, and the fields of `row` in its order. What comes
/// back depends on the database.
#[verifier::external_body]
fn write_class(conn: &rusqlite::Connection, sql: &str, row: &Class) -> Result<
    usize,
    rusqlite::Error,
>
    requires
        sql@ == INSERT_CLASS@,
{
    conn.execute(
        sql,
        (&row.id, &row.repo_id, &row.name, &row.attributes, &row.file_location, &row.start_line,
            &row.end_line, &row.docstring),
    )
}

/// Runs `rusqlite::Connection::execute` with the statement `sql`, which is the
/// one that writes a function, and the fields of `row` in its order. What
/// comes back depends on the database.
#[verifier::external_body]
fn write_function(conn: &rusqlite::Connection, sql: &str, row: &Function) -> Result<
    usize,
    rusqlite::Error,
>
    requires
        sql@ == INSERT_FUNCTION@,
{
    conn.execute(
        sql,
        (&row.id, &row.repo_id, &row.class_id, &row.name, &row.parameters, &row.return_type,
            &row.file_location, &row.start_line, &row.end_line, &row.docstring),
    )
}

/// Runs `rusqlite::Connection::execute` with the statement `sql`, which is the
/// one that writes a dependency, and the fields of `row` in its order. What
/// comes back depends on the database.
#[verifier::external_body]
fn write_dependency(conn: &rusqlite::Connection, sql: &str, row: &DependencyEdge) -> Result<
    usize,
    rusqlite::Error,
>
    requires
        sql@ == INSERT_DEPENDENCY@,
{
    conn.execute(sql, (&row.function_name, &row.dependency, &row.class_id))
}

/// Reads repositories with the statement `sql`, which gives their id, name
/// and description, with `rusqlite::Connection::prepare` and
/// `rusqlite::Statement::query_map`. What comes back depends on the database.
#[verifier::external_body]
fn read_repositories(conn: &rusqlite::Connection, sql: &str) -> Result<
    Vec<Repository>,
    rusqlite::Error,
>
    requires
        sql@ == SELECT_REPOSITORIES@,
{
    let mut stmt = conn.prepare(sql)?;
    let rows = stmt.query_map((), |row| {
        Ok(Repository { id: row.get(0)?, name: row.get(1)?, description: row.get(2)? })
    })?;
    rows.collect()
}

/// Reads classes with the statement `sql`, which gives their fields in the
/// order in which `Class` holds them, with `rusqlite::Connection::prepare` and
/// `rusqlite::Statement::query_map`. What comes back depends on the database.
#[verifier::external_body]
fn read_classes(conn: &rusqlite::Connection, sql: &str) -> Result<Vec<Class>, rusqlite::Error>
    requires
        sql@ == SELECT_CLASSES@,
{
    let mut stmt = conn.prepare(sql)?;
    let rows = stmt.query_map((), |row| {
        Ok(Class {
            id: row.get(0)?, repo_id: row.get(1)?, name: row.get(2)?, attributes: row.get(3)?,
            file_location: row.get(4)?, start_line: row.get(5)?, end_line: row.get(6)?,
            docstring: row.get(7)?,
        })
    })?;
    rows.collect()
}

/// Reads functions with the statement `sql`, which gives their fields in the
/// order in which `Function` holds them, with `rusqlite::Connection::prepare`
/// and `rusqlite::Statement::query_map`. What comes back depends on the
/// database.
#[verifier::external_body]
fn read_functions(conn: &rusqlite::Connection, sql: &str) -> Result<
    Vec<Function>,
    rusqlite::Error,
>
    requires
        sql@ == SELECT_FUNCTIONS@,
{
    let mut stmt = conn.prepare(sql)?;
    let rows = stmt.query_map((), |row| {
        Ok(Function {
            id: row.get(0)?, repo_id: row.get(1)?, class_id: row.get(2)?, name: row.get(3)?,
            parameters: row.get(4)?, return_type: row.get(5)?, file_location: row.get(6)?,
            start_line: row.get(7)?, end_line: row.get(8)?, docstring: row.get(9)?,
        })
    })?;
    rows.collect()
}

/// Reads dependencies with the statement `sql`, which gives their function
/// name, dependency and class id, with `rusqlite::Connection::prepare` and
/// `rusqlite::Statement::query_map`. What comes back depends on the database.
#[verifier::external_body]
fn read_dependencies(conn: &rusqlite::Connection, sql: &str) -> Result<
    Vec<DependencyEdge>,
    rusqlite::Error,
>
    requires
        sql@ == SELECT_DEPENDENCIES@,
{
    let mut stmt = conn.prepare(sql)?;
    let rows = stmt.query_map((), |row| {
        Ok(DependencyEdge { function_name: row.get(0)?, dependency: row.get(1)?, class_id: row.get(2)? })
    })?;
    rows.collect()
}

/// What creating the tables gives, given what the database answered: it
/// succeeds where the database did, and fails as a failure of the store where
/// the database refused.
pub fn creation_outcome(outcome: Result<(), rusqlite::Error>) -> (r: Result<(), IndexError>)
    ensures
        match outcome {
            Ok(_) => r is Ok,
            Err(_) => r == Err::<(), IndexError>(IndexError::StoreFailure),
        },
{
    match outcome {
        Ok(()) => Ok(()),
        Err(_) => Err(IndexError::StoreFailure),
    }
}

/// Creates the four tables of the index in the database where they are
/// missing: it hands `CREATE_TABLES` to the database, and gives what
/// `creation_outcome` makes of the answer. It fails where the database refuses.
pub fn initialize_db(conn: &rusqlite::Connection) -> (r: Result<(), IndexError>)
    ensures
        r matches Err(e) ==> e == IndexError::StoreFailure,
{
    creation_outcome(create_tables(conn, CREATE_TABLES))
}

/// How many rows of each table of a store the database holds.
#[derive(Clone, Copy, Debug)]
pub struct Saved {
    pub repositories: usize,
    pub classes: usize,
    pub functions: usize,
    pub dependencies: usize,
}

impl Saved {
    /// The numbers of rows of `store`.
    pub fn of(store: &Store) -> (saved: Saved)
        ensures
            saved.repositories == store@.repositories.len(),
            saved.classes == store@.classes.len(),
            saved.functions == store@.functions.len(),
            saved.dependencies == store@.dependencies.len(),
    {
        let repositories = store.repositories();
        let classes = store.classes();
        let functions = store.functions();
        let dependencies = store.dependencies();
        assert(repository_rows(repositories@).len() == repositories@.len());
        assert(class_rows(classes@).len() == classes@.len());
        assert(function_rows(functions@).len() == functions@.len());
        assert(dependency_rows(dependencies@).len() == dependencies@.len());
        Saved {
            repositories: repositories.len(),
            classes: classes.len(),
            functions: functions.len(),
            dependencies: dependencies.len(),
        }
    }
}

/// The number of rows from `saved` on in a table of `len` rows.
pub open spec fn rows_from(saved: usize, len: nat) -> nat {
    if saved <= len {
        (len - saved) as nat
    } else {
        0
    }
}

/// Whether the database holds every row of `store`, by the numbers `saved`:
/// nothing is left to write.
pub open spec fn all_saved(store: StoreView, saved: Saved) -> bool {
    &&& saved.repositories >= store.repositories.len()
    &&& saved.classes >= store.classes.len()
    &&& saved.functions >= store.functions.len()
    &&& saved.dependencies >= store.dependencies.len()
}

/// Writes the rows of `store` that the database does not hold to it: those
/// from the numbers `saved` on, each table in the order of its rows, the
/// repositories first, then the classes, the functions and the dependencies. It
/// returns how many rows it wrote, and fails at the first that the database
/// refuses. Where nothing is left to write it asks the database nothing, and
/// succeeds.
pub fn save_store(conn: &rusqlite::Connection, store: &Store, saved: &Saved) -> (r: Result<
    (usize, usize, usize, usize),
    IndexError,
>)
    ensures
        all_saved(store@, *saved) ==> r is Ok,
        match r {
            Ok(written) => {
                &&& written.0 == rows_from(saved.repositories, store@.repositories.len())
                &&& written.1 == rows_from(saved.classes, store@.classes.len())
                &&& written.2 == rows_from(saved.functions, store@.functions.len())
                &&& written.3 == rows_from(saved.dependencies, store@.dependencies.len())
            },
            Err(e) => e == IndexError::StoreFailure,
        },
{
    let repositories = store.repositories();
    let classes = store.classes();
    let functions = store.functions();
    let dependencies = store.dependencies();
    assert(repository_rows(repositories@).len() == repositories@.len());
    assert(class_rows(classes@).len() == classes@.len());
    assert(function_rows(functions@).len() == functions@.len());
    assert(dependency_rows(dependencies@).len() == dependencies@.len());
    let mut a: usize = 0;
    let mut k: usize = saved.repositories;
    while k < repositories.len()
        invariant
            a == rows_from(saved.repositories, k as nat),
            k >= saved.repositories,
            k == saved.repositories || k <= repositories@.len(),
            repositories@.len() == store@.repositories.len(),
        decreases repositories@.len() - k,
    {
        match write_repository(conn, INSERT_REPOSITORY, &repositories[k]) {
            Ok(_) => {},
            Err(_) => {
                return Err(IndexError::StoreFailure);
            },
        }
        k += 1;
        a += 1;
    }
    let mut b: usize = 0;
    k = saved.classes;
    while k < classes.len()
        invariant
            b == rows_from(saved.classes, k as nat),
            k >= saved.classes,
            k == saved.classes || k <= classes@.len(),
            classes@.len() == store@.classes.len(),
        decreases classes@.len() - k,
    {
        match write_class(conn, INSERT_CLASS, &classes[k]) {
            Ok(_) => {},
            Err(_) => {
                return Err(IndexError::StoreFailure);
            },
        }
        k += 1;
        b += 1;
    }
    let mut c: usize = 0;
    k = saved.functions;
    while k < functions.len()
        invariant
            c == rows_from(saved.functions, k as nat),
            k >= saved.functions,
            k == saved.functions || k <= functions@.len(),
            functions@.len() == store@.functions.len(),
        decreases functions@.len() - k,
    {
        match write_function(conn, INSERT_FUNCTION, &functions[k]) {
            Ok(_) => {},
            Err(_) => {
                return Err(IndexError::StoreFailure);
            },
        }
        k += 1;
        c += 1;
    }
    let mut d: usize = 0;
    k = saved.dependencies;
    while k < dependencies.len()
        invariant
            d == rows_from(saved.dependencies, k as nat),
            k >= saved.dependencies,
            k == saved.dependencies || k <= dependencies@.len(),
            dependencies@.len() == store@.dependencies.len(),
        decreases dependencies@.len() - k,
    {
        match write_dependency(conn, INSERT_DEPENDENCY, &dependencies[k]) {
            Ok(_) => {},
            Err(_) => {
                return Err(IndexError::StoreFailure);
            },
        }
        k += 1;
        d += 1;
    }
    Ok((a, b, c, d))
}

/// The store that rows make which were read from a database.
pub open spec fn loaded_view(
    repositories: Seq<Repository>,
    classes: Seq<Class>,
    functions: Seq<Function>,
    dependencies: Seq<DependencyEdge>,
) -> StoreView {
    StoreView {
        repositories: repository_rows(repositories),
        classes: class_rows(classes),
        functions: function_rows(functions),
        dependencies: dependency_rows(dependencies),
        last_insert_id: 0,
    }
}

/// The store that was read, given what the database answered for each of the
/// four tables: the store of the rows, where the database gave all four and the
/// rows make a store; a failure of the store where the database refused one, or
/// where an id is missing or a row refers to a row that is.
pub fn store_from_reads(
    repositories: Result<Vec<Repository>, rusqlite::Error>,
    classes: Result<Vec<Class>, rusqlite::Error>,
    functions: Result<Vec<Function>, rusqlite::Error>,
    dependencies: Result<Vec<DependencyEdge>, rusqlite::Error>,
) -> (r: Result<Store, IndexError>)
    ensures
        match (repositories, classes, functions, dependencies) {
            (Ok(a), Ok(b), Ok(c), Ok(d)) => match r {
                Ok(store) => loaded_view(a@, b@, c@, d@).wf() && store@ == loaded_view(
                    a@,
                    b@,
                    c@,
                    d@,
                ),
                Err(e) => e == IndexError::StoreFailure && !loaded_view(a@, b@, c@, d@).wf(),
            },
            _ => r matches Err(e) && e == IndexError::StoreFailure,
        },
{
    match (repositories, classes, functions, dependencies) {
        (Ok(a), Ok(b), Ok(c), Ok(d)) => match Store::from_rows(a, b, c, d) {
            Some(store) => Ok(store),
            None => Err(IndexError::StoreFailure),
        },
        _ => Err(IndexError::StoreFailure),
    }
}

/// Reads the index from the database: it asks for the rows of the four tables
/// with `SELECT_REPOSITORIES`, `SELECT_CLASSES`, `SELECT_FUNCTIONS` and
/// `SELECT_DEPENDENCIES`, and gives what `store_from_reads` makes of the
/// answers. It fails where the database refuses, or where its rows make no
/// store.
pub fn load_store(conn: &rusqlite::Connection) -> (r: Result<Store, IndexError>)
    ensures
        match r {
            Ok(store) => store.wf() && store@.last_insert_id == 0,
            Err(e) => e == IndexError::StoreFailure,
        },
{
    let repositories = read_repositories(conn, SELECT_REPOSITORIES);
    let classes = read_classes(conn, SELECT_CLASSES);
    let functions = read_functions(conn, SELECT_FUNCTIONS);
    let dependencies = read_dependencies(conn, SELECT_DEPENDENCIES);
    store_from_reads(repositories, classes, functions, dependencies)
}


/// What the store holds where indexing a repository failed, whatever the
/// database answered. A store that takes no repository is as it was. Any other
/// holds the repository, and with it what the files define: all of it, where
/// only the database refused, or what came before the row that the store
/// refused.
pub open spec fn store_after_failure(
    before: StoreView,
    after: StoreView,
    repo_name: Seq<char>,
    files: Seq<SourceFileView>,
) -> bool {
    if before.accepts_repository() {
        let base = before.with_repository(
            RepositoryView { id: None, name: repo_name, description: None },
        );
        let repo_id = (before.repositories.len() + 1) as i32;
        ||| exists|outcomes: Seq<Result<bool, IndexError>>|
            outcomes.len() == files.len() && #[trigger] repository_indexed(
                base,
                after,
                files,
                repo_id,
                outcomes,
            )
        ||| repository_refused(base, after, files, repo_id)
    } else {
        after == before
    }
}

/// Indexes a repository and writes what was added to the store to the
/// database: the repository `repo_name`, and what its files `files` define. It
/// returns the id of the repository, and of each file whether it was indexed, or
/// what failed. It fails where the store refuses a row or the database refuses to
/// write; the rows that the store took before are written all the same.
pub fn index_repository(
    conn: &rusqlite::Connection,
    repo_name: &str,
    files: &Vec<SourceFile>,
    store: &mut Store,
) -> (r: Result<(i32, Vec<Result<bool, IndexError>>), IndexError>)
    requires
        old(store).wf(),
    ensures
        final(store).wf(),
        match r {
            Ok((repo_id, outcomes)) => {
                &&& old(store)@.accepts_repository()
                &&& repo_id == old(store)@.repositories.len() + 1
                &&& outcomes@.len() == files@.len()
                &&& repository_indexed(
                    old(store)@.with_repository(
                        RepositoryView { id: None, name: repo_name@, description: None },
                    ),
                    final(store)@,
                    file_views(files@),
                    repo_id,
                    outcomes@,
                )
            },
            Err(e) => {
                &&& e == IndexError::StoreFailure
                &&& store_after_failure(
                    old(store)@,
                    final(store)@,
                    repo_name@,
                    file_views(files@),
                )
            },
        },
{
    let saved = Saved::of(store);
    let indexed = parse_repo(repo_name, files, store);
    let written = save_store(conn, store, &saved);
    match written {
        Ok(_) => indexed,
        Err(e) => Err(e),
    }
}

} // verus!
