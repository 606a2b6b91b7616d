use vstd::prelude::*;

verus! {

/// The text of an optional string.
pub open spec fn text_opt(s: Option<String>) -> Option<Seq<char>> {
    match s {
        Some(s) => Some(s@),
        None => None,
    }
}

/// A repository that was indexed.
#[derive(Debug)]
pub struct Repository {
    pub id: Option<i32>,
    pub name: String,
    pub description: Option<String>,
}

/// A repository, as contracts see it.
pub struct RepositoryView {
    pub id: Option<i32>,
    pub name: Seq<char>,
    pub description: Option<Seq<char>>,
}

impl View for Repository {
    type V = RepositoryView;

    open spec fn view(&self) -> RepositoryView {
        RepositoryView {
            id: self.id,
            name: self.name@,
            description: text_opt(self.description),
        }
    }
}

/// A function definition. `class_id` is present where the function is a method.
#[derive(Debug)]
pub struct Function {
    pub id: Option<i32>,
    pub repo_id: i32,
    pub class_id: Option<i32>,
    pub name: String,
    pub parameters: Option<String>,
    pub return_type: Option<String>,
    pub file_location: String,
    pub start_line: i32,
    pub end_line: i32,
    pub docstring: Option<String>,
}

/// A function definition, as contracts see it.
pub struct FunctionView {
    pub id: Option<i32>,
    pub repo_id: i32,
    pub class_id: Option<i32>,
    pub name: Seq<char>,
    pub parameters: Option<Seq<char>>,
    pub return_type: Option<Seq<char>>,
    pub file_location: Seq<char>,
    pub start_line: i32,
    pub end_line: i32,
    pub docstring: Option<Seq<char>>,
}

impl View for Function {
    type V = FunctionView;

    open spec fn view(&self) -> FunctionView {
        FunctionView {
            id: self.id,
            repo_id: self.repo_id,
            class_id: self.class_id,
            name: self.name@,
            parameters: text_opt(self.parameters),
            return_type: text_opt(self.return_type),
            file_location: self.file_location@,
            start_line: self.start_line,
            end_line: self.end_line,
            docstring: text_opt(self.docstring),
        }
    }
}

/// A class definition. `attributes` holds the attributes, each a name, a colon,
/// a space and a type, with a comma and a space between each two.
#[derive(Debug)]
pub struct Class {
    pub id: Option<i32>,
    pub repo_id: i32,
    pub name: String,
    pub attributes: Option<String>,
    pub file_location: String,
    pub start_line: i32,
    pub end_line: i32,
    pub docstring: Option<String>,
}

/// A class definition, as contracts see it.
pub struct ClassView {
    pub id: Option<i32>,
    pub repo_id: i32,
    pub name: Seq<char>,
    pub attributes: Option<Seq<char>>,
    pub file_location: Seq<char>,
    pub start_line: i32,
    pub end_line: i32,
    pub docstring: Option<Seq<char>>,
}

impl View for Class {
    type V = ClassView;

    open spec fn view(&self) -> ClassView {
        ClassView {
            id: self.id,
            repo_id: self.repo_id,
            name: self.name@,
            attributes: text_opt(self.attributes),
            file_location: self.file_location@,
            start_line: self.start_line,
            end_line: self.end_line,
            docstring: text_opt(self.docstring),
        }
    }
}

/// The function `function_name` of the class `class_id`, or of no class, calls
/// `dependency`. The caller is known by its name and class alone: two functions
/// of the same name and class in different files share their dependencies.
#[derive(Debug)]
pub struct DependencyEdge {
    pub function_name: String,
    pub dependency: String,
    pub class_id: Option<i32>,
}

/// A dependency, as contracts see it.
pub struct DependencyEdgeView {
    pub function_name: Seq<char>,
    pub dependency: Seq<char>,
    pub class_id: Option<i32>,
}

impl View for DependencyEdge {
    type V = DependencyEdgeView;

    open spec fn view(&self) -> DependencyEdgeView {
        DependencyEdgeView {
            function_name: self.function_name@,
            dependency: self.dependency@,
            class_id: self.class_id,
        }
    }
}

/// Why an operation of the index failed.
#[derive(Clone, Copy, Debug, PartialEq, Eq, Structural)]
pub enum IndexError {
    /// A file could not be read.
    IoFailure,
    /// A file's text gave no syntax tree.
    ParseFailure,
    /// The store holds no row that was asked for.
    NotFound,
    /// The store refused a row.
    StoreFailure,
}

impl IndexError {
    /// The text that says what failed.
    pub open spec fn message_text(self) -> Seq<char> {
        match self {
            IndexError::IoFailure => "a file could not be read"@,
            IndexError::ParseFailure => "the text has no syntax tree"@,
            IndexError::NotFound => "the store holds no such row"@,
            IndexError::StoreFailure => "the store refused a row"@,
        }
    }

    /// The text that says what failed.
    pub fn message(&self) -> (text: String)
        ensures
            text@ == self.message_text(),
    {
        match self {
            IndexError::IoFailure => "a file could not be read".to_owned(),
            IndexError::ParseFailure => "the text has no syntax tree".to_owned(),
            IndexError::NotFound => "the store holds no such row".to_owned(),
            IndexError::StoreFailure => "the store refused a row".to_owned(),
        }
    }
}

} // verus!
