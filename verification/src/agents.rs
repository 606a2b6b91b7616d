use vstd::prelude::*;
use vstd::string::StringExecFns;

verus! {

/// What the request for an analysis of a repository's documentation says
/// before the documentation itself.
pub const ANALYSIS_REQUEST: &'static str =
    "Please analyze the following repository documentation content and provide a response in Markdown format
        without formatting markers (such as ```markdown or any other symbols). \
        The Markdown should contain the following sections:\n\n\
        ## Functionalities\nDescribe the main functionalities or purpose of the repository.\n\n\
        ## Prerequisites\nList any prerequisites needed to use this repository.\n\n\
        ## Requirements\nList the software dependencies required to run the repository.\n\n\
        ## Installation\nProvide the installation steps in sequence.\n\n\
        If you cannot find information for any of the sections, respond with an empty entry for that section.\n\n\
        ---\n\n";

/// The request for an analysis of the documentation `content` of a repository.
pub fn documentation_analysis_prompt(content: &str) -> (out: String)
    ensures
        out@ == ANALYSIS_REQUEST@ + content@,
{
    let mut out = ANALYSIS_REQUEST.to_owned();
    out.append(content);
    out
}

/// What the request for a Dockerfile says before the analysis of the
/// repository.
pub const DOCKERFILE_REQUEST: &'static str =
    "Based on the following analysis of repository requirements, prerequisites, and installation steps, \
        generate only the Dockerfile content. Provide the content as raw text, without any explanations, \
        introductory text, or formatting markers (such as ```Dockerfile or any other symbols).\n\n---\n\n";

/// The request for a Dockerfile that fits the analysis `analysis` of a repository.
pub fn docker_file_prompt(analysis: &str) -> (out: String)
    ensures
        out@ == DOCKERFILE_REQUEST@ + analysis@,
{
    let mut out = DOCKERFILE_REQUEST.to_owned();
    out.append(analysis);
    out
}

/// How the request for a script with Docker Compose starts, up to the path
/// of the compose file.
pub const COMPOSE_SCRIPT_REQUEST: &'static str =
    "Generate a shell script to set up and run the application using Docker Compose with the specific path provided. \
            Use:\n  `docker compose -f ";

/// What the request for a script with Docker Compose says between the two
/// places where it names the path of the compose file.
pub const COMPOSE_SCRIPT_RULES: &'static str =
    "`\n\n\
            Do not include any 'cd' commands to change directories. Provide the script content as raw text without any introductory text, \
            formatting markers, or explanations.\n\n\
            Docker Compose path: ";

/// What stands before the text of the compose file.
pub const COMPOSE_SCRIPT_FILE: &'static str = "\n\nCompose File:\n";

/// The request for a script that runs a repository with Docker Compose: the
/// compose file lies at `path` and holds `content`.
pub open spec fn compose_script_text(path: Seq<char>, content: Seq<char>) -> Seq<char> {
    COMPOSE_SCRIPT_REQUEST@ + path + COMPOSE_SCRIPT_RULES@ + path + COMPOSE_SCRIPT_FILE@ + content
}

/// How the request for a script from a Dockerfile starts, up to the path of
/// the Dockerfile.
pub const DOCKERFILE_SCRIPT_REQUEST: &'static str =
    "Generate a shell script to build and run the Docker container using the Dockerfile path provided. \
            Use:\n  `docker build -f ";

/// What the request for a script from a Dockerfile says between the two
/// places where it names the path of the Dockerfile.
pub const DOCKERFILE_SCRIPT_RULES: &'static str =
    "` followed by the appropriate `docker run` command.\n\n\
            Do not include any 'cd' commands to change directories. Provide the script content as raw text without any introductory text, \
            formatting markers, or explanations.\n\n\
            Dockerfile path: ";

/// What stands before the text of the Dockerfile.
pub const DOCKERFILE_SCRIPT_FILE: &'static str = "\n\nDockerfile:\n";

/// The request for a script that builds and runs the container of a
/// repository: the Dockerfile lies at `path` and holds `content`.
pub open spec fn dockerfile_script_text(path: Seq<char>, content: Seq<char>) -> Seq<char> {
    DOCKERFILE_SCRIPT_REQUEST@ + path + DOCKERFILE_SCRIPT_RULES@ + path + DOCKERFILE_SCRIPT_FILE@
        + content
}

/// The text of an optional file, or the empty text.
pub open spec fn text_or_empty(file: Option<&str>) -> Seq<char> {
    match file {
        Some(text) => text@,
        None => Seq::empty(),
    }
}

/// The request for a script that runs a repository: with Docker Compose where
/// a compose file lies at `compose_path`, else from the Dockerfile `dockerfile`
/// at `dockerfile_path` where there is one, else none.
pub open spec fn run_script_text(
    compose_path: Option<&str>,
    compose_file: Option<&str>,
    dockerfile_path: Seq<char>,
    dockerfile: Option<&str>,
) -> Option<Seq<char>> {
    match compose_path {
        Some(path) => Some(compose_script_text(path@, text_or_empty(compose_file))),
        None => match dockerfile {
            Some(content) => Some(dockerfile_script_text(dockerfile_path, content@)),
            None => None,
        },
    }
}

/// The request for a script that runs a repository, where a compose file or a
/// Dockerfile is at hand.
pub fn run_script_prompt(
    compose_path: Option<&str>,
    compose_file: Option<&str>,
    dockerfile_path: &str,
    dockerfile: Option<&str>,
) -> (r: Option<String>)
    ensures
        match r {
            Some(out) => run_script_text(compose_path, compose_file, dockerfile_path@, dockerfile)
                == Some(out@),
            None => run_script_text(compose_path, compose_file, dockerfile_path@, dockerfile)
                is None,
        },
{
    match compose_path {
        Some(path) => {
            let mut out = COMPOSE_SCRIPT_REQUEST.to_owned();
            out.append(path);
            out.append(COMPOSE_SCRIPT_RULES);
            out.append(path);
            out.append(COMPOSE_SCRIPT_FILE);
            match compose_file {
                Some(content) => {
                    out.append(content);
                },
                None => {
                    assert(out@ + Seq::<char>::empty() == out@);
                },
            }
            Some(out)
        },
        None => match dockerfile {
            Some(content) => {
                let mut out = DOCKERFILE_SCRIPT_REQUEST.to_owned();
                out.append(dockerfile_path);
                out.append(DOCKERFILE_SCRIPT_RULES);
                out.append(dockerfile_path);
                out.append(DOCKERFILE_SCRIPT_FILE);
                out.append(content);
                Some(out)
            },
            None => None,
        },
    }
}

} // verus!
