use autocontain::models::IndexError;
use autocontain::repo::{
    closes_group, is_container_candidate, is_excluded_directory, is_markdown_file,
    keeps_container_file, repo_name_from_link, SHOWN_FILES,
};
use autocontain::text::{find_last, has_suffix, has_text, matches_at, to_chars};
use autocontain::utils::is_command;

#[test]
fn repository_name_is_the_end_of_the_link() {
    assert_eq!(repo_name_from_link("https://github.com/user/project"), "project");
    assert_eq!(repo_name_from_link("https://github.com/user/project/"), "project");
    assert_eq!(repo_name_from_link("https://github.com/user/project///"), "project");
    assert_eq!(repo_name_from_link("project"), "project");
    assert_eq!(repo_name_from_link(""), "");
    assert_eq!(repo_name_from_link("///"), "");
    assert_eq!(repo_name_from_link("a/b.git"), "b.git");
}

#[test]
fn documentation_and_container_files_are_told_by_name() {
    assert!(is_markdown_file("README.md"));
    assert!(is_markdown_file(".md"));
    assert!(!is_markdown_file("README.mdx"));
    assert!(!is_markdown_file("md"));
    assert!(is_container_candidate("Dockerfile"));
    assert!(is_container_candidate("docker-compose.yml"));
    assert!(is_container_candidate("ci.yaml"));
    assert!(!is_container_candidate("Dockerfile.dev"));
    assert!(!is_container_candidate("dockerfile"));
    assert!(keeps_container_file("Dockerfile", "FROM rust"));
    assert!(keeps_container_file("docker-compose.yml", "version: 3\nservices:\n  web:\n"));
    assert!(!keeps_container_file("ci.yml", "jobs:\n  build:\n"));
}

#[test]
fn suffixes_and_substrings() {
    assert!(has_suffix("abc", "bc"));
    assert!(has_suffix("abc", "abc"));
    assert!(has_suffix("abc", ""));
    assert!(!has_suffix("abc", "ab"));
    assert!(!has_suffix("bc", "abc"));
    assert!(has_text("hello world", "o w"));
    assert!(has_text("hello", "hello"));
    assert!(has_text("hello", ""));
    assert!(has_text("", ""));
    assert!(has_text("aab", "ab"));
    assert!(!has_text("hello", "hellos"));
    assert!(!has_text("hello", "lol"));
    let text = to_chars("abcabc");
    assert!(matches_at(&text, &to_chars("bc"), 1));
    assert!(matches_at(&text, &to_chars("bc"), 4));
    assert!(!matches_at(&text, &to_chars("bc"), 2));
    assert_eq!(find_last(&text, 0, 'b'), Some(4));
    assert_eq!(find_last(&text, 5, 'b'), None);
    assert_eq!(find_last(&text, 2, 'c'), Some(3));
    assert_eq!(find_last(&text, 6, 'c'), None);
}

#[test]
fn tree_view_leaves_out_build_directories() {
    for name in [
        "node_modules", ".github", ".git", "target", ".idea", ".vscode", "__pycache__", "dist",
        "build", ".DS_Store", ".pytest_cache", "logs", "coverage", ".next", "public", "static",
    ] {
        assert!(is_excluded_directory(name));
    }
    assert!(!is_excluded_directory("src"));
    assert!(!is_excluded_directory("Target"));
    assert!(!is_excluded_directory(""));
    assert_eq!(SHOWN_FILES, 4);
    assert!(closes_group(3, 10, SHOWN_FILES));
    assert!(closes_group(1, 2, SHOWN_FILES));
    assert!(!closes_group(1, 3, SHOWN_FILES));
    assert!(!closes_group(0, 10, SHOWN_FILES));
    assert!(closes_group(0, 1, 1));
    assert!(!closes_group(usize::MAX, 0, 0));
}

#[test]
fn script_lines_that_are_commands() {
    assert!(is_command("docker build ."));
    assert!(is_command("  docker run x  "));
    assert!(!is_command(""));
    assert!(!is_command("   \t"));
    assert!(!is_command("# comment"));
    assert!(!is_command("   # comment"));
    assert!(is_command("echo # not a comment"));
}

#[test]
fn each_failure_has_its_message() {
    assert_eq!(IndexError::IoFailure.message(), "a file could not be read");
    assert_eq!(IndexError::ParseFailure.message(), "the text has no syntax tree");
    assert_eq!(IndexError::NotFound.message(), "the store holds no such row");
    assert_eq!(IndexError::StoreFailure.message(), "the store refused a row");
}
