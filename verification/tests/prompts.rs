use autocontain::agents::{docker_file_prompt, documentation_analysis_prompt, run_script_prompt};
use autocontain::chat::{classify_answer, intent_prompt, query_content, Intent};
use autocontain::db::Store;

#[test]
fn analysis_prompt_ends_with_the_documentation() {
    let expected = format!(
        "Please analyze the following repository documentation content and provide a response in Markdown format
        without formatting markers (such as ```markdown or any other symbols). \
        The Markdown should contain the following sections:\n\n\
        ## Functionalities\nDescribe the main functionalities or purpose of the repository.\n\n\
        ## Prerequisites\nList any prerequisites needed to use this repository.\n\n\
        ## Requirements\nList the software dependencies required to run the repository.\n\n\
        ## Installation\nProvide the installation steps in sequence.\n\n\
        If you cannot find information for any of the sections, respond with an empty entry for that section.\n\n\
        ---\n\n{}",
        "# Readme"
    );
    assert_eq!(documentation_analysis_prompt("# Readme"), expected);
}

#[test]
fn dockerfile_prompt_ends_with_the_analysis() {
    let expected = format!(
        "Based on the following analysis of repository requirements, prerequisites, and installation steps, \
        generate only the Dockerfile content. Provide the content as raw text, without any explanations, \
        introductory text, or formatting markers (such as ```Dockerfile or any other symbols).\n\n---\n\n{}",
        "needs python"
    );
    assert_eq!(docker_file_prompt("needs python"), expected);
}

#[test]
fn run_script_prompt_prefers_compose() {
    let expected = format!(
        "Generate a shell script to set up and run the application using Docker Compose with the specific path provided. \
            Use:\n  `docker compose -f {}`\n\n\
            Do not include any 'cd' commands to change directories. Provide the script content as raw text without any introductory text, \
            formatting markers, or explanations.\n\n\
            Docker Compose path: {}\n\nCompose File:\n{}",
        "src/c.yml", "src/c.yml", "services: {}"
    );
    assert_eq!(
        run_script_prompt(Some("src/c.yml"), Some("services: {}"), "src/Dockerfile", Some("FROM x")),
        Some(expected)
    );
    let without_file = run_script_prompt(Some("c.yml"), None, "Dockerfile", None).unwrap();
    assert!(without_file.ends_with("Docker Compose path: c.yml\n\nCompose File:\n"));
}

#[test]
fn run_script_prompt_falls_back_to_the_dockerfile() {
    let expected = format!(
        "Generate a shell script to build and run the Docker container using the Dockerfile path provided. \
            Use:\n  `docker build -f {}` followed by the appropriate `docker run` command.\n\n\
            Do not include any 'cd' commands to change directories. Provide the script content as raw text without any introductory text, \
            formatting markers, or explanations.\n\n\
            Dockerfile path: {}\n\nDockerfile:\n{}",
        "src/Dockerfile", "src/Dockerfile", "FROM x"
    );
    assert_eq!(run_script_prompt(None, Some("ignored"), "src/Dockerfile", Some("FROM x")), Some(expected));
    assert_eq!(run_script_prompt(None, None, "src/Dockerfile", None), None);
}

#[test]
fn intent_is_asked_and_read() {
    let expected = format!(
        "Classify the user query into one of the following categories: \
        ['Casual Chat', 'Overall Code Logic']. \
        Return only the result category. \
        User Query: '{}'",
        "what does it do?"
    );
    assert_eq!(intent_prompt("what does it do?"), expected);
    assert_eq!(classify_answer("Overall Code Logic"), Intent::CodeLogic);
    assert_eq!(classify_answer("Casual Chat"), Intent::CasualChat);
    assert_eq!(classify_answer("casual chat"), Intent::Unrecognized);
    assert_eq!(classify_answer(""), Intent::Unrecognized);
}

#[test]
fn query_content_follows_the_intent() {
    let store = Store::new();
    assert_eq!(
        query_content(Intent::CasualChat, "hi", &store),
        "The user said: 'hi'. Respond in a friendly manner."
    );
    assert_eq!(
        query_content(Intent::Unrecognized, "hi", &store),
        "Unrecognized intent.\n\nUser's Query: 'hi'"
    );
    let expected = format!(
        "Provide a summary of the overall code logic for a repository. \
                Here is the code flow:\n\n{}\n\n\
                Summarize the main purpose and flow of the repository.",
        "The program follows this logic flow:\n\n- Function: main\n  - Purpose: No description available\n"
    );
    assert_eq!(query_content(Intent::CodeLogic, "hi", &store), expected);
}
