use decaff::actions::prompts::Inquirer;

#[test]
fn messages_name_hint_and_help() {
    assert_eq!(
        Inquirer::messages("project", "Name of the project"),
        (
            "project".to_string(),
            "Name of the project:".to_string(),
            "The answer will be mapped to: project".to_string()
        )
    );
}

#[test]
fn messages_of_empty_texts() {
    assert_eq!(
        Inquirer::messages("", ""),
        (String::new(), ":".to_string(), "The answer will be mapped to: ".to_string())
    );
}

#[test]
fn empty_answers_are_shown_as_empty() {
    assert_eq!(Inquirer::empty_formatter(""), "<empty>");
    assert_eq!(Inquirer::empty_formatter(" "), " ");
    assert_eq!(Inquirer::empty_formatter("answer"), "answer");
}
