use decaff::config::{
    entry_to_bool, entry_to_pathbuf, entry_to_string, get_actions, get_replacements, is_suite,
    resolve_requirements, to_action_single, to_action_suite, to_replacement, Action,
    ActionSingle, ActionSuite, Replacement,
};
use decaff::document::{Document, Entry, Node, Value};
use decaff::graph::rank;
use decaff::text::split_words;

fn suite(name: &str, requirements: &[&str]) -> ActionSuite {
    ActionSuite {
        name: name.to_string(),
        actions: vec![ActionSingle::Run { command: Some(format!("echo {}", name)) }],
        requirements: requirements.iter().map(|r| r.to_string()).collect(),
    }
}

fn names(suites: &[ActionSuite]) -> Vec<&str> {
    suites.iter().map(|suite| suite.name.as_str()).collect()
}

fn text(value: &str) -> Value {
    Value::Text(value.to_string())
}

fn argument(value: Value) -> Entry {
    Entry { name: None, value }
}

fn property(name: &str, value: Value) -> Entry {
    Entry { name: Some(name.to_string()), value }
}

fn node(name: &str, entries: Vec<Entry>, children: Option<Vec<Node>>) -> Node {
    Node { name: name.to_string(), label: name.to_string(), entries, children }
}

#[test]
fn suites_resolve_in_the_order_of_their_requirements() {
    let suites = vec![suite("A", &[]), suite("B", &["A"]), suite("C", &["Z"])];
    let (resolved, unresolved) = resolve_requirements(&suites);
    assert_eq!(resolved, vec![suite("A", &[]), suite("B", &["A"])]);
    assert_eq!(unresolved, vec!["Z".to_string()]);
}

#[test]
fn suites_on_a_cycle_do_not_resolve() {
    let suites = vec![suite("A", &["B"]), suite("B", &["A"])];
    let (resolved, unresolved) = resolve_requirements(&suites);
    assert_eq!(resolved, vec![]);
    assert_eq!(unresolved, vec!["B".to_string(), "A".to_string()]);
}

#[test]
fn a_suite_that_requires_itself_does_not_resolve() {
    let suites = vec![suite("A", &["A"]), suite("B", &[])];
    let (resolved, unresolved) = resolve_requirements(&suites);
    assert_eq!(names(&resolved), vec!["B"]);
    assert_eq!(unresolved, vec!["A".to_string()]);
}

#[test]
fn suites_run_by_round_and_then_as_declared() {
    let suites = vec![
        suite("late", &["mid"]),
        suite("mid", &["base", "tools"]),
        suite("base", &[]),
        suite("docs", &["base"]),
        suite("tools", &[]),
        suite("lint", &["tools"]),
    ];
    let (resolved, unresolved) = resolve_requirements(&suites);
    assert_eq!(names(&resolved), vec!["base", "tools", "mid", "docs", "lint", "late"]);
    assert!(unresolved.is_empty());
    let (rounds, order) = rank(&suites);
    assert_eq!(rounds, vec![3, 2, 1, 2, 1, 2]);
    assert_eq!(order, vec![2, 4, 1, 3, 5, 0]);
}

#[test]
fn a_requirement_is_reported_once() {
    let suites = vec![
        suite("A", &["Z", "Y", "Z"]),
        suite("B", &["Y", "X"]),
        suite("C", &[]),
        suite("D", &["C", "Z"]),
    ];
    let (resolved, unresolved) = resolve_requirements(&suites);
    assert_eq!(names(&resolved), vec!["C"]);
    assert_eq!(unresolved, vec!["Z".to_string(), "Y".to_string(), "X".to_string()]);
}

#[test]
fn what_hangs_on_an_unresolved_suite_is_reported_too() {
    let suites = vec![suite("A", &[]), suite("C", &["Z"]), suite("D", &["A", "C"])];
    let (resolved, unresolved) = resolve_requirements(&suites);
    assert_eq!(names(&resolved), vec!["A"]);
    assert_eq!(unresolved, vec!["Z".to_string(), "C".to_string()]);
    let (rounds, order) = rank(&suites);
    assert_eq!(rounds, vec![1, 0, 0]);
    assert_eq!(order, vec![0]);
}

#[test]
fn no_suites() {
    assert_eq!(resolve_requirements(&[]), (vec![], vec![]));
}

#[test]
fn resolved_suites_keep_their_actions() {
    let suites = vec![ActionSuite {
        name: "A".to_string(),
        actions: vec![
            ActionSingle::Copy { from: Some("a".to_string()), to: None, overwrite: false },
            ActionSingle::Move { from: None, to: Some("b".to_string()), overwrite: true },
            ActionSingle::Delete { target: Some("c".to_string()) },
            ActionSingle::Run { command: None },
            ActionSingle::Unknown { name: "touch".to_string() },
        ],
        requirements: vec![],
    }];
    let (resolved, unresolved) = resolve_requirements(&suites);
    assert_eq!(resolved, suites);
    assert!(unresolved.is_empty());
}

#[test]
fn words_lie_between_white_space() {
    assert_eq!(split_words("a bc  d"), vec!["a", "bc", "d"]);
    assert_eq!(split_words("  lead\tand\ntrail \r\x0C"), vec!["lead", "and", "trail"]);
    assert_eq!(split_words("one"), vec!["one"]);
    assert_eq!(split_words(""), Vec::<String>::new());
    assert_eq!(split_words(" \t "), Vec::<String>::new());
    assert_eq!(split_words("a\u{a0}b c"), vec!["a\u{a0}b", "c"]);
    let text = " x  yz\tw ";
    let expected: Vec<&str> = text.split_ascii_whitespace().collect();
    assert_eq!(split_words(text), expected);
}

#[test]
fn copy_and_move_read_their_properties() {
    let copy = node(
        "copy",
        vec![property("from", text("a")), property("to", text("b"))],
        None,
    );
    assert_eq!(
        to_action_single(&copy),
        Some(ActionSingle::Copy {
            from: Some("a".to_string()),
            to: Some("b".to_string()),
            overwrite: true
        })
    );
    let moved = node(
        "move",
        vec![
            property("overwrite", Value::Flag(false)),
            property("to", text("b")),
            argument(text("ignored")),
        ],
        None,
    );
    assert_eq!(
        to_action_single(&moved),
        Some(ActionSingle::Move { from: None, to: Some("b".to_string()), overwrite: false })
    );
}

#[test]
fn the_last_property_of_a_name_counts() {
    let copy = node(
        "copy",
        vec![
            property("from", text("first")),
            property("overwrite", Value::Flag(false)),
            property("from", text("last")),
            property("overwrite", Value::Other),
        ],
        None,
    );
    assert_eq!(
        to_action_single(&copy),
        Some(ActionSingle::Copy { from: Some("last".to_string()), to: None, overwrite: true })
    );
    assert_eq!(copy.get("from"), Some(&text("last")));
    assert_eq!(copy.get("to"), None);
    assert_eq!(copy.first(), None);
}

#[test]
fn delete_and_run_read_their_first_argument() {
    let delete = node(
        "delete",
        vec![property("target", text("no")), argument(text("a")), argument(text("b"))],
        None,
    );
    assert_eq!(
        to_action_single(&delete),
        Some(ActionSingle::Delete { target: Some("a".to_string()) })
    );
    let run = node("run", vec![argument(Value::Flag(true))], None);
    assert_eq!(to_action_single(&run), Some(ActionSingle::Run { command: None }));
    let run = node("run", vec![argument(text("make all"))], None);
    assert_eq!(
        to_action_single(&run),
        Some(ActionSingle::Run { command: Some("make all".to_string()) })
    );
}

#[test]
fn the_kind_of_an_action_is_read_in_any_case() {
    let mut run = node("Run", vec![argument(text("ls"))], None);
    assert_eq!(
        to_action_single(&run),
        Some(ActionSingle::Run { command: Some("ls".to_string()) })
    );
    run.label = "DELETE".to_string();
    assert_eq!(
        to_action_single(&run),
        Some(ActionSingle::Delete { target: Some("ls".to_string()) })
    );
}

#[test]
fn an_unknown_action_is_kept_under_its_name() {
    let touch = node("Touch", vec![argument(text("a"))], None);
    assert_eq!(
        to_action_single(&touch),
        Some(ActionSingle::Unknown { name: "touch".to_string() })
    );
    let quoted = Node {
        name: "copy".to_string(),
        label: "\"copy\"".to_string(),
        entries: vec![],
        children: None,
    };
    assert_eq!(
        to_action_single(&quoted),
        Some(ActionSingle::Unknown { name: "\"copy\"".to_string() })
    );
}

#[test]
fn a_suite_has_a_name_requirements_and_actions() {
    let suite = node(
        "suite",
        vec![property("name", text("docs")), property("requires", text(" base  tools "))],
        Some(vec![
            node("run", vec![argument(text("make docs"))], None),
            node("publish", vec![], None),
        ]),
    );
    assert!(is_suite(&suite));
    assert_eq!(
        to_action_suite(&suite),
        Some(ActionSuite {
            name: "docs".to_string(),
            actions: vec![
                ActionSingle::Run { command: Some("make docs".to_string()) },
                ActionSingle::Unknown { name: "publish".to_string() },
            ],
            requirements: vec!["base".to_string(), "tools".to_string()],
        })
    );
}

#[test]
fn a_suite_without_a_name_is_none() {
    let nameless = node("suite", vec![property("requires", text("base"))], Some(vec![]));
    assert_eq!(to_action_suite(&nameless), None);
    let numbered = node("suite", vec![property("name", Value::Other)], None);
    assert_eq!(to_action_suite(&numbered), None);
    let bare = node("suite", vec![property("name", text("bare"))], None);
    assert_eq!(
        to_action_suite(&bare),
        Some(ActionSuite { name: "bare".to_string(), actions: vec![], requirements: vec![] })
    );
    assert!(!is_suite(&node("Suite", vec![], None)));
}

#[test]
fn actions_are_suites_where_every_node_is_one() {
    let doc = Document {
        nodes: vec![
            node("replacements", vec![], None),
            node(
                "actions",
                vec![],
                Some(vec![
                    node("suite", vec![property("name", text("one"))], None),
                    node("suite", vec![], None),
                    node(
                        "suite",
                        vec![property("name", text("two")), property("requires", text("one"))],
                        Some(vec![node("copy", vec![property("from", text("a"))], None)]),
                    ),
                ]),
            ),
            node("actions", vec![], Some(vec![node("run", vec![], None)])),
        ],
    };
    assert_eq!(
        get_actions(&doc),
        Some(Action::Suite(vec![
            ActionSuite { name: "one".to_string(), actions: vec![], requirements: vec![] },
            ActionSuite {
                name: "two".to_string(),
                actions: vec![ActionSingle::Copy {
                    from: Some("a".to_string()),
                    to: None,
                    overwrite: true
                }],
                requirements: vec!["one".to_string()],
            },
        ]))
    );
    assert_eq!(get_replacements(&doc), None);
}

#[test]
fn actions_are_single_where_one_node_is_no_suite() {
    let doc = Document {
        nodes: vec![node(
            "actions",
            vec![],
            Some(vec![
                node("suite", vec![property("name", text("one"))], None),
                node("run", vec![argument(text("ls"))], None),
            ]),
        )],
    };
    assert_eq!(
        get_actions(&doc),
        Some(Action::Single(vec![
            ActionSingle::Unknown { name: "suite".to_string() },
            ActionSingle::Run { command: Some("ls".to_string()) },
        ]))
    );
}

#[test]
fn actions_of_an_empty_section_are_no_suites() {
    let doc = Document { nodes: vec![node("actions", vec![], Some(vec![]))] };
    assert_eq!(get_actions(&doc), Some(Action::Suite(vec![])));
}

#[test]
fn a_document_without_actions() {
    assert_eq!(get_actions(&Document { nodes: vec![] }), None);
    let doc = Document { nodes: vec![node("actions", vec![argument(text("x"))], None)] };
    assert_eq!(get_actions(&doc), None);
    assert_eq!(doc.get("actions"), Some(&doc.nodes[0]));
    assert_eq!(doc.get("Actions"), None);
}

#[test]
fn replacements_have_a_tag_and_a_description() {
    let doc = Document {
        nodes: vec![node(
            "replacements",
            vec![],
            Some(vec![
                node("NAME", vec![argument(text("Name of the project"))], None),
                node("LICENSE", vec![], None),
                node("YEAR", vec![argument(Value::Other), argument(text("late"))], None),
            ]),
        )],
    };
    assert_eq!(
        get_replacements(&doc),
        Some(vec![
            Replacement {
                tag: "NAME".to_string(),
                description: "Name of the project".to_string()
            },
            Replacement { tag: "LICENSE".to_string(), description: "LICENSE".to_string() },
            Replacement { tag: "YEAR".to_string(), description: "YEAR".to_string() },
        ])
    );
    assert_eq!(
        to_replacement(&node("TAG", vec![property("d", text("x"))], None)),
        Some(Replacement { tag: "TAG".to_string(), description: "TAG".to_string() })
    );
}

#[test]
fn values_are_read_by_their_kind() {
    assert_eq!(entry_to_string(Some(&text("a"))), Some("a".to_string()));
    assert_eq!(entry_to_string(Some(&Value::Flag(true))), None);
    assert_eq!(entry_to_string(None), None);
    assert_eq!(entry_to_pathbuf(Some(&text("a/b"))), Some("a/b".to_string()));
    assert_eq!(entry_to_pathbuf(Some(&Value::Other)), None);
    assert_eq!(entry_to_bool(Some(&Value::Flag(false))), Some(false));
    assert_eq!(entry_to_bool(Some(&text("true"))), None);
    assert_eq!(entry_to_bool(None), None);
    assert_eq!(text("a").as_string(), Some(&"a".to_string()));
    assert_eq!(Value::Other.as_bool(), None);
}
