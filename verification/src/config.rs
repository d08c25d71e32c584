//! What a template's configuration asks for: the texts to ask the user for,
//! and the actions to run, alone or in suites that require one another.

use vstd::prelude::*;

use vstd::string::StringExecFns;

use crate::document::{
    first_argument, first_named, flag_of, property, text_of, Document, Node, Value,
};
use crate::graph::{
    is_run_order, lemma_round_of, missing, ordered, rank, resolves, runs_before, unresolved,
};
use crate::text::{
    ascii_lower, chars_of, lower_text_of, split_words, text_view, texts, words,
};

verus! {

/// A text that the user is asked for.
#[derive(Debug, PartialEq)]
pub struct Replacement {
    /// The tag that the answer takes the place of.
    pub tag: String,
    /// What the user is told about it: the tag again where nothing was given.
    pub description: String,
}

/// The actions of a configuration: suites, or single actions.
#[derive(Debug, PartialEq)]
pub enum Action {
    Suite(Vec<ActionSuite>),
    Single(Vec<ActionSingle>),
}

/// A named list of actions that may require other suites to have run.
#[derive(Debug, PartialEq)]
pub struct ActionSuite {
    pub name: String,
    /// The actions, in the order in which they run.
    pub actions: Vec<ActionSingle>,
    /// The names of the suites that have to run before this one.
    pub requirements: Vec<String>,
}

/// One action.
#[derive(Debug, PartialEq)]
pub enum ActionSingle {
    /// Copies a file or a directory.
    Copy { from: Option<String>, to: Option<String>, overwrite: bool },
    /// Moves a file or a directory.
    Move { from: Option<String>, to: Option<String>, overwrite: bool },
    /// Deletes a file or a directory.
    Delete { target: Option<String> },
    /// Runs a command in the shell.
    Run { command: Option<String> },
    /// An action that this version does not know. It is kept under its name
    /// and reported when it is due to run.
    Unknown { name: String },
}

/// One action, as mathematics.
pub enum Step {
    Copy { from: Option<Seq<char>>, to: Option<Seq<char>>, overwrite: bool },
    Move { from: Option<Seq<char>>, to: Option<Seq<char>>, overwrite: bool },
    Delete { target: Option<Seq<char>> },
    Run { command: Option<Seq<char>> },
    Unknown { name: Seq<char> },
}

impl View for ActionSingle {
    type V = Step;

    open spec fn view(&self) -> Step {
        match *self {
            ActionSingle::Copy { from, to, overwrite } => Step::Copy {
                from: text_view(from),
                to: text_view(to),
                overwrite,
            },
            ActionSingle::Move { from, to, overwrite } => Step::Move {
                from: text_view(from),
                to: text_view(to),
                overwrite,
            },
            ActionSingle::Delete { target } => Step::Delete { target: text_view(target) },
            ActionSingle::Run { command } => Step::Run { command: text_view(command) },
            ActionSingle::Unknown { name } => Step::Unknown { name: name@ },
        }
    }
}

/// Actions as mathematics.
pub open spec fn steps(actions: Seq<ActionSingle>) -> Seq<Step> {
    Seq::new(actions.len(), |i: int| actions[i]@)
}

/// A suite, as mathematics.
pub struct Suite {
    pub name: Seq<char>,
    pub actions: Seq<Step>,
    pub requirements: Seq<Seq<char>>,
}

impl View for ActionSuite {
    type V = Suite;

    open spec fn view(&self) -> Suite {
        Suite {
            name: self.name@,
            actions: steps(self.actions@),
            requirements: texts(self.requirements@),
        }
    }
}

/// Suites as mathematics.
pub open spec fn suites_view(suites: Seq<ActionSuite>) -> Seq<Suite> {
    Seq::new(suites.len(), |i: int| suites[i]@)
}

/// A copy of an optional text.
fn clone_text(text: &Option<String>) -> (copy: Option<String>)
    ensures
        text_view(copy) == text_view(*text),
{
    match text {
        Some(t) => Some(t.clone()),
        None => None,
    }
}

impl Clone for ActionSingle {
    fn clone(&self) -> (copy: ActionSingle)
        ensures
            copy@ == self@,
    {
        match self {
            ActionSingle::Copy { from, to, overwrite } => ActionSingle::Copy {
                from: clone_text(from),
                to: clone_text(to),
                overwrite: *overwrite,
            },
            ActionSingle::Move { from, to, overwrite } => ActionSingle::Move {
                from: clone_text(from),
                to: clone_text(to),
                overwrite: *overwrite,
            },
            ActionSingle::Delete { target } => ActionSingle::Delete { target: clone_text(target) },
            ActionSingle::Run { command } => ActionSingle::Run { command: clone_text(command) },
            ActionSingle::Unknown { name } => ActionSingle::Unknown { name: name.clone() },
        }
    }
}

impl Clone for ActionSuite {
    fn clone(&self) -> (copy: ActionSuite)
        ensures
            copy@ == self@,
    {
        let mut actions: Vec<ActionSingle> = Vec::new();
        let mut i: usize = 0;
        while i < self.actions.len()
            invariant
                i <= self.actions.len(),
                actions@.len() == i,
                forall|j: int| 0 <= j < i ==> (#[trigger] actions@[j])@ == self.actions@[j]@,
            decreases self.actions.len() - i,
        {
            actions.push(self.actions[i].clone());
            i += 1;
        }
        let mut requirements: Vec<String> = Vec::new();
        let mut k: usize = 0;
        while k < self.requirements.len()
            invariant
                k <= self.requirements.len(),
                requirements@.len() == k,
                forall|j: int| 0 <= j < k ==> (#[trigger] requirements@[j])@ == self.requirements@[j]@,
            decreases self.requirements.len() - k,
        {
            requirements.push(self.requirements[k].clone());
            k += 1;
        }
        assert(steps(actions@) =~= steps(self.actions@));
        assert(texts(requirements@) =~= texts(self.requirements@));
        ActionSuite { name: self.name.clone(), actions, requirements }
    }
}

/// A replacement, as mathematics.
pub struct Placeholder {
    pub tag: Seq<char>,
    pub description: Seq<char>,
}

impl View for Replacement {
    type V = Placeholder;

    open spec fn view(&self) -> Placeholder {
        Placeholder { tag: self.tag@, description: self.description@ }
    }
}

/// Replacements as mathematics.
pub open spec fn placeholders(replacements: Seq<Replacement>) -> Seq<Placeholder> {
    Seq::new(replacements.len(), |i: int| replacements[i]@)
}

/// The actions of a configuration, as mathematics.
pub enum Plan {
    Suites(Seq<Suite>),
    Steps(Seq<Step>),
}

impl View for Action {
    type V = Plan;

    open spec fn view(&self) -> Plan {
        match *self {
            Action::Suite(suites) => Plan::Suites(suites_view(suites@)),
            Action::Single(actions) => Plan::Steps(steps(actions@)),
        }
    }
}

/// Whether a copy or a move may overwrite: yes, unless the node says no.
pub open spec fn overwrites(node: Node) -> bool {
    match flag_of(property(node.entries@, "overwrite"@)) {
        Some(flag) => flag,
        None => true,
    }
}

/// The action that a node stands for. Its kind is the name of the node as
/// written, whatever its case; a kind that is not known gives `Unknown`.
pub open spec fn action_of(node: Node) -> Step {
    let kind = ascii_lower(node.label@);
    if kind == "copy"@ {
        Step::Copy {
            from: text_of(property(node.entries@, "from"@)),
            to: text_of(property(node.entries@, "to"@)),
            overwrite: overwrites(node),
        }
    } else if kind == "move"@ {
        Step::Move {
            from: text_of(property(node.entries@, "from"@)),
            to: text_of(property(node.entries@, "to"@)),
            overwrite: overwrites(node),
        }
    } else if kind == "delete"@ {
        Step::Delete { target: text_of(first_argument(node.entries@)) }
    } else if kind == "run"@ {
        Step::Run { command: text_of(first_argument(node.entries@)) }
    } else {
        Step::Unknown { name: kind }
    }
}

/// The actions that nodes stand for.
pub open spec fn actions_of(nodes: Seq<Node>) -> Seq<Step> {
    Seq::new(nodes.len(), |i: int| action_of(nodes[i]))
}

/// The suite that a node stands for: none where the node names none. The
/// requirements are the words of the property `requires`.
pub open spec fn suite_of(node: Node) -> Option<Suite> {
    match text_of(property(node.entries@, "name"@)) {
        Some(name) => Some(
            Suite {
                name,
                actions: match node.children {
                    Some(children) => actions_of(children@),
                    None => Seq::empty(),
                },
                requirements: match text_of(property(node.entries@, "requires"@)) {
                    Some(required) => words(required),
                    None => Seq::empty(),
                },
            },
        ),
        None => None,
    }
}

/// [`suite_of`] as a value.
pub open spec fn to_suite() -> spec_fn(Node) -> Option<Suite> {
    |node: Node| suite_of(node)
}

/// The replacement that a node stands for: the tag is its name as written,
/// the description its first argument or, without one, the tag.
pub open spec fn replacement_of(node: Node) -> Placeholder {
    Placeholder {
        tag: node.label@,
        description: match text_of(first_argument(node.entries@)) {
            Some(description) => description,
            None => node.label@,
        },
    }
}

/// Whether every node is a suite.
pub open spec fn all_suites(nodes: Seq<Node>) -> bool {
    forall|i: int| 0 <= i < nodes.len() ==> (#[trigger] nodes[i]).name@ == "suite"@
}

/// The actions that the nodes in the braces of `actions` stand for: suites
/// where every node is one, single actions else.
pub open spec fn plan_of(nodes: Seq<Node>) -> Plan {
    if all_suites(nodes) {
        Plan::Suites(nodes.filter_map(to_suite()))
    } else {
        Plan::Steps(actions_of(nodes))
    }
}

/// The nodes in the braces of the first node of the name `name`.
pub open spec fn section(nodes: Seq<Node>, name: Seq<char>) -> Option<Seq<Node>> {
    match first_named(nodes, name) {
        Some(node) => match node.children {
            Some(children) => Some(children@),
            None => None,
        },
        None => None,
    }
}

/// The text of a value that is a string.
pub fn entry_to_string(entry: Option<&Value>) -> (text: Option<String>)
    ensures
        text_view(text) == text_of(
            match entry {
                Some(value) => Some(*value),
                None => None,
            },
        ),
{
    match entry {
        Some(value) => match value.as_string() {
            Some(text) => Some(text.clone()),
            None => None,
        },
        None => None,
    }
}

/// The path that a value names, where it is a string.
pub fn entry_to_pathbuf(entry: Option<&Value>) -> (path: Option<String>)
    ensures
        text_view(path) == text_of(
            match entry {
                Some(value) => Some(*value),
                None => None,
            },
        ),
{
    entry_to_string(entry)
}

/// The flag of a value that is `true` or `false`.
pub fn entry_to_bool(entry: Option<&Value>) -> (flag: Option<bool>)
    ensures
        flag == flag_of(
            match entry {
                Some(value) => Some(*value),
                None => None,
            },
        ),
{
    match entry {
        Some(value) => value.as_bool(),
        None => None,
    }
}

/// Whether the node is a suite.
pub fn is_suite(node: &Node) -> (yes: bool)
    ensures
        yes == (node.name@ == "suite"@),
{
    node.name == String::from_str("suite")
}

/// The replacement that the node stands for.
pub fn to_replacement(node: &Node) -> (replacement: Option<Replacement>)
    ensures
        replacement matches Some(r) && r@ == replacement_of(*node),
{
    let tag = node.label.clone();
    let description = match entry_to_string(node.first()) {
        Some(description) => description,
        None => tag.clone(),
    };
    Some(Replacement { tag, description })
}

/// The action that the node stands for.
pub fn to_action_single(node: &Node) -> (action: Option<ActionSingle>)
    ensures
        action matches Some(a) && a@ == action_of(*node),
{
    let label = chars_of(node.label.as_str());
    let kind = lower_text_of(&label, 0, label.len());
    assert(label@.subrange(0, label@.len() as int) =~= label@);
    let overwrite = match entry_to_bool(node.get("overwrite")) {
        Some(flag) => flag,
        None => true,
    };
    let action = if kind == String::from_str("copy") {
        ActionSingle::Copy {
            from: entry_to_pathbuf(node.get("from")),
            to: entry_to_pathbuf(node.get("to")),
            overwrite,
        }
    } else if kind == String::from_str("move") {
        ActionSingle::Move {
            from: entry_to_pathbuf(node.get("from")),
            to: entry_to_pathbuf(node.get("to")),
            overwrite,
        }
    } else if kind == String::from_str("delete") {
        ActionSingle::Delete { target: entry_to_pathbuf(node.first()) }
    } else if kind == String::from_str("run") {
        ActionSingle::Run { command: entry_to_string(node.first()) }
    } else {
        ActionSingle::Unknown { name: kind }
    };
    Some(action)
}

/// The actions that the nodes stand for.
fn to_actions(nodes: &Vec<Node>) -> (actions: Vec<ActionSingle>)
    ensures
        steps(actions@) == actions_of(nodes@),
{
    let mut actions: Vec<ActionSingle> = Vec::new();
    let mut i: usize = 0;
    while i < nodes.len()
        invariant
            i <= nodes.len(),
            actions@.len() == i,
            forall|j: int| 0 <= j < i ==> (#[trigger] actions@[j])@ == action_of(nodes@[j]),
        decreases nodes.len() - i,
    {
        if let Some(action) = to_action_single(&nodes[i]) {
            actions.push(action);
        }
        i += 1;
    }
    actions
}

/// The suite that the node stands for: none where the node names none.
pub fn to_action_suite(node: &Node) -> (suite: Option<ActionSuite>)
    ensures
        match suite_of(*node) {
            Some(s) => suite matches Some(found) && found@ == s,
            None => suite is None,
        },
{
    let name = match entry_to_string(node.get("name")) {
        Some(name) => name,
        None => {
            return None;
        },
    };
    let requirements = match entry_to_string(node.get("requires")) {
        Some(required) => split_words(required.as_str()),
        None => Vec::new(),
    };
    let actions = match &node.children {
        Some(children) => to_actions(children),
        None => Vec::new(),
    };
    let suite = ActionSuite { name, actions, requirements };
    assert(suite@.actions =~= suite_of(*node).unwrap().actions);
    assert(suite@.requirements =~= suite_of(*node).unwrap().requirements);
    Some(suite)
}

/// The actions of the document: those in the braces of its first node
/// `actions`. They are suites where every node there is a suite, and the
/// nodes that name no suite are left out; they are single actions else.
pub fn get_actions(doc: &Document) -> (actions: Option<Action>)
    ensures
        match section(doc.nodes@, "actions"@) {
            Some(nodes) => actions matches Some(found) && found@ == plan_of(nodes),
            None => actions is None,
        },
{
    let nodes = match doc.get("actions") {
        Some(node) => match &node.children {
            Some(children) => children,
            None => {
                return None;
            },
        },
        None => {
            return None;
        },
    };
    let mut every = true;
    let mut i: usize = 0;
    while i < nodes.len()
        invariant
            i <= nodes.len(),
            every == all_suites(nodes@.take(i as int)),
        decreases nodes.len() - i,
    {
        let ghost longer = nodes@.take(i + 1);
        proof {
            assert(longer[i as int] == nodes@[i as int]);
        }
        if !is_suite(&nodes[i]) {
            every = false;
        }
        i += 1;
    }
    if every {
        let mut suites: Vec<ActionSuite> = Vec::new();
        let mut k: usize = 0;
        while k < nodes.len()
            invariant
                k <= nodes.len(),
                suites_view(suites@) == nodes@.take(k as int).filter_map(to_suite()),
            decreases nodes.len() - k,
        {
            proof {
                nodes@.lemma_filter_map_take_succ(to_suite(), k as int);
            }
            if let Some(suite) = to_action_suite(&nodes[k]) {
                suites.push(suite);
            }
            k += 1;
        }
        assert(nodes@.take(k as int) =~= nodes@);
        Some(Action::Suite(suites))
    } else {
        Some(Action::Single(to_actions(nodes)))
    }
}

/// The replacements of the document: what the nodes in the braces of its
/// first node `replacements` stand for.
pub fn get_replacements(doc: &Document) -> (replacements: Option<Vec<Replacement>>)
    ensures
        match section(doc.nodes@, "replacements"@) {
            Some(nodes) => replacements matches Some(found) && placeholders(found@) == Seq::new(
                nodes.len(),
                |i: int| replacement_of(nodes[i]),
            ),
            None => replacements is None,
        },
{
    let nodes = match doc.get("replacements") {
        Some(node) => match &node.children {
            Some(children) => children,
            None => {
                return None;
            },
        },
        None => {
            return None;
        },
    };
    let mut replacements: Vec<Replacement> = Vec::new();
    let mut i: usize = 0;
    while i < nodes.len()
        invariant
            i <= nodes.len(),
            replacements@.len() == i,
            forall|j: int| 0 <= j < i ==> (#[trigger] replacements@[j])@ == replacement_of(nodes@[j]),
        decreases nodes.len() - i,
    {
        if let Some(replacement) = to_replacement(&nodes[i]) {
            replacements.push(replacement);
        }
        i += 1;
    }
    Some(replacements)
}

/// Puts the suites in the order in which they run, and names what keeps the
/// others from running. The first holds a copy of each suite that resolves:
/// by round, and within a round as the suites are declared, so that every
/// suite stands behind the suites it requires. The second holds, once each
/// and in the order in which they are declared, the requirements of the
/// other suites that no resolved suite bears.
pub fn resolve_requirements(suites: &[ActionSuite]) -> (result: (Vec<ActionSuite>, Vec<String>))
    ensures
        exists|order: Seq<int>| #[trigger]
            is_run_order(suites_view(suites@), order) && result.0@.len() == order.len()
                && forall|p: int|
                0 <= p < order.len() ==> (#[trigger] result.0@[p])@ == suites_view(
                    suites@,
                )[order[p]],
        texts(result.1@) == unresolved(suites_view(suites@)),
{
    let ghost all = suites_view(suites@);
    let (rounds, order) = rank(suites);
    let unmet = missing(suites, &rounds);
    let ghost run = Seq::new(order@.len(), |p: int| order@[p] as int);
    let mut resolved: Vec<ActionSuite> = Vec::new();
    let mut p: usize = 0;
    while p < order.len()
        invariant
            p <= order.len(),
            all == suites_view(suites@),
            ordered(all, rounds@, order@),
            resolved@.len() == p,
            forall|q: int| 0 <= q < p ==> (#[trigger] resolved@[q])@ == all[order@[q] as int],
        decreases order.len() - p,
    {
        resolved.push(suites[order[p]].clone());
        p += 1;
    }
    proof {
        assert forall|i: int| resolves(all, i) implies #[trigger] run.contains(i) by {
            assert(order@.contains(i as usize));
            let q = choose|q: int| 0 <= q < order@.len() && order@[q] == i as usize;
            assert(run[q] == i);
        }
        assert forall|a: int, b: int| 0 <= a < b < run.len() implies runs_before(
            all,
            #[trigger] run[a],
            #[trigger] run[b],
        ) by {
            lemma_round_of(all, run[a], rounds@[run[a]] as nat);
            lemma_round_of(all, run[b], rounds@[run[b]] as nat);
        }
        assert(is_run_order(all, run));
    }
    (resolved, unmet)
}

} // verus!
