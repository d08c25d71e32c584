//! A configuration document as a tree of nodes: what the configuration of a
//! template holds once its text is parsed.

use vstd::prelude::*;
use vstd::string::StringExecFns;

use crate::search::first_where;

verus! {

/// The value of an entry.
#[derive(Debug, PartialEq)]
pub enum Value {
    /// A string.
    Text(String),
    /// `true` or `false`.
    Flag(bool),
    /// A number or null.
    Other,
}

/// An entry of a node: an argument, which has no name, or a property.
#[derive(Debug, PartialEq)]
pub struct Entry {
    pub name: Option<String>,
    pub value: Value,
}

/// A node: its name, its entries in the order in which they are written,
/// and the nodes in its braces, where it has braces.
#[derive(Debug, PartialEq)]
pub struct Node {
    /// The name.
    pub name: String,
    /// The name as it is written: in quotes, where it needs them.
    pub label: String,
    pub entries: Vec<Entry>,
    pub children: Option<Vec<Node>>,
}

/// A document: its nodes, first to last.
#[derive(Debug, PartialEq)]
pub struct Document {
    pub nodes: Vec<Node>,
}

/// The text of a value that is a string.
pub open spec fn text_of(value: Option<Value>) -> Option<Seq<char>> {
    match value {
        Some(Value::Text(text)) => Some(text@),
        _ => None,
    }
}

/// The flag of a value that is `true` or `false`.
pub open spec fn flag_of(value: Option<Value>) -> Option<bool> {
    match value {
        Some(Value::Flag(flag)) => Some(flag),
        _ => None,
    }
}

/// The value of the property `name`: that of the last entry of that name.
pub open spec fn property(entries: Seq<Entry>, name: Seq<char>) -> Option<Value>
    decreases entries.len(),
{
    if entries.len() == 0 {
        None
    } else if entries.last().name matches Some(n) && n@ == name {
        Some(entries.last().value)
    } else {
        property(entries.drop_last(), name)
    }
}

/// The entries without a name.
pub open spec fn unnamed() -> spec_fn(Entry) -> bool {
    |entry: Entry| entry.name is None
}

/// The value of the first argument.
pub open spec fn first_argument(entries: Seq<Entry>) -> Option<Value> {
    match first_where(entries, unnamed(), 0) {
        Some(i) => Some(entries[i].value),
        None => None,
    }
}

/// The nodes of the name `name`.
pub open spec fn named(name: Seq<char>) -> spec_fn(Node) -> bool {
    |node: Node| node.name@ == name
}

/// The first node of the name `name`.
pub open spec fn first_named(nodes: Seq<Node>, name: Seq<char>) -> Option<Node> {
    match first_where(nodes, named(name), 0) {
        Some(i) => Some(nodes[i]),
        None => None,
    }
}

impl Value {
    /// The text, where the value is a string.
    pub fn as_string(&self) -> (text: Option<&String>)
        ensures
            match text {
                Some(t) => text_of(Some(*self)) == Some(t@),
                None => text_of(Some(*self)) is None,
            },
    {
        match self {
            Value::Text(text) => Some(text),
            _ => None,
        }
    }

    /// The flag, where the value is `true` or `false`.
    pub fn as_bool(&self) -> (flag: Option<bool>)
        ensures
            flag == flag_of(Some(*self)),
    {
        match self {
            Value::Flag(flag) => Some(*flag),
            _ => None,
        }
    }
}

impl Node {
    /// The value of the property `name`: where it is written more than once,
    /// the last one counts.
    pub fn get(&self, name: &str) -> (value: Option<&Value>)
        ensures
            match value {
                Some(v) => property(self.entries@, name@) == Some(*v),
                None => property(self.entries@, name@) is None,
            },
    {
        let wanted = String::from_str(name);
        let mut i: usize = self.entries.len();
        assert(self.entries@.take(i as int) =~= self.entries@);
        while i > 0
            invariant
                i <= self.entries.len(),
                wanted@ == name@,
                property(self.entries@, name@) == property(self.entries@.take(i as int), name@),
            decreases i,
        {
            let ghost front = self.entries@.take(i as int);
            assert(front.drop_last() =~= self.entries@.take(i - 1));
            if let Some(n) = &self.entries[i - 1].name {
                if *n == wanted {
                    return Some(&self.entries[i - 1].value);
                }
            }
            i -= 1;
        }
        None
    }

    /// The value of the first argument.
    pub fn first(&self) -> (value: Option<&Value>)
        ensures
            match value {
                Some(v) => first_argument(self.entries@) == Some(*v),
                None => first_argument(self.entries@) is None,
            },
    {
        let mut i: usize = 0;
        while i < self.entries.len()
            invariant
                first_where(self.entries@, unnamed(), 0) == first_where(
                    self.entries@,
                    unnamed(),
                    i as int,
                ),
            decreases self.entries.len() - i,
        {
            if self.entries[i].name.is_none() {
                return Some(&self.entries[i].value);
            }
            i += 1;
        }
        None
    }
}

impl Document {
    /// The first node of the name `name`.
    pub fn get(&self, name: &str) -> (node: Option<&Node>)
        ensures
            match node {
                Some(n) => first_named(self.nodes@, name@) == Some(*n),
                None => first_named(self.nodes@, name@) is None,
            },
    {
        let wanted = String::from_str(name);
        let mut i: usize = 0;
        while i < self.nodes.len()
            invariant
                wanted@ == name@,
                first_where(self.nodes@, named(name@), 0) == first_where(
                    self.nodes@,
                    named(name@),
                    i as int,
                ),
            decreases self.nodes.len() - i,
        {
            if self.nodes[i].name == wanted {
                return Some(&self.nodes[i]);
            }
            i += 1;
        }
        None
    }
}

} // verus!
