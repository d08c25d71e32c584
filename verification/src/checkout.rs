//! Checking out a local repository: what to do next, given what was done
//! and how it went. The work on the repository itself is done elsewhere.

use vstd::prelude::*;
use vstd::string::StringExecFns;

use crate::grammar::default_selector;
use crate::text::joined;

verus! {

/// What is to be done next.
#[derive(Debug, PartialEq)]
pub enum Checkout {
    /// Open the repository.
    Open,
    /// Look up which reference `origin/HEAD` points at.
    FindDefault,
    /// Look up the revision.
    Revparse(String),
    /// Update the index and the working tree to the object.
    CheckoutTree { object: String, reference: Option<Option<String>> },
    /// Point `HEAD` at the reference.
    SetHead(String),
    /// Point `HEAD` at the commit itself.
    DetachHead(String),
    /// Nothing.
    Done,
}

/// How the last step went.
#[derive(Debug, PartialEq)]
pub enum CheckoutEvent {
    /// It went well, and there is nothing more to say.
    Succeeded,
    /// It failed. For a repository that did not open, the text says why.
    Failed(String),
    /// `origin/HEAD` points at this reference, or at none that has a name.
    Default(Option<String>),
    /// The revision is this object. `reference` is the branch or tag it was
    /// found by, if any, with its name where the name is valid UTF-8.
    Parsed { object: String, reference: Option<Option<String>> },
}

/// Why the checkout stopped.
#[derive(Debug, PartialEq)]
pub enum CheckoutError {
    OpenFailed(String),
    RevparseFailed(String),
    TreeCheckoutFailed,
    InvalidRefName,
    SetHeadFailed(String),
    DetachHeadFailed(String),
}

/// What is to be done next, as mathematics.
pub enum Task {
    Open,
    FindDefault,
    Revparse(Seq<char>),
    CheckoutTree { object: Seq<char>, reference: Option<Option<Seq<char>>> },
    SetHead(Seq<char>),
    DetachHead(Seq<char>),
    Done,
}

/// Why the checkout stopped, as mathematics.
pub enum Halt {
    OpenFailed(Seq<char>),
    RevparseFailed(Seq<char>),
    TreeCheckoutFailed,
    InvalidRefName,
    SetHeadFailed(Seq<char>),
    DetachHeadFailed(Seq<char>),
}

/// The name of a reference, as mathematics.
pub open spec fn reference_view(reference: Option<Option<String>>) -> Option<Option<Seq<char>>> {
    match reference {
        Some(Some(name)) => Some(Some(name@)),
        Some(None) => Some(None),
        None => None,
    }
}

impl View for Checkout {
    type V = Task;

    open spec fn view(&self) -> Task {
        match *self {
            Checkout::Open => Task::Open,
            Checkout::FindDefault => Task::FindDefault,
            Checkout::Revparse(revision) => Task::Revparse(revision@),
            Checkout::CheckoutTree { object, reference } => Task::CheckoutTree {
                object: object@,
                reference: reference_view(reference),
            },
            Checkout::SetHead(name) => Task::SetHead(name@),
            Checkout::DetachHead(hash) => Task::DetachHead(hash@),
            Checkout::Done => Task::Done,
        }
    }
}

impl View for CheckoutError {
    type V = Halt;

    open spec fn view(&self) -> Halt {
        match *self {
            CheckoutError::OpenFailed(why) => Halt::OpenFailed(why@),
            CheckoutError::RevparseFailed(revision) => Halt::RevparseFailed(revision@),
            CheckoutError::TreeCheckoutFailed => Halt::TreeCheckoutFailed,
            CheckoutError::InvalidRefName => Halt::InvalidRefName,
            CheckoutError::SetHeadFailed(name) => Halt::SetHeadFailed(name@),
            CheckoutError::DetachHeadFailed(hash) => Halt::DetachHeadFailed(hash@),
        }
    }
}

/// The message of a halt.
pub open spec fn halt_message(halt: Halt) -> Seq<char> {
    match halt {
        Halt::OpenFailed(_) => "Failed to open the git repository."@,
        Halt::RevparseFailed(revision) => "Failed to parse revision string `"@ + revision + "`."@,
        Halt::TreeCheckoutFailed => "Failed to checkout revision (tree)."@,
        Halt::InvalidRefName => "Reference name is not a valid UTF-8 string."@,
        Halt::SetHeadFailed(name) => "Failed to set HEAD to `"@ + name + "`."@,
        Halt::DetachHeadFailed(hash) => "Failed to detach HEAD to `"@ + hash + "`."@,
    }
}

impl CheckoutError {
    /// The message.
    pub fn to_string(&self) -> (text: String)
        ensures
            text@ == halt_message(self@),
    {
        match self {
            CheckoutError::OpenFailed(_) => String::from_str("Failed to open the git repository."),
            CheckoutError::RevparseFailed(revision) => {
                let head = joined("Failed to parse revision string `", revision.as_str());
                joined(head.as_str(), "`.")
            },
            CheckoutError::TreeCheckoutFailed => String::from_str(
                "Failed to checkout revision (tree).",
            ),
            CheckoutError::InvalidRefName => String::from_str(
                "Reference name is not a valid UTF-8 string.",
            ),
            CheckoutError::SetHeadFailed(name) => {
                let head = joined("Failed to set HEAD to `", name.as_str());
                joined(head.as_str(), "`.")
            },
            CheckoutError::DetachHeadFailed(hash) => {
                let head = joined("Failed to detach HEAD to `", hash.as_str());
                joined(head.as_str(), "`.")
            },
        }
    }
}

/// What follows a step that went as `event` says, for a repository whose
/// selector is `meta`. Once the repository is open, the revision to look up
/// is chosen: for the selector `HEAD` the reference that `origin/HEAD`
/// points at, and `HEAD` where there is none; for any other selector `HEAD`
/// as well, which is what the copy points at. The revision looked up is then
/// checked out, and `HEAD` is pointed at the reference it was found by, or
/// at the commit where there is none. An event that does not belong to the
/// step counts as its failure.
pub open spec fn next_task(meta: Seq<char>, task: Task, event: CheckoutEvent) -> Result<Task, Halt> {
    match task {
        Task::Open => match event {
            CheckoutEvent::Succeeded => if meta == default_selector() {
                Ok(Task::FindDefault)
            } else {
                Ok(Task::Revparse(default_selector()))
            },
            CheckoutEvent::Failed(why) => Err(Halt::OpenFailed(why@)),
            _ => Err(Halt::OpenFailed(Seq::empty())),
        },
        Task::FindDefault => match event {
            CheckoutEvent::Default(Some(name)) => Ok(Task::Revparse(name@)),
            _ => Ok(Task::Revparse(default_selector())),
        },
        Task::Revparse(revision) => match event {
            CheckoutEvent::Parsed { object, reference } => Ok(
                Task::CheckoutTree { object: object@, reference: reference_view(reference) },
            ),
            _ => Err(Halt::RevparseFailed(revision)),
        },
        Task::CheckoutTree { object, reference } => match event {
            CheckoutEvent::Succeeded => match reference {
                Some(Some(name)) => Ok(Task::SetHead(name)),
                Some(None) => Err(Halt::InvalidRefName),
                None => Ok(Task::DetachHead(object)),
            },
            _ => Err(Halt::TreeCheckoutFailed),
        },
        Task::SetHead(name) => match event {
            CheckoutEvent::Succeeded => Ok(Task::Done),
            _ => Err(Halt::SetHeadFailed(name)),
        },
        Task::DetachHead(hash) => match event {
            CheckoutEvent::Succeeded => Ok(Task::Done),
            _ => Err(Halt::DetachHeadFailed(hash)),
        },
        Task::Done => Ok(Task::Done),
    }
}

/// What follows `step`, which went as `event` says: as `next_task` says.
pub fn next_step(meta: &str, step: Checkout, event: CheckoutEvent) -> (result: Result<
    Checkout,
    CheckoutError,
>)
    ensures
        match next_task(meta@, step@, event) {
            Ok(task) => result matches Ok(next) && next@ == task,
            Err(halt) => result matches Err(e) && e@ == halt,
        },
{
    match step {
        Checkout::Open => match event {
            CheckoutEvent::Succeeded => {
                if String::from_str(meta) == String::from_str("HEAD") {
                    Ok(Checkout::FindDefault)
                } else {
                    Ok(Checkout::Revparse(String::from_str("HEAD")))
                }
            },
            CheckoutEvent::Failed(why) => Err(CheckoutError::OpenFailed(why)),
            _ => Err(CheckoutError::OpenFailed(String::new())),
        },
        Checkout::FindDefault => match event {
            CheckoutEvent::Default(Some(name)) => Ok(Checkout::Revparse(name)),
            _ => Ok(Checkout::Revparse(String::from_str("HEAD"))),
        },
        Checkout::Revparse(revision) => match event {
            CheckoutEvent::Parsed { object, reference } => Ok(
                Checkout::CheckoutTree { object, reference },
            ),
            _ => Err(CheckoutError::RevparseFailed(revision)),
        },
        Checkout::CheckoutTree { object, reference } => match event {
            CheckoutEvent::Succeeded => match reference {
                Some(Some(name)) => Ok(Checkout::SetHead(name)),
                Some(None) => Err(CheckoutError::InvalidRefName),
                None => Ok(Checkout::DetachHead(object)),
            },
            _ => Err(CheckoutError::TreeCheckoutFailed),
        },
        Checkout::SetHead(name) => match event {
            CheckoutEvent::Succeeded => Ok(Checkout::Done),
            _ => Err(CheckoutError::SetHeadFailed(name)),
        },
        Checkout::DetachHead(hash) => match event {
            CheckoutEvent::Succeeded => Ok(Checkout::Done),
            _ => Err(CheckoutError::DetachHeadFailed(hash)),
        },
        Checkout::Done => Ok(Checkout::Done),
    }
}

} // verus!
