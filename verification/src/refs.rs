//! The refs of a remote repository: symbolic names and the commits they
//! point at, in the order in which the remote listed them.

use vstd::prelude::*;

use vstd::string::StringExecFns;

use crate::oid::{is_object_id, object_id};
use crate::text::{ascii_lower, chars_of, has_prefix, text_of};

verus! {

/// The listed refs as mathematics: pairs of a name and a hash.
pub type Refs = Seq<(Seq<char>, Seq<char>)>;

/// No name is listed twice.
pub open spec fn names_distinct(refs: Refs) -> bool {
    forall|i: int, j: int| 0 <= i < j < refs.len() ==> (#[trigger] refs[i]).0 != (#[trigger] refs[j]).0
}

/// The position of `name` among the refs, searching from `from`.
pub open spec fn position_of(refs: Refs, name: Seq<char>, from: int) -> Option<int>
    decreases refs.len() - from,
{
    if from < 0 || from >= refs.len() {
        None
    } else if refs[from].0 == name {
        Some(from)
    } else {
        position_of(refs, name, from + 1)
    }
}

/// The hash that `name` points at.
pub open spec fn hash_of(refs: Refs, name: Seq<char>) -> Option<Seq<char>> {
    match position_of(refs, name, 0) {
        Some(i) => Some(refs[i].1),
        None => None,
    }
}

/// The refs once `name` points at `hash`: a known name keeps its place, a new
/// one goes to the end.
pub open spec fn with_ref(refs: Refs, name: Seq<char>, hash: Seq<char>) -> Refs {
    match position_of(refs, name, 0) {
        Some(i) => refs.update(i, (name, hash)),
        None => refs.push((name, hash)),
    }
}

/// The first listed hash that starts with `prefix`, searching from `from`.
pub open spec fn first_tip(refs: Refs, prefix: Seq<char>, from: int) -> Option<Seq<char>>
    decreases refs.len() - from,
{
    if from < 0 || from >= refs.len() {
        None
    } else if prefix.is_prefix_of(refs[from].1) {
        Some(refs[from].1)
    } else {
        first_tip(refs, prefix, from + 1)
    }
}

/// The name under which a listed ref is kept: `HEAD` as it is, a branch or a
/// tag without its `refs/heads/` or `refs/tags/`, nothing else.
pub open spec fn short_name(listed: Seq<char>) -> Option<Seq<char>> {
    if listed == "HEAD"@ {
        Some(listed)
    } else if "refs/heads/"@.is_prefix_of(listed) {
        Some(listed.skip("refs/heads/"@.len() as int))
    } else if "refs/tags/"@.is_prefix_of(listed) {
        Some(listed.skip("refs/tags/"@.len() as int))
    } else {
        None
    }
}

/// The refs once a listed ref is taken in: kept under its short name, or
/// left out where it has none.
pub open spec fn with_listed(refs: Refs, listed: Seq<char>, hash: Seq<char>) -> Refs {
    match short_name(listed) {
        Some(name) => with_ref(refs, name, hash),
        None => refs,
    }
}

/// The refs once a whole listing is taken in, first to last.
pub open spec fn with_listing(refs: Refs, listing: Refs) -> Refs
    decreases listing.len(),
{
    if listing.len() == 0 {
        refs
    } else {
        with_listed(
            with_listing(refs, listing.drop_last()),
            listing.last().0,
            listing.last().1,
        )
    }
}

/// The commit that a selector stands for. A listed name stands for the hash
/// it points at. Seven or more hexadecimal digits stand for the first listed
/// hash that starts with them, whatever their case, and for themselves where
/// none does. Anything else stands for nothing.
pub open spec fn resolve(refs: Refs, selector: Seq<char>) -> Option<Seq<char>> {
    match hash_of(refs, selector) {
        Some(hash) => Some(hash),
        None => if selector.len() >= 7 && is_object_id(selector) {
            match first_tip(refs, ascii_lower(selector), 0) {
                Some(hash) => Some(hash),
                None => Some(selector),
            }
        } else {
            None
        },
    }
}

/// `position_of` returns the least position that holds the name.
pub proof fn lemma_position_of(refs: Refs, name: Seq<char>, from: int)
    requires
        0 <= from,
    ensures
        match position_of(refs, name, from) {
            Some(i) => from <= i < refs.len() && refs[i].0 == name && forall|j: int|
                from <= j < i ==> (#[trigger] refs[j]).0 != name,
            None => forall|j: int| from <= j < refs.len() ==> (#[trigger] refs[j]).0 != name,
        },
    decreases refs.len() - from,
{
    if from < refs.len() && refs[from].0 != name {
        lemma_position_of(refs, name, from + 1);
    }
}

/// A position that holds the name, with none before it, is the one found.
pub proof fn lemma_position_is(refs: Refs, name: Seq<char>, from: int, i: int)
    requires
        0 <= from <= i < refs.len(),
        refs[i].0 == name,
        forall|j: int| from <= j < i ==> (#[trigger] refs[j]).0 != name,
    ensures
        position_of(refs, name, from) == Some(i),
    decreases i - from,
{
    if from < i {
        lemma_position_is(refs, name, from + 1, i);
    }
}

/// Pointing a name at a hash keeps the names distinct, and the name then
/// points at that hash while every other name points where it did.
pub proof fn lemma_with_ref(refs: Refs, name: Seq<char>, hash: Seq<char>, other: Seq<char>)
    requires
        names_distinct(refs),
    ensures
        names_distinct(with_ref(refs, name, hash)),
        hash_of(with_ref(refs, name, hash), name) == Some(hash),
        other != name ==> hash_of(with_ref(refs, name, hash), other) == hash_of(refs, other),
{
    let after = with_ref(refs, name, hash);
    lemma_position_of(refs, name, 0);
    lemma_position_of(refs, other, 0);
    lemma_position_of(after, other, 0);
    let at = match position_of(refs, name, 0) {
        Some(i) => i,
        None => refs.len() as int,
    };
    lemma_position_is(after, name, 0, at);
    if other != name {
        if let Some(k) = position_of(refs, other, 0) {
            lemma_position_is(after, other, 0, k);
        }
    }
}

/// The refs that a remote listed. It stands for a map from name to hash and
/// keeps the order of the listing, so that a search among the hashes always
/// meets them in the same order.
#[derive(Debug, PartialEq)]
pub struct RefMap {
    entries: Vec<(String, String)>,
}

impl View for RefMap {
    type V = Refs;

    closed spec fn view(&self) -> Refs {
        Seq::new(self.entries@.len(), |i: int| (self.entries@[i].0@, self.entries@[i].1@))
    }
}

impl RefMap {
    #[verifier::type_invariant]
    /// No name is listed twice.
    spec fn well_formed(self) -> bool {
        names_distinct(self@)
    }

    /// No refs.
    pub fn new() -> (refs: RefMap)
        ensures
            refs@ == Seq::<(Seq<char>, Seq<char>)>::empty(),
    {
        let refs = RefMap { entries: Vec::new() };
        refs
    }

    /// The number of refs.
    pub fn len(&self) -> (n: usize)
        ensures
            n == self@.len(),
    {
        self.entries.len()
    }

    /// Whether there are no refs.
    pub fn is_empty(&self) -> (b: bool)
        ensures
            b == (self@.len() == 0),
    {
        self.entries.len() == 0
    }

    /// Where `name` stands among the refs.
    fn position(&self, name: &str) -> (found: Option<usize>)
        ensures
            match found {
                Some(i) => position_of(self@, name@, 0) == Some(i as int) && i < self.entries@.len(),
                None => position_of(self@, name@, 0) is None,
            },
    {
        let wanted = String::from_str(name);
        let mut i: usize = 0;
        while i < self.entries.len()
            invariant
                position_of(self@, name@, 0) == position_of(self@, name@, i as int),
                self@.len() == self.entries@.len(),
                wanted@ == name@,
            decreases self.entries.len() - i,
        {
            if self.entries[i].0 == wanted {
                return Some(i);
            }
            i += 1;
        }
        None
    }

    /// Points `name` at `hash`, as `with_ref` says.
    pub fn insert(&mut self, name: String, hash: String)
        ensures
            final(self)@ == with_ref(old(self)@, name@, hash@),
            names_distinct(final(self)@),
    {
        proof {
            use_type_invariant(&*self);
            lemma_with_ref(self@, name@, hash@, name@);
        }
        let found = self.position(name.as_str());
        let mut entries: Vec<(String, String)> = Vec::new();
        std::mem::swap(&mut self.entries, &mut entries);
        match found {
            Some(i) => {
                entries.set(i, (name, hash));
            },
            None => {
                entries.push((name, hash));
            },
        }
        let ghost after = Seq::new(entries@.len(), |i: int| (entries@[i].0@, entries@[i].1@));
        assert(after =~= with_ref(old(self)@, name@, hash@));
        self.entries = entries;
    }

    /// Takes in a ref as the remote lists it, under its short name.
    pub fn record(&mut self, listed: &str, hash: String)
        ensures
            final(self)@ == with_listed(old(self)@, listed@, hash@),
    {
        let chars = chars_of(listed);
        let heads = chars_of("refs/heads/");
        let tags = chars_of("refs/tags/");
        let name = String::from_str(listed);
        if name == String::from_str("HEAD") {
            self.insert(name, hash);
        } else if has_prefix(&chars, &heads) {
            let name = text_of(&chars, heads.len(), chars.len());
            self.insert(name, hash);
        } else if has_prefix(&chars, &tags) {
            let name = text_of(&chars, tags.len(), chars.len());
            self.insert(name, hash);
        }
    }

    /// The hash that `name` points at.
    pub fn get(&self, name: &str) -> (hash: Option<&String>)
        ensures
            match hash {
                Some(h) => hash_of(self@, name@) == Some(h@),
                None => hash_of(self@, name@) is None,
            },
    {
        match self.position(name) {
            Some(i) => Some(&self.entries[i].1),
            None => None,
        }
    }

    /// The commit that `selector` stands for, as `resolve` says.
    pub fn resolve(&self, selector: &str) -> (hash: Option<String>)
        ensures
            match resolve(self@, selector@) {
                Some(h) => hash matches Some(found) && found@ == h,
                None => hash is None,
            },
    {
        if let Some(hash) = self.get(selector) {
            return Some(hash.clone());
        }
        let digits = chars_of(selector);
        if digits.len() < 7 {
            return None;
        }
        match object_id(selector) {
            Some(id) => {
                let id = chars_of(id.as_str());
                let start = text_of(&id, 0, digits.len());
                assert(start@ =~= ascii_lower(selector@));
                match self.find_tip(start.as_str()) {
                    Some(hash) => Some(hash.clone()),
                    None => Some(String::from_str(selector)),
                }
            },
            None => None,
        }
    }

    /// The first listed hash that starts with `prefix`.
    pub fn find_tip(&self, prefix: &str) -> (hash: Option<&String>)
        ensures
            match hash {
                Some(h) => first_tip(self@, prefix@, 0) == Some(h@),
                None => first_tip(self@, prefix@, 0) is None,
            },
    {
        let wanted = chars_of(prefix);
        let mut i: usize = 0;
        while i < self.entries.len()
            invariant
                first_tip(self@, prefix@, 0) == first_tip(self@, prefix@, i as int),
                self@.len() == self.entries@.len(),
                wanted@ == prefix@,
            decreases self.entries.len() - i,
        {
            let tip = chars_of(self.entries[i].1.as_str());
            if has_prefix(&tip, &wanted) {
                return Some(&self.entries[i].1);
            }
            i += 1;
        }
        None
    }
}

} // verus!
