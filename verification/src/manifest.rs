//! The manifest of the cache: for each repository, under its key, the
//! revisions that are cached, in the order in which they were written.

use vstd::prelude::*;
use vstd::string::StringExecFns;

use crate::entry::{encode_entry, entry_of};
use crate::search::{
    first_where, lemma_filter_agree, lemma_filter_all, lemma_filter_none, lemma_filter_step,
    lemma_first_where, lemma_first_where_is,
};
use crate::text::{chars_of, has_prefix, texts};

verus! {

/// A cached revision, as mathematics.
pub struct Revision {
    pub name: Seq<char>,
    pub hash: Seq<char>,
    pub timestamp: i64,
}

/// The revisions cached for one repository, as mathematics.
pub struct Shelf {
    pub entry: Seq<char>,
    pub items: Seq<Revision>,
}

/// Two hashes stand for the same revision where the shorter is the start of
/// the longer; with equal lengths, where they are equal.
pub open spec fn hashes_match(a: Seq<char>, b: Seq<char>) -> bool {
    a.is_prefix_of(b) || b.is_prefix_of(a)
}

/// The shelves under `entry`.
pub open spec fn under(entry: Seq<char>) -> spec_fn(Shelf) -> bool {
    |shelf: Shelf| shelf.entry == entry
}

/// The revisions whose hash matches `hash`.
pub open spec fn matching(hash: Seq<char>) -> spec_fn(Revision) -> bool {
    |item: Revision| hashes_match(hash, item.hash)
}

/// The shelves that hold a revision.
pub open spec fn stocked() -> spec_fn(Shelf) -> bool {
    |shelf: Shelf| shelf.items.len() > 0
}

/// No key has two shelves.
pub open spec fn entries_distinct(m: Seq<Shelf>) -> bool {
    forall|i: int, j: int|
        0 <= i < j < m.len() ==> (#[trigger] m[i]).entry != (#[trigger] m[j]).entry
}

/// Where the shelf under `entry` stands.
pub open spec fn shelf_position(m: Seq<Shelf>, entry: Seq<char>) -> Option<int> {
    first_where(m, under(entry), 0)
}

/// Whether some revision among `items` matches `hash`.
pub open spec fn holds(items: Seq<Revision>, hash: Seq<char>) -> bool {
    first_where(items, matching(hash), 0) is Some
}

/// The first revision under `entry` that matches `hash`.
pub open spec fn found(m: Seq<Shelf>, entry: Seq<char>, hash: Seq<char>) -> Option<Revision> {
    match shelf_position(m, entry) {
        Some(i) => match first_where(m[i].items, matching(hash), 0) {
            Some(k) => Some(m[i].items[k]),
            None => None,
        },
        None => None,
    }
}

/// The manifest once `item` is written under `entry`: it goes to the end of
/// the shelf unless a revision there matches its hash already, and on a shelf
/// of its own, behind the others, where the key has none.
pub open spec fn recorded(m: Seq<Shelf>, entry: Seq<char>, item: Revision) -> Seq<Shelf> {
    match shelf_position(m, entry) {
        Some(i) => if holds(m[i].items, item.hash) {
            m
        } else {
            m.update(i, Shelf { entry, items: m[i].items.push(item) })
        },
        None => m.push(Shelf { entry, items: seq![item] }),
    }
}

/// The manifest without its empty shelves.
pub open spec fn normalized(m: Seq<Shelf>) -> Seq<Shelf> {
    m.filter(stocked())
}

/// The manifest once `items` are what is kept under `entry`: in place of
/// what was there, or on a new shelf behind the others.
pub open spec fn placed(m: Seq<Shelf>, entry: Seq<char>, items: Seq<Revision>) -> Seq<Shelf> {
    match shelf_position(m, entry) {
        Some(i) => m.update(i, Shelf { entry, items }),
        None => m.push(Shelf { entry, items }),
    }
}

/// Putting revisions under a key keeps the keys distinct.
pub proof fn lemma_placed_distinct(m: Seq<Shelf>, entry: Seq<char>, items: Seq<Revision>)
    requires
        entries_distinct(m),
    ensures
        entries_distinct(placed(m, entry, items)),
{
    lemma_first_where(m, under(entry), 0);
}

/// Dropping shelves keeps the keys distinct.
pub proof fn lemma_filter_distinct(m: Seq<Shelf>, keep: spec_fn(Shelf) -> bool)
    requires
        entries_distinct(m),
    ensures
        entries_distinct(m.filter(keep)),
    decreases m.len(),
{
    reveal(Seq::filter);
    if m.len() > 0 {
        let front = m.drop_last();
        lemma_filter_distinct(front, keep);
        let kept = front.filter(keep);
        let after = m.filter(keep);
        assert forall|i: int, j: int| 0 <= i < j < after.len() implies (#[trigger] after[i]).entry
            != (#[trigger] after[j]).entry by {
            if j >= kept.len() {
                front.lemma_filter_contains_rev(keep, kept[i]);
            }
        }
    }
}

/// Whether a search term picks `item`, which lies under `entry`. A term that
/// is the identity of a repository with a shelf picks all that lies on that
/// shelf and nothing else. Any other term picks the revisions that it names
/// and those whose hash it matches, on every shelf.
pub open spec fn picks(m: Seq<Shelf>, term: Seq<char>, entry: Seq<char>, item: Revision) -> bool {
    if shelf_position(m, entry_of(term)) is Some {
        entry == entry_of(term)
    } else {
        item.name == term || hashes_match(item.hash, term)
    }
}

/// The revisions under `entry` that one of the terms picks.
pub open spec fn picked(m: Seq<Shelf>, terms: Seq<Seq<char>>, entry: Seq<char>) -> spec_fn(
    Revision,
) -> bool {
    |item: Revision| exists|k: int| 0 <= k < terms.len() && picks(m, #[trigger] terms[k], entry, item)
}

/// The revisions under `entry` that none of the terms picks.
pub open spec fn unpicked(m: Seq<Shelf>, terms: Seq<Seq<char>>, entry: Seq<char>) -> spec_fn(
    Revision,
) -> bool {
    |item: Revision| !picked(m, terms, entry)(item)
}

/// A shelf cut down to what the terms pick.
pub open spec fn pick_from(m: Seq<Shelf>, terms: Seq<Seq<char>>) -> spec_fn(Shelf) -> Shelf {
    |shelf: Shelf|
        Shelf { entry: shelf.entry, items: shelf.items.filter(picked(m, terms, shelf.entry)) }
}

/// A shelf cut down to what the terms leave.
pub open spec fn leave_on(m: Seq<Shelf>, terms: Seq<Seq<char>>) -> spec_fn(Shelf) -> Shelf {
    |shelf: Shelf|
        Shelf { entry: shelf.entry, items: shelf.items.filter(unpicked(m, terms, shelf.entry)) }
}

/// What the terms pick: of each shelf the picked revisions, in their order,
/// and no shelf of which they pick nothing.
pub open spec fn selection(m: Seq<Shelf>, terms: Seq<Seq<char>>) -> Seq<Shelf> {
    m.map_values(pick_from(m, terms)).filter(stocked())
}

/// The manifest once what the terms pick is removed, and with it every
/// shelf that is left empty.
pub open spec fn removed(m: Seq<Shelf>, terms: Seq<Seq<char>>) -> Seq<Shelf> {
    normalized(m.map_values(leave_on(m, terms)))
}

/// The revisions under `entry` that a selection holds.
pub open spec fn chosen(selected: Seq<Shelf>, entry: Seq<char>) -> spec_fn(Revision) -> bool {
    |item: Revision|
        exists|k: int|
            0 <= k < selected.len() && (#[trigger] selected[k]).entry == entry
                && selected[k].items.contains(item)
}

/// The revisions under `entry` that a selection does not hold.
pub open spec fn spared(selected: Seq<Shelf>, entry: Seq<char>) -> spec_fn(Revision) -> bool {
    |item: Revision| !chosen(selected, entry)(item)
}

/// A shelf cut down to what a selection does not hold.
pub open spec fn spare_on(selected: Seq<Shelf>) -> spec_fn(Shelf) -> Shelf {
    |shelf: Shelf|
        Shelf { entry: shelf.entry, items: shelf.items.filter(spared(selected, shelf.entry)) }
}

/// The manifest without the revisions that a selection holds. Shelves stay,
/// also where nothing is left on them.
pub open spec fn without(m: Seq<Shelf>, selected: Seq<Shelf>) -> Seq<Shelf> {
    m.map_values(spare_on(selected))
}

/// Hashes match where one is the start of the other, whichever is asked
/// first.
pub proof fn lemma_prefix_matches(a: Seq<char>, b: Seq<char>)
    requires
        a.is_prefix_of(b),
    ensures
        hashes_match(a, b),
        hashes_match(b, a),
{
}

/// Hashes of one length match only where they are equal.
pub proof fn lemma_same_length_matches(a: Seq<char>, b: Seq<char>)
    requires
        a.len() == b.len(),
    ensures
        hashes_match(a, b) <==> a == b,
{
    if hashes_match(a, b) {
        assert(a =~= b);
    }
}

/// Hashes that differ at a place which both have do not match.
pub proof fn lemma_different_hashes(a: Seq<char>, b: Seq<char>, i: int)
    requires
        0 <= i < a.len(),
        i < b.len(),
        a[i] != b[i],
    ensures
        !hashes_match(a, b),
{
}

/// A shelf under a key is the only one under it, so it is the one found.
pub proof fn lemma_shelf_position(m: Seq<Shelf>, i: int)
    requires
        entries_distinct(m),
        0 <= i < m.len(),
    ensures
        shelf_position(m, m[i].entry) == Some(i),
{
    lemma_first_where(m, under(m[i].entry), 0);
}

/// Writing a revision keeps the keys distinct. Under its key there is then a
/// revision that matches its hash, and this is the revision itself where
/// none did before.
pub proof fn lemma_recorded(m: Seq<Shelf>, entry: Seq<char>, item: Revision)
    requires
        entries_distinct(m),
    ensures
        entries_distinct(recorded(m, entry, item)),
        shelf_position(recorded(m, entry, item), entry) is Some,
        found(recorded(m, entry, item), entry, item.hash) is Some,
        found(m, entry, item.hash) is None ==> found(recorded(m, entry, item), entry, item.hash)
            == Some(item),
{
    let after = recorded(m, entry, item);
    lemma_first_where(m, under(entry), 0);
    match shelf_position(m, entry) {
        Some(i) => {
            let items = m[i].items;
            lemma_first_where(items, matching(item.hash), 0);
            if !holds(items, item.hash) {
                lemma_shelf_position(after, i);
                lemma_first_where_is(items.push(item), matching(item.hash), 0, items.len() as int);
            }
        },
        None => {
            lemma_shelf_position(after, m.len() as int);
        },
    }
}

/// Dropping the empty shelves keeps the keys distinct and every shelf that
/// holds a revision, and changes nothing where it is done again.
pub proof fn lemma_normalized(m: Seq<Shelf>)
    requires
        entries_distinct(m),
    ensures
        entries_distinct(normalized(m)),
        normalized(normalized(m)) == normalized(m),
        forall|i: int| 0 <= i < normalized(m).len() ==> (#[trigger] normalized(m)[i]).items.len() > 0,
        forall|i: int|
            0 <= i < m.len() && (#[trigger] m[i]).items.len() > 0 ==> shelf_position(
                normalized(m),
                m[i].entry,
            ) is Some && normalized(m)[shelf_position(normalized(m), m[i].entry).unwrap()] == m[i],
        forall|entry: Seq<char>|
            shelf_position(m, entry) is None ==> shelf_position(normalized(m), entry) is None,
{
    let kept = normalized(m);
    lemma_filter_distinct(m, stocked());
    lemma_filter_all(kept, stocked());
    assert forall|i: int| 0 <= i < m.len() && (#[trigger] m[i]).items.len() > 0 implies shelf_position(
        kept,
        m[i].entry,
    ) is Some && kept[shelf_position(kept, m[i].entry).unwrap()] == m[i] by {
        m.lemma_filter_contains(stocked(), i);
        let k = choose|k: int| 0 <= k < kept.len() && kept[k] == m[i];
        lemma_shelf_position(kept, k);
    }
    assert forall|entry: Seq<char>| shelf_position(m, entry) is None implies shelf_position(
        kept,
        entry,
    ) is None by {
        lemma_first_where(m, under(entry), 0);
        lemma_first_where(kept, under(entry), 0);
        if shelf_position(kept, entry) is Some {
            let k = shelf_position(kept, entry).unwrap();
            m.lemma_filter_contains_rev(stocked(), kept[k]);
        }
    }
}

/// Removing what the terms pick leaves on each shelf what the terms do not
/// pick.
pub proof fn lemma_without_selection(m: Seq<Shelf>, terms: Seq<Seq<char>>)
    requires
        entries_distinct(m),
    ensures
        without(m, selection(m, terms)) == m.map_values(leave_on(m, terms)),
{
    let selected = selection(m, terms);
    let cut = m.map_values(pick_from(m, terms));
    assert forall|i: int| 0 <= i < m.len() implies spare_on(selected)(#[trigger] m[i]) == leave_on(
        m,
        terms,
    )(m[i]) by {
        let shelf = m[i];
        let wanted = picked(m, terms, shelf.entry);
        let p = spared(selected, shelf.entry);
        let q = unpicked(m, terms, shelf.entry);
        assert forall|k: int| 0 <= k < shelf.items.len() implies p(#[trigger] shelf.items[k]) == q(
            shelf.items[k],
        ) by {
            let item = shelf.items[k];
            if wanted(item) {
                assert(cut[i].items.contains(item));
                cut.lemma_filter_contains(stocked(), i);
                let at = choose|at: int| 0 <= at < selected.len() && selected[at] == cut[i];
            }
            if chosen(selected, shelf.entry)(item) {
                let at = choose|at: int|
                    0 <= at < selected.len() && (#[trigger] selected[at]).entry == shelf.entry
                        && selected[at].items.contains(item);
                cut.lemma_filter_contains_rev(stocked(), selected[at]);
            }
        }
        lemma_filter_agree(shelf.items, p, q);
    }
}

/// A shelf as it is, but for the one under `entry`, which is emptied.
pub open spec fn clear(entry: Seq<char>) -> spec_fn(Shelf) -> Shelf {
    |shelf: Shelf|
        if shelf.entry == entry {
            Shelf { entry, items: Seq::empty() }
        } else {
            shelf
        }
}

/// The revisions that `term` neither names nor matches by hash.
pub open spec fn unlike(term: Seq<char>) -> spec_fn(Revision) -> bool {
    |item: Revision| !(item.name == term || hashes_match(item.hash, term))
}

/// A shelf cut down to the revisions that `term` neither names nor matches
/// by hash.
pub open spec fn sift(term: Seq<char>) -> spec_fn(Shelf) -> Shelf {
    |shelf: Shelf| Shelf { entry: shelf.entry, items: shelf.items.filter(unlike(term)) }
}

/// Removing by the identity of a repository that has a shelf removes that
/// shelf with all that lies on it, and nothing else.
pub proof fn lemma_remove_repository(m: Seq<Shelf>, identity: Seq<char>)
    requires
        shelf_position(m, entry_of(identity)) is Some,
    ensures
        removed(m, seq![identity]) == normalized(m.map_values(clear(entry_of(identity)))),
        shelf_position(removed(m, seq![identity]), entry_of(identity)) is None,
{
    let terms = seq![identity];
    let entry = entry_of(identity);
    let left = m.map_values(leave_on(m, terms));
    let cleared = m.map_values(clear(entry));
    assert forall|i: int| 0 <= i < m.len() implies #[trigger] left[i] == cleared[i] by {
        let shelf = m[i];
        let keep = unpicked(m, terms, shelf.entry);
        assert forall|k: int| 0 <= k < shelf.items.len() implies keep(#[trigger] shelf.items[k])
            == (shelf.entry != entry) by {
            if shelf.entry == entry {
                assert(picks(m, terms[0], shelf.entry, shelf.items[k]));
            }
        }
        if shelf.entry == entry {
            lemma_filter_none(shelf.items, keep);
        } else {
            lemma_filter_all(shelf.items, keep);
        }
    }
    assert(left =~= cleared);
    let after = normalized(cleared);
    lemma_first_where(after, under(entry), 0);
    if shelf_position(after, entry) is Some {
        let k = shelf_position(after, entry).unwrap();
        cleared.lemma_filter_contains_rev(stocked(), after[k]);
    }
}

/// Removing by a term that is no identity of a repository with a shelf
/// removes, on every shelf, the revisions that the term names and those
/// whose hash it matches, and leaves the others as they are.
pub proof fn lemma_remove_revisions(m: Seq<Shelf>, term: Seq<char>)
    requires
        shelf_position(m, entry_of(term)) is None,
    ensures
        removed(m, seq![term]) == normalized(m.map_values(sift(term))),
{
    let terms = seq![term];
    let left = m.map_values(leave_on(m, terms));
    let sifted = m.map_values(sift(term));
    assert forall|i: int| 0 <= i < m.len() implies #[trigger] left[i] == sifted[i] by {
        let shelf = m[i];
        let keep = unpicked(m, terms, shelf.entry);
        assert forall|k: int| 0 <= k < shelf.items.len() implies keep(#[trigger] shelf.items[k])
            == unlike(term)(shelf.items[k]) by {
            let item = shelf.items[k];
            if !unlike(term)(item) {
                assert(picks(m, terms[0], shelf.entry, item));
            }
        }
        lemma_filter_agree(shelf.items, keep, unlike(term));
    }
    assert(left =~= sifted);
}

/// Whatever is removed, no shelf is left empty, and the shelves that are
/// left lie under keys that had a shelf before.
pub proof fn lemma_removed_stocked(m: Seq<Shelf>, terms: Seq<Seq<char>>)
    ensures
        forall|k: int|
            0 <= k < removed(m, terms).len() ==> (#[trigger] removed(m, terms)[k]).items.len() > 0
                && shelf_position(m, removed(m, terms)[k].entry) is Some,
{
    let left = m.map_values(leave_on(m, terms));
    let after = removed(m, terms);
    assert forall|k: int| 0 <= k < after.len() implies (#[trigger] after[k]).items.len() > 0
        && shelf_position(m, after[k].entry) is Some by {
        left.lemma_filter_contains_rev(stocked(), after[k]);
        lemma_first_where(m, under(after[k].entry), 0);
    }
}

/// A cached revision.
#[derive(Debug, PartialEq)]
pub struct Item {
    /// The selector that was asked for: a ref name or a commit hash.
    pub name: String,
    /// The hash it was resolved to, short or full. The archive is kept under it.
    pub hash: String,
    /// When it was written, in milliseconds since the Unix epoch.
    pub timestamp: i64,
}

impl View for Item {
    type V = Revision;

    open spec fn view(&self) -> Revision {
        Revision { name: self.name@, hash: self.hash@, timestamp: self.timestamp }
    }
}

impl Clone for Item {
    fn clone(&self) -> (item: Item)
        ensures
            item@ == self@,
    {
        Item { name: self.name.clone(), hash: self.hash.clone(), timestamp: self.timestamp }
    }
}

/// Items as mathematics.
pub open spec fn revisions(items: Seq<Item>) -> Seq<Revision> {
    Seq::new(items.len(), |i: int| items[i]@)
}

/// A copy of `items`.
pub fn clone_items(items: &Vec<Item>) -> (copy: Vec<Item>)
    ensures
        revisions(copy@) == revisions(items@),
{
    let mut copy: Vec<Item> = Vec::new();
    let mut i: usize = 0;
    while i < items.len()
        invariant
            i <= items.len(),
            copy@.len() == i,
            forall|j: int| 0 <= j < i ==> (#[trigger] copy@[j])@ == items@[j]@,
        decreases items.len() - i,
    {
        copy.push(items[i].clone());
        i += 1;
    }
    copy
}

/// The revisions cached for one repository, under its key.
#[derive(Debug, PartialEq)]
pub struct Bucket {
    /// The key: the identity of the repository in base 32.
    pub entry: String,
    pub items: Vec<Item>,
}

impl View for Bucket {
    type V = Shelf;

    open spec fn view(&self) -> Shelf {
        Shelf { entry: self.entry@, items: revisions(self.items@) }
    }
}

impl Clone for Bucket {
    fn clone(&self) -> (bucket: Bucket)
        ensures
            bucket@ == self@,
    {
        Bucket { entry: self.entry.clone(), items: clone_items(&self.items) }
    }
}

/// Buckets as mathematics.
pub open spec fn shelves(buckets: Seq<Bucket>) -> Seq<Shelf> {
    Seq::new(buckets.len(), |i: int| buckets[i]@)
}

/// The manifest of the cache. It stands for a map from key to revisions and
/// keeps the shelves in the order in which their keys came in.
#[derive(Debug, PartialEq)]
pub struct Manifest {
    templates: Vec<Bucket>,
}

impl View for Manifest {
    type V = Seq<Shelf>;

    closed spec fn view(&self) -> Seq<Shelf> {
        shelves(self.templates@)
    }
}

impl Default for Manifest {
    /// The empty manifest.
    fn default() -> (manifest: Manifest)
        ensures
            manifest@ == Seq::<Shelf>::empty(),
    {
        let manifest = Manifest { templates: Vec::new() };
        manifest
    }
}

impl Manifest {
    #[verifier::type_invariant]
    /// No key has two shelves.
    spec fn well_formed(self) -> bool {
        entries_distinct(self@)
    }

    /// The shelves, first to last. No key has two of them.
    pub fn buckets(&self) -> (buckets: &Vec<Bucket>)
        ensures
            shelves(buckets@) == self@,
            entries_distinct(self@),
    {
        proof {
            use_type_invariant(self);
        }
        &self.templates
    }

    /// Where the shelf under `entry` stands.
    fn position(&self, entry: &str) -> (found: Option<usize>)
        ensures
            match found {
                Some(i) => shelf_position(self@, entry@) == Some(i as int) && i
                    < self.templates@.len(),
                None => shelf_position(self@, entry@) is None,
            },
    {
        let wanted = String::from_str(entry);
        let mut i: usize = 0;
        while i < self.templates.len()
            invariant
                wanted@ == entry@,
                self@.len() == self.templates@.len(),
                first_where(self@, under(entry@), 0) == first_where(self@, under(entry@), i as int),
            decreases self.templates.len() - i,
        {
            if self.templates[i].entry == wanted {
                return Some(i);
            }
            i += 1;
        }
        None
    }

    /// Puts `items` under `entry`, in place of what was there.
    pub fn insert(&mut self, entry: String, items: Vec<Item>)
        ensures
            final(self)@ == placed(old(self)@, entry@, revisions(items@)),
    {
        proof {
            use_type_invariant(&*self);
            lemma_placed_distinct(self@, entry@, revisions(items@));
        }
        let found = self.position(entry.as_str());
        let mut templates: Vec<Bucket> = Vec::new();
        std::mem::swap(&mut self.templates, &mut templates);
        match found {
            Some(i) => {
                templates.set(i, Bucket { entry, items });
            },
            None => {
                templates.push(Bucket { entry, items });
            },
        }
        assert(shelves(templates@) =~= placed(old(self)@, entry@, revisions(items@)));
        self.templates = templates;
    }

    /// The revisions under `entry`.
    pub fn get(&self, entry: &str) -> (items: Option<&Vec<Item>>)
        ensures
            match shelf_position(self@, entry@) {
                Some(i) => items matches Some(found) && revisions(found@) == self@[i].items,
                None => items is None,
            },
    {
        match self.position(entry) {
            Some(i) => {
                Some(&self.templates[i].items)
            },
            None => None,
        }
    }

    /// Writes `item` under `entry`, as `recorded` says: nothing changes
    /// where a revision under that key matches its hash already.
    pub fn record(&mut self, entry: String, item: Item)
        ensures
            final(self)@ == recorded(old(self)@, entry@, item@),
    {
        let found = self.position(entry.as_str());
        match found {
            Some(i) => {
                if first_matching(&self.templates[i].items, item.hash.as_str()).is_none() {
                    let mut items = clone_items(&self.templates[i].items);
                    let ghost before = revisions(items@);
                    items.push(item);
                    assert(revisions(items@) =~= before.push(item@));
                    self.insert(entry, items);
                }
            },
            None => {
                let mut items: Vec<Item> = Vec::new();
                items.push(item);
                assert(revisions(items@) =~= seq![item@]);
                self.insert(entry, items);
            },
        }
    }

    /// The first revision under `entry` whose hash matches `hash`.
    pub fn find(&self, entry: &str, hash: &str) -> (item: Option<&Item>)
        ensures
            match found(self@, entry@, hash@) {
                Some(revision) => item matches Some(i) && i@ == revision,
                None => item is None,
            },
    {
        match self.position(entry) {
            Some(i) => {
                match first_matching(&self.templates[i].items, hash) {
                    Some(k) => Some(&self.templates[i].items[k]),
                    None => None,
                }
            },
            None => None,
        }
    }

    /// Drops the shelves that hold no revision.
    pub fn normalize(&mut self)
        ensures
            final(self)@ == normalized(old(self)@),
    {
        proof {
            use_type_invariant(&*self);
            lemma_filter_distinct(self@, stocked());
        }
        let mut kept: Vec<Bucket> = Vec::new();
        let mut i: usize = 0;
        while i < self.templates.len()
            invariant
                i <= self.templates.len(),
                self@ == old(self)@,
                self@.len() == self.templates@.len(),
                shelves(kept@) == self@.take(i as int).filter(stocked()),
            decreases self.templates.len() - i,
        {
            proof {
                reveal(Seq::filter);
                assert(self@.take(i + 1).drop_last() =~= self@.take(i as int));
            }
            if self.templates[i].items.len() > 0 {
                kept.push(self.templates[i].clone());
            }
            i += 1;
        }
        assert(self@.take(i as int) =~= self@);
        self.templates = kept;
    }

    /// Drops every shelf.
    pub fn clear_entries(&mut self)
        ensures
            final(self)@ == Seq::<Shelf>::empty(),
    {
        self.templates = Vec::new();
    }
}

/// For each term the key it stands for, where that key has a shelf.
pub open spec fn keys_known(m: Seq<Shelf>, search: Seq<String>, keys: Seq<Option<String>>) -> bool {
    &&& keys.len() == search.len()
    &&& forall|k: int|
        0 <= k < search.len() ==> match #[trigger] keys[k] {
            Some(key) => shelf_position(m, entry_of(search[k]@)) is Some && key@ == entry_of(
                search[k]@,
            ),
            None => shelf_position(m, entry_of(search[k]@)) is None,
        }
}

/// Whether one of the terms picks `item`, which lies under `entry`.
fn is_picked(
    search: &Vec<String>,
    keys: &Vec<Option<String>>,
    entry: &String,
    item: &Item,
    Ghost(m): Ghost<Seq<Shelf>>,
) -> (yes: bool)
    requires
        keys_known(m, search@, keys@),
    ensures
        yes == picked(m, texts(search@), entry@)(item@),
{
    let ghost terms = texts(search@);
    let mut k: usize = 0;
    while k < search.len()
        invariant
            k <= search.len(),
            terms == texts(search@),
            keys_known(m, search@, keys@),
            forall|j: int| 0 <= j < k ==> !picks(m, #[trigger] terms[j], entry@, item@),
        decreases search.len() - k,
    {
        let hit = match &keys[k] {
            Some(key) => *entry == *key,
            None => item.name == search[k] || compare_hashes(
                item.hash.as_str(),
                search[k].as_str(),
            ),
        };
        if hit {
            assert(picks(m, terms[k as int], entry@, item@));
            return true;
        }
        k += 1;
    }
    false
}

/// Whether a selection holds `item` under `entry`.
fn is_chosen(selected: &Vec<Bucket>, entry: &String, item: &Item) -> (yes: bool)
    ensures
        yes == chosen(shelves(selected@), entry@)(item@),
{
    let ghost all = shelves(selected@);
    let mut k: usize = 0;
    while k < selected.len()
        invariant
            k <= selected.len(),
            all == shelves(selected@),
            forall|j: int|
                0 <= j < k ==> !((#[trigger] all[j]).entry == entry@ && all[j].items.contains(
                    item@,
                )),
        decreases selected.len() - k,
    {
        if selected[k].entry == *entry {
            let items = &selected[k].items;
            let ghost held = revisions(items@);
            let mut i: usize = 0;
            while i < items.len()
                invariant
                    i <= items.len(),
                    k < selected.len(),
                    all == shelves(selected@),
                    all[k as int].entry == entry@,
                    held == revisions(items@),
                    held == all[k as int].items,
                    forall|j: int| 0 <= j < i ==> #[trigger] held[j] != item@,
                decreases items.len() - i,
            {
                if items[i].name == item.name && items[i].hash == item.hash && items[i].timestamp
                    == item.timestamp {
                    assert(held[i as int] == item@);
                    return true;
                }
                i += 1;
            }
        }
        k += 1;
    }
    false
}

impl Manifest {
    /// For each term the key it stands for, where that key has a shelf.
    fn shelf_keys(&self, search: &Vec<String>) -> (keys: Vec<Option<String>>)
        ensures
            keys_known(self@, search@, keys@),
    {
        let mut keys: Vec<Option<String>> = Vec::new();
        let mut k: usize = 0;
        while k < search.len()
            invariant
                k <= search.len(),
                keys_known(self@, search@.take(k as int), keys@),
            decreases search.len() - k,
        {
            let key = encode_entry(search[k].as_str());
            if self.position(key.as_str()).is_some() {
                keys.push(Some(key));
            } else {
                keys.push(None);
            }
            k += 1;
        }
        keys
    }

    /// What the terms pick, as `selection` says: of each shelf the picked
    /// revisions, and no shelf of which they pick nothing.
    pub fn select_entries(&self, search: &Vec<String>) -> (selected: Vec<Bucket>)
        ensures
            shelves(selected@) == selection(self@, texts(search@)),
            entries_distinct(self@),
    {
        proof {
            use_type_invariant(self);
        }
        let keys = self.shelf_keys(search);
        let ghost m = self@;
        let ghost terms = texts(search@);
        let ghost cut = m.map_values(pick_from(m, terms));
        let mut selected: Vec<Bucket> = Vec::new();
        let mut b: usize = 0;
        while b < self.templates.len()
            invariant
                b <= self.templates.len(),
                m == self@,
                m.len() == self.templates@.len(),
                terms == texts(search@),
                cut == m.map_values(pick_from(m, terms)),
                keys_known(m, search@, keys@),
                shelves(selected@) == cut.take(b as int).filter(stocked()),
            decreases self.templates.len() - b,
        {
            let bucket = &self.templates[b];
            let ghost all = revisions(bucket.items@);
            let ghost wanted = picked(m, terms, bucket.entry@);
            let mut items: Vec<Item> = Vec::new();
            let mut i: usize = 0;
            while i < bucket.items.len()
                invariant
                    i <= bucket.items.len(),
                    all == revisions(bucket.items@),
                    wanted == picked(m, terms, bucket.entry@),
                    terms == texts(search@),
                    keys_known(m, search@, keys@),
                    revisions(items@) == all.take(i as int).filter(wanted),
                decreases bucket.items.len() - i,
            {
                proof {
                    lemma_filter_step(all, wanted, i as int);
                }
                if is_picked(search, &keys, &bucket.entry, &bucket.items[i], Ghost(m)) {
                    items.push(bucket.items[i].clone());
                }
                i += 1;
            }
            proof {
                assert(all.take(i as int) =~= all);
                lemma_filter_step(cut, stocked(), b as int);
            }
            if items.len() > 0 {
                selected.push(Bucket { entry: bucket.entry.clone(), items });
            }
            b += 1;
        }
        assert(cut.take(b as int) =~= cut);
        selected
    }

    /// Removes the revisions that `selected` holds, each from under its
    /// key. The shelves stay.
    pub fn remove_entries(&mut self, selected: &Vec<Bucket>)
        ensures
            final(self)@ == without(old(self)@, shelves(selected@)),
    {
        let ghost m = self@;
        let ghost chosen_ones = shelves(selected@);
        let ghost cut = without(m, chosen_ones);
        let mut kept: Vec<Bucket> = Vec::new();
        let mut b: usize = 0;
        while b < self.templates.len()
            invariant
                b <= self.templates.len(),
                m == self@,
                self@ == old(self)@,
                m.len() == self.templates@.len(),
                chosen_ones == shelves(selected@),
                cut == without(m, chosen_ones),
                kept@.len() == b,
                forall|j: int| 0 <= j < b ==> (#[trigger] kept@[j])@ == cut[j],
            decreases self.templates.len() - b,
        {
            let bucket = &self.templates[b];
            let ghost all = revisions(bucket.items@);
            let ghost wanted = spared(chosen_ones, bucket.entry@);
            let mut items: Vec<Item> = Vec::new();
            let mut i: usize = 0;
            while i < bucket.items.len()
                invariant
                    i <= bucket.items.len(),
                    all == revisions(bucket.items@),
                    wanted == spared(chosen_ones, bucket.entry@),
                    chosen_ones == shelves(selected@),
                    revisions(items@) == all.take(i as int).filter(wanted),
                decreases bucket.items.len() - i,
            {
                proof {
                    lemma_filter_step(all, wanted, i as int);
                }
                if !is_chosen(selected, &bucket.entry, &bucket.items[i]) {
                    items.push(bucket.items[i].clone());
                }
                i += 1;
            }
            assert(all.take(i as int) =~= all);
            kept.push(Bucket { entry: bucket.entry.clone(), items });
            b += 1;
        }
        proof {
            use_type_invariant(&*self);
        }
        self.templates = kept;
    }
}

/// Whether two hashes stand for the same revision.
pub fn compare_hashes(left: &str, right: &str) -> (same: bool)
    ensures
        same == hashes_match(left@, right@),
{
    let left = chars_of(left);
    let right = chars_of(right);
    has_prefix(&right, &left) || has_prefix(&left, &right)
}

/// The index of the first of `items` whose hash matches `hash`.
pub fn first_matching(items: &Vec<Item>, hash: &str) -> (index: Option<usize>)
    ensures
        match index {
            Some(i) => first_where(revisions(items@), matching(hash@), 0) == Some(i as int) && i
                < items.len(),
            None => first_where(revisions(items@), matching(hash@), 0) is None,
        },
{
    let ghost all = revisions(items@);
    let mut i: usize = 0;
    while i < items.len()
        invariant
            all == revisions(items@),
            first_where(all, matching(hash@), 0) == first_where(all, matching(hash@), i as int),
        decreases items.len() - i,
    {
        if compare_hashes(hash, items[i].hash.as_str()) {
            return Some(i);
        }
        i += 1;
    }
    None
}

} // verus!
