//! The cache of downloaded archives: what the manifest says is cached, where
//! each archive lies, and what to list and to remove.

use vstd::prelude::*;
use vstd::string::StringExecFns;

use crate::entry::{decode_entry, encode_entry, entry_of, identity_of, EntryFault};
use crate::grammar::{parse, Descriptor};
use crate::manifest::{
    compare_hashes, entries_distinct, found, hashes_match, lemma_normalized, lemma_recorded,
    lemma_removed_stocked, lemma_without_selection, matching, normalized, pick_from, recorded,
    removed, revisions, selection, shelf_position, shelves, stocked, under, Item, Manifest,
    Revision, Shelf,
};
use crate::order::{newest_first, sorted_newest_first};
use crate::repository::{RemoteRepository, RepositoryHost};
use crate::search::{first_where, lemma_filter_none, lemma_first_where};
use crate::text::{joined, text_view, texts};

verus! {

/// The date and time of a timestamp in milliseconds, as `dd/mm/yyyy hh:mm`
/// in UTC, where the timestamp is one that a date can be made of.
pub uninterp spec fn formatted_date(timestamp: i64) -> Option<Seq<char>>;

/// `DateTime::<Utc>::from` of chrono on `SystemTime::now()` of std, and
/// `timestamp_millis` of the date: the time of the call, of which nothing is
/// claimed. A clock that stands before 1970 gives a negative number.
#[verifier::external_body]
fn now_millis() -> i64 {
    chrono::DateTime::<chrono::Utc>::from(std::time::SystemTime::now()).timestamp_millis()
}

/// `DateTime::from_timestamp_millis` of chrono, and `format` with
/// `%d/%m/%Y %H:%M` of the date it returns. The result is named
/// [`formatted_date`].
#[verifier::external_body]
fn date_text(timestamp: i64) -> (text: Option<String>)
    ensures
        text_view(text) == formatted_date(timestamp),
{
    chrono::DateTime::from_timestamp_millis(timestamp).map(
        |date| date.format("%d/%m/%Y %H:%M").to_string(),
    )
}

/// What is wrong with a manifest, as mathematics.
pub enum CacheFault {
    MalformedEntry(Seq<char>),
    InvalidUtf8(Seq<char>),
    UnparsableEntry(Seq<char>),
}

/// What is wrong with a manifest. The cache repairs nothing: the way out is
/// to clear it.
#[derive(Debug, PartialEq)]
pub enum CacheError {
    /// The key is no base 32 text.
    MalformedEntry(String),
    /// The bytes under the key are no UTF-8 text.
    InvalidUtf8(String),
    /// The key stands for a text that is no repository identity.
    UnparsableEntry(String),
}

impl View for CacheError {
    type V = CacheFault;

    open spec fn view(&self) -> CacheFault {
        match *self {
            CacheError::MalformedEntry(key) => CacheFault::MalformedEntry(key@),
            CacheError::InvalidUtf8(key) => CacheFault::InvalidUtf8(key@),
            CacheError::UnparsableEntry(identity) => CacheFault::UnparsableEntry(identity@),
        }
    }
}

/// The message of a fault.
pub open spec fn fault_message(fault: CacheFault) -> Seq<char> {
    match fault {
        CacheFault::MalformedEntry(key) => "Couldn't decode entry: `"@ + key + "`."@,
        CacheFault::InvalidUtf8(key) =>
            "Couldn't decode entry due to invalid UTF-8 in the string: `"@ + key + "`."@,
        CacheFault::UnparsableEntry(identity) => "Couldn't parse entry: `"@ + identity + "`."@,
    }
}

impl CacheError {
    /// The message, which names the key or the identity.
    pub fn to_string(&self) -> (text: String)
        ensures
            text@ == fault_message(self@),
    {
        match self {
            CacheError::MalformedEntry(key) => {
                let head = joined("Couldn't decode entry: `", key.as_str());
                joined(head.as_str(), "`.")
            },
            CacheError::InvalidUtf8(key) => {
                let head = joined(
                    "Couldn't decode entry due to invalid UTF-8 in the string: `",
                    key.as_str(),
                );
                joined(head.as_str(), "`.")
            },
            CacheError::UnparsableEntry(identity) => {
                let head = joined("Couldn't parse entry: `", identity.as_str());
                joined(head.as_str(), "`.")
            },
        }
    }

    /// What to do about it.
    pub fn help(&self) -> (text: String)
        ensures
            text@ == "Manifest may be malformed, clear the cache and try again."@,
    {
        String::from_str("Manifest may be malformed, clear the cache and try again.")
    }
}

/// The repository that a manifest key stands for.
pub open spec fn owner_of(entry: Seq<char>) -> Result<Descriptor, CacheFault> {
    match identity_of(entry) {
        Ok(identity) => match parse(identity) {
            Ok(descriptor) => Ok(descriptor),
            Err(_) => Err(CacheFault::UnparsableEntry(identity)),
        },
        Err(EntryFault::NotBase32) => Err(CacheFault::MalformedEntry(entry)),
        Err(EntryFault::NotUtf8) => Err(CacheFault::InvalidUtf8(entry)),
    }
}

/// The shelves whose key stands for no repository.
pub open spec fn ownerless() -> spec_fn(Shelf) -> bool {
    |shelf: Shelf| owner_of(shelf.entry) is Err
}

/// Whether every key of the manifest stands for a repository.
pub open spec fn all_owned(m: Seq<Shelf>) -> bool {
    forall|i: int| 0 <= i < m.len() ==> owner_of((#[trigger] m[i]).entry) is Ok
}

/// A line of the listing, as mathematics.
pub struct Line {
    /// The date of the timestamp, where it gives one.
    pub date: Option<Seq<char>>,
    pub name: Seq<char>,
    pub hash: Seq<char>,
    pub timestamp: i64,
}

/// The line that shows a revision.
pub open spec fn line_of(item: Revision) -> Line {
    Line {
        date: formatted_date(item.timestamp),
        name: item.name,
        hash: item.hash,
        timestamp: item.timestamp,
    }
}

/// The revision that a line shows.
pub open spec fn revision_of(line: Line) -> Revision {
    Revision { name: line.name, hash: line.hash, timestamp: line.timestamp }
}

/// A revision as the listing shows it.
#[derive(Debug, PartialEq)]
pub struct ListedRevision {
    /// When it was written: `dd/mm/yyyy hh:mm`, in UTC. `None` where the
    /// timestamp is one that no date can be made of.
    pub date: Option<String>,
    pub name: String,
    pub hash: String,
    /// When it was written, in milliseconds since the Unix epoch.
    pub timestamp: i64,
}

impl View for ListedRevision {
    type V = Line;

    open spec fn view(&self) -> Line {
        Line {
            date: text_view(self.date),
            name: self.name@,
            hash: self.hash@,
            timestamp: self.timestamp,
        }
    }
}

/// Listed revisions as mathematics.
pub open spec fn lines(listed: Seq<ListedRevision>) -> Seq<Line> {
    Seq::new(listed.len(), |i: int| listed[i]@)
}

/// The revisions that lines show.
pub open spec fn shown(listed: Seq<ListedRevision>) -> Seq<Revision> {
    Seq::new(listed.len(), |i: int| revision_of(listed[i]@))
}

/// A repository of the cache with what is cached of it, newest first.
#[derive(Debug, PartialEq)]
pub struct Listed {
    pub host: RepositoryHost,
    pub user: String,
    pub repo: String,
    pub revisions: Vec<ListedRevision>,
}

/// A repository of the cache with what is to be removed of it, newest first.
#[derive(Debug, PartialEq)]
pub struct Removal {
    pub host: RepositoryHost,
    pub user: String,
    pub repo: String,
    pub items: Vec<Item>,
}

impl Removal {
    /// Whether this is what there is to say of `shelf`: the repository that
    /// its key stands for, and its revisions from the newest to the oldest.
    pub open spec fn describes(&self, shelf: Shelf) -> bool {
        &&& owner_of(shelf.entry) matches Ok(owner) && owner.host == self.host && owner.user
            == self.user@ && owner.repo == self.repo@
        &&& newest_first(shelf.items, revisions(self.items@))
    }
}

impl Listed {
    /// Whether this is how `shelf` is listed: under the repository that its
    /// key stands for, every one of its revisions, from the newest to the
    /// oldest, each with the date of its timestamp.
    pub open spec fn lists(&self, shelf: Shelf) -> bool {
        &&& owner_of(shelf.entry) matches Ok(owner) && owner.host == self.host && owner.user
            == self.user@ && owner.repo == self.repo@
        &&& self.revisions@.len() == shelf.items.len()
        &&& newest_first(shelf.items, shown(self.revisions@))
        &&& forall|i: int|
            0 <= i < self.revisions@.len() ==> (#[trigger] self.revisions@[i])@.date
                == formatted_date(self.revisions@[i].timestamp)
    }
}

/// Where the manifest lies under `root`.
pub open spec fn manifest_path(root: Seq<char>) -> Seq<char> {
    root + "/manifest.toml"@
}

/// Where the archives lie under `root`.
pub open spec fn tarballs_path(root: Seq<char>) -> Seq<char> {
    root + "/tarballs"@
}

/// Where the archive of `hash` lies under `root`.
pub open spec fn tarball_path(root: Seq<char>, hash: Seq<char>) -> Seq<char> {
    root + "/tarballs/"@ + hash + ".tar.gz"@
}

/// The manifest once a revision of `identity` is written, as it is then
/// kept: without empty shelves.
pub open spec fn written(
    m: Seq<Shelf>,
    identity: Seq<char>,
    name: Seq<char>,
    hash: Seq<char>,
    timestamp: i64,
) -> Seq<Shelf> {
    normalized(recorded(m, entry_of(identity), Revision { name, hash, timestamp }))
}

/// A revision that matches a hash matches every start of that hash.
pub proof fn lemma_matches_start(query: Seq<char>, hash: Seq<char>, other: Seq<char>)
    requires
        query.is_prefix_of(hash),
        hashes_match(hash, other),
    ensures
        hashes_match(query, other),
{
}

/// What writing leaves under the identity: the shelf that the revision went
/// to, or was found on.
proof fn lemma_written_shelf(
    m: Seq<Shelf>,
    identity: Seq<char>,
    name: Seq<char>,
    hash: Seq<char>,
    timestamp: i64,
)
    requires
        entries_distinct(m),
    ensures
        entries_distinct(written(m, identity, name, hash, timestamp)),
        ({
            let item = Revision { name, hash, timestamp };
            let entry = entry_of(identity);
            let before = recorded(m, entry, item);
            let after = written(m, identity, name, hash, timestamp);
            shelf_position(before, entry) matches Some(i) && shelf_position(after, entry) matches Some(
                k,
            ) && after[k] == before[i]
        }),
{
    let item = Revision { name, hash, timestamp };
    let entry = entry_of(identity);
    let before = recorded(m, entry, item);
    lemma_recorded(m, entry, item);
    lemma_normalized(before);
    lemma_first_where(before, under(entry), 0);
}

/// Writing the same revision of a repository again, under any name and at
/// any time, changes nothing in the manifest.
pub proof fn lemma_write_again(
    m: Seq<Shelf>,
    identity: Seq<char>,
    name: Seq<char>,
    hash: Seq<char>,
    timestamp: i64,
    again_name: Seq<char>,
    again_at: i64,
)
    requires
        entries_distinct(m),
    ensures
        written(
            written(m, identity, name, hash, timestamp),
            identity,
            again_name,
            hash,
            again_at,
        ) == written(m, identity, name, hash, timestamp),
{
    let item = Revision { name, hash, timestamp };
    let entry = entry_of(identity);
    let before = recorded(m, entry, item);
    lemma_recorded(m, entry, item);
    lemma_written_shelf(m, identity, name, hash, timestamp);
    lemma_normalized(before);
}

/// After a revision is written whose hash matched nothing under its
/// repository, the manifest holds exactly one revision of that repository
/// that matches the hash: the one written.
pub proof fn lemma_written_once(
    m: Seq<Shelf>,
    identity: Seq<char>,
    name: Seq<char>,
    hash: Seq<char>,
    timestamp: i64,
)
    requires
        entries_distinct(m),
        found(m, entry_of(identity), hash) is None,
    ensures
        ({
            let after = written(m, identity, name, hash, timestamp);
            shelf_position(after, entry_of(identity)) matches Some(k) && after[k].items.filter(
                matching(hash),
            ) == seq![Revision { name, hash, timestamp }]
        }),
{
    let item = Revision { name, hash, timestamp };
    let entry = entry_of(identity);
    let before = recorded(m, entry, item);
    lemma_written_shelf(m, identity, name, hash, timestamp);
    lemma_first_where(m, under(entry), 0);
    reveal(Seq::filter);
    match shelf_position(m, entry) {
        Some(at) => {
            let items = m[at].items;
            lemma_first_where(items, matching(hash), 0);
            lemma_filter_none(items, matching(hash));
            lemma_first_where(before, under(entry), 0);
            assert(items.push(item).drop_last() =~= items);
        },
        None => {
            lemma_first_where(before, under(entry), 0);
        },
    }
}

/// After a revision is written, every start of its hash finds a revision of
/// its repository whose hash it matches; and it finds the revision written
/// where it matched nothing under that repository before.
pub proof fn lemma_read_written(
    m: Seq<Shelf>,
    identity: Seq<char>,
    name: Seq<char>,
    hash: Seq<char>,
    timestamp: i64,
    query: Seq<char>,
)
    requires
        entries_distinct(m),
        query.is_prefix_of(hash),
    ensures
        ({
            let after = written(m, identity, name, hash, timestamp);
            let entry = entry_of(identity);
            &&& found(after, entry, query) matches Some(item) && hashes_match(query, item.hash)
            &&& found(m, entry, query) is None ==> found(after, entry, query) == Some(
                Revision { name, hash, timestamp },
            )
        }),
{
    let item = Revision { name, hash, timestamp };
    let entry = entry_of(identity);
    let before = recorded(m, entry, item);
    lemma_recorded(m, entry, item);
    lemma_written_shelf(m, identity, name, hash, timestamp);
    lemma_first_where(m, under(entry), 0);
    lemma_first_where(before, under(entry), 0);
    let i = shelf_position(before, entry).unwrap();
    let items = before[i].items;
    lemma_first_where(items, matching(hash), 0);
    lemma_first_where(items, matching(query), 0);
    if let Some(old) = shelf_position(m, entry) {
        lemma_first_where(m[old].items, matching(query), 0);
    }
}

/// Writing under a key that stands for a repository leaves every key
/// standing for one, where every key did before.
pub proof fn lemma_written_owned(m: Seq<Shelf>, entry: Seq<char>, item: Revision)
    ensures
        all_owned(m) && owner_of(entry) is Ok ==> all_owned(normalized(recorded(m, entry, item))),
{
    let before = recorded(m, entry, item);
    let after = normalized(before);
    if all_owned(m) && owner_of(entry) is Ok {
        lemma_first_where(m, under(entry), 0);
        assert forall|k: int| 0 <= k < after.len() implies owner_of((#[trigger] after[k]).entry)
            is Ok by {
            assert(after.contains(after[k]));
            before.lemma_filter_contains_rev(stocked(), after[k]);
            let i = choose|i: int| 0 <= i < before.len() && before[i] == after[k];
            if i < m.len() {
                assert(before[i].entry == m[i].entry);
            }
        }
    }
}

/// Removing leaves every key standing for a repository, where every key did
/// before, and picks only shelves whose key does.
pub proof fn lemma_removed_owned(m: Seq<Shelf>, terms: Seq<Seq<char>>)
    requires
        all_owned(m),
    ensures
        all_owned(removed(m, terms)),
        all_owned(selection(m, terms)),
{
    lemma_removed_stocked(m, terms);
    let after = removed(m, terms);
    assert forall|k: int| 0 <= k < after.len() implies owner_of((#[trigger] after[k]).entry)
        is Ok by {
        lemma_first_where(m, under(after[k].entry), 0);
    }
    let cut = m.map_values(pick_from(m, terms));
    let picked = selection(m, terms);
    assert forall|k: int| 0 <= k < picked.len() implies owner_of((#[trigger] picked[k]).entry)
        is Ok by {
        assert(picked.contains(picked[k]));
        cut.lemma_filter_contains_rev(stocked(), picked[k]);
        let i = choose|i: int| 0 <= i < cut.len() && cut[i] == picked[k];
        assert(cut[i].entry == m[i].entry);
    }
}

/// The cache: the directory it lies in, and its manifest.
#[derive(Debug, PartialEq)]
pub struct Cache {
    /// The directory of the cache.
    pub root: String,
    pub manifest: Manifest,
}

/// The repository that a manifest key stands for, and `items` from the
/// newest to the oldest.
pub fn describe(entry: &str, items: &Vec<Item>) -> (result: Result<Removal, CacheError>)
    ensures
        match owner_of(entry@) {
            Ok(_) => result matches Ok(group) && group.describes(
                Shelf { entry: entry@, items: revisions(items@) },
            ),
            Err(fault) => result matches Err(e) && e@ == fault,
        },
{
    let identity = match decode_entry(entry) {
        Ok(identity) => identity,
        Err(EntryFault::NotBase32) => {
            return Err(CacheError::MalformedEntry(String::from_str(entry)));
        },
        Err(EntryFault::NotUtf8) => {
            return Err(CacheError::InvalidUtf8(String::from_str(entry)));
        },
    };
    let repository = match Cache::parse_repository(identity.as_str()) {
        Ok(repository) => repository,
        Err(e) => {
            return Err(e);
        },
    };
    let RemoteRepository { host, user, repo, meta: _, refs: _ } = repository;
    Ok(Removal { host, user, repo, items: sorted_newest_first(items) })
}

/// The lines that show `items`: one for each, in their order.
pub fn listed_lines(items: &Vec<Item>) -> (listed: Vec<ListedRevision>)
    ensures
        listed@.len() == items@.len(),
        forall|i: int| 0 <= i < items@.len() ==> (#[trigger] listed@[i])@ == line_of(items@[i]@),
{
    let mut listed: Vec<ListedRevision> = Vec::new();
    let mut i: usize = 0;
    while i < items.len()
        invariant
            i <= items.len(),
            listed@.len() == i,
            forall|j: int| 0 <= j < i ==> (#[trigger] listed@[j])@ == line_of(items@[j]@),
        decreases items.len() - i,
    {
        listed.push(
            ListedRevision {
                date: date_text(items[i].timestamp),
                name: items[i].name.clone(),
                hash: items[i].hash.clone(),
                timestamp: items[i].timestamp,
            },
        );
        i += 1;
    }
    listed
}

impl Cache {
    /// The cache that lies in `root` and has `manifest`.
    pub fn init(root: String, manifest: Manifest) -> (cache: Cache)
        ensures
            cache.root == root,
            cache.manifest == manifest,
    {
        Cache { root, manifest }
    }

    /// Where the manifest lies.
    pub fn manifest_file(&self) -> (path: String)
        ensures
            path@ == manifest_path(self.root@),
    {
        joined(self.root.as_str(), "/manifest.toml")
    }

    /// Where the archives lie.
    pub fn tarballs_dir(&self) -> (path: String)
        ensures
            path@ == tarballs_path(self.root@),
    {
        joined(self.root.as_str(), "/tarballs")
    }

    /// Where the archive of `hash` lies.
    pub fn tarball(&self, hash: &str) -> (path: String)
        ensures
            path@ == tarball_path(self.root@, hash@),
    {
        let mut path = joined(self.root.as_str(), "/tarballs/");
        path.append(hash);
        path.append(".tar.gz");
        path
    }

    /// The repository that the identity `input` names, or the fault that a
    /// key has which stands for `input`.
    pub fn parse_repository(input: &str) -> (result: Result<RemoteRepository, CacheError>)
        ensures
            match parse(input@) {
                Ok(d) => result matches Ok(r) && r.descriptor() == d && r.refs@.len() == 0,
                Err(_) => result matches Err(CacheError::UnparsableEntry(identity)) && identity@
                    == input@,
            },
    {
        match RemoteRepository::from_str(input) {
            Ok(repository) => Ok(repository),
            Err(_) => Err(CacheError::UnparsableEntry(String::from_str(input))),
        }
    }

    /// Whether two hashes stand for the same revision: the shorter is the
    /// start of the longer.
    pub fn compare_hashes(left: &str, right: &str) -> (same: bool)
        ensures
            same == hashes_match(left@, right@),
    {
        compare_hashes(left, right)
    }

    /// Enters into the manifest that the revision `name` of `source`, which
    /// resolved to `hash`, was written at `timestamp`. Nothing is entered
    /// where the manifest holds a revision of `source` with a matching hash.
    /// Returns where the archive is to lie, entered or not. The key of
    /// `source` stands for `source` again; so where `source` names a
    /// repository and every key of the manifest stood for one, every key
    /// still does, and the cache can be listed.
    pub fn write_at(&mut self, source: &str, name: &str, hash: &str, timestamp: i64) -> (tarball:
        String)
        ensures
            final(self).manifest@ == written(
                old(self).manifest@,
                source@,
                name@,
                hash@,
                timestamp,
            ),
            final(self).root == old(self).root,
            tarball@ == tarball_path(old(self).root@, hash@),
            identity_of(entry_of(source@)) == Ok::<Seq<char>, EntryFault>(source@),
            all_owned(old(self).manifest@) && parse(source@) is Ok ==> all_owned(
                final(self).manifest@,
            ),
    {
        let entry = encode_entry(source);
        let item = Item { name: String::from_str(name), hash: String::from_str(hash), timestamp };
        proof {
            lemma_written_owned(self.manifest@, entry@, item@);
        }
        self.manifest.record(entry, item);
        self.manifest.normalize();
        self.tarball(hash)
    }

    /// [`Cache::write_at`] at the time of the call.
    pub fn write(&mut self, source: &str, name: &str, hash: &str) -> (tarball: String)
        ensures
            exists|timestamp: i64|
                final(self).manifest@ == #[trigger] written(
                    old(self).manifest@,
                    source@,
                    name@,
                    hash@,
                    timestamp,
                ),
            final(self).root == old(self).root,
            tarball@ == tarball_path(old(self).root@, hash@),
            identity_of(entry_of(source@)) == Ok::<Seq<char>, EntryFault>(source@),
            all_owned(old(self).manifest@) && parse(source@) is Ok ==> all_owned(
                final(self).manifest@,
            ),
    {
        let timestamp = now_millis();
        self.write_at(source, name, hash, timestamp)
    }

    /// Where the archive of the revision of `source` lies whose hash matches
    /// `hash`: that of the first such revision in the manifest, and `None`
    /// where the manifest holds none.
    pub fn read(&self, source: &str, hash: &str) -> (tarball: Option<String>)
        ensures
            match found(self.manifest@, entry_of(source@), hash@) {
                Some(item) => tarball matches Some(path) && path@ == tarball_path(
                    self.root@,
                    item.hash,
                ),
                None => tarball is None,
            },
    {
        let entry = encode_entry(source);
        match self.manifest.find(entry.as_str(), hash) {
            Some(item) => Some(self.tarball(item.hash.as_str())),
            None => None,
        }
    }

    /// The listing: each shelf of the manifest, in its place, under the
    /// repository that its key stands for, with every one of its revisions.
    /// The first key that stands for no repository is reported instead; where
    /// every key stands for one, there is a listing.
    pub fn list(&self) -> (result: Result<Vec<Listed>, CacheError>)
        ensures
            all_owned(self.manifest@) ==> result is Ok,
            match first_where(self.manifest@, ownerless(), 0) {
                Some(bad) => result matches Err(e) && Err::<Descriptor, CacheFault>(e@) == owner_of(
                    self.manifest@[bad].entry,
                ),
                None => result matches Ok(listing) && listing@.len() == self.manifest@.len()
                    && forall|i: int|
                    0 <= i < listing@.len() ==> (#[trigger] listing@[i]).lists(self.manifest@[i]),
            },
    {
        let buckets = self.manifest.buckets();
        let ghost m = self.manifest@;
        let mut listing: Vec<Listed> = Vec::new();
        let mut i: usize = 0;
        while i < buckets.len()
            invariant
                i <= buckets.len(),
                m == shelves(buckets@),
                m == self.manifest@,
                listing@.len() == i,
                first_where(m, ownerless(), 0) == first_where(m, ownerless(), i as int),
                forall|j: int| 0 <= j < i ==> (#[trigger] listing@[j]).lists(m[j]),
            decreases buckets.len() - i,
        {
            let group = match describe(buckets[i].entry.as_str(), &buckets[i].items) {
                Ok(group) => group,
                Err(e) => {
                    return Err(e);
                },
            };
            let Removal { host, user, repo, items } = group;
            let listed = Listed { host, user, repo, revisions: listed_lines(&items) };
            assert(shown(listed.revisions@) =~= revisions(items@));
            listing.push(listed);
            i += 1;
        }
        proof {
            lemma_first_where(m, ownerless(), 0);
        }
        Ok(listing)
    }

    /// Removes from the manifest what the search terms pick, and every shelf
    /// that is left empty. A term that is the identity of a repository with
    /// a shelf picks that whole shelf; any other term picks, on every shelf,
    /// the revisions it names and those whose hash it matches. Returns what
    /// was picked, shelf by shelf, so that the archives can go too. Where a
    /// key of a picked shelf stands for no repository, the first such key is
    /// reported and nothing is removed.
    pub fn remove(&mut self, needles: &Vec<String>) -> (result: Result<Vec<Removal>, CacheError>)
        ensures
            final(self).root == old(self).root,
            all_owned(old(self).manifest@) ==> result is Ok && all_owned(final(self).manifest@),
            match first_where(selection(old(self).manifest@, texts(needles@)), ownerless(), 0) {
                Some(bad) => result matches Err(e) && Err::<Descriptor, CacheFault>(e@) == owner_of(
                    selection(old(self).manifest@, texts(needles@))[bad].entry,
                ) && final(self).manifest@ == old(self).manifest@,
                None => result matches Ok(removals) && final(self).manifest@ == removed(
                    old(self).manifest@,
                    texts(needles@),
                ) && removals@.len() == selection(old(self).manifest@, texts(needles@)).len()
                    && forall|i: int|
                    0 <= i < removals@.len() ==> (#[trigger] removals@[i]).describes(
                        selection(old(self).manifest@, texts(needles@))[i],
                    ),
            },
    {
        let ghost m = self.manifest@;
        let ghost picked = selection(m, texts(needles@));
        let selected = self.manifest.select_entries(needles);
        proof {
            if all_owned(m) {
                lemma_removed_owned(m, texts(needles@));
                lemma_first_where(picked, ownerless(), 0);
            }
        }
        let mut removals: Vec<Removal> = Vec::new();
        let mut i: usize = 0;
        while i < selected.len()
            invariant
                i <= selected.len(),
                all_owned(m) ==> first_where(picked, ownerless(), 0) is None && all_owned(
                    removed(m, texts(needles@)),
                ),
                picked == shelves(selected@),
                picked == selection(old(self).manifest@, texts(needles@)),
                m == self.manifest@,
                self.manifest@ == old(self).manifest@,
                self.root == old(self).root,
                removals@.len() == i,
                first_where(picked, ownerless(), 0) == first_where(picked, ownerless(), i as int),
                forall|j: int| 0 <= j < i ==> (#[trigger] removals@[j]).describes(picked[j]),
            decreases selected.len() - i,
        {
            match describe(selected[i].entry.as_str(), &selected[i].items) {
                Ok(group) => {
                    removals.push(group);
                },
                Err(e) => {
                    return Err(e);
                },
            }
            i += 1;
        }
        proof {
            lemma_without_selection(m, texts(needles@));
        }
        self.manifest.remove_entries(&selected);
        self.manifest.normalize();
        Ok(removals)
    }

    /// Empties the manifest.
    pub fn remove_all(&mut self)
        ensures
            final(self).manifest@ == Seq::<Shelf>::empty(),
            final(self).root == old(self).root,
    {
        self.manifest.clear_entries();
        self.manifest.normalize();
    }
}

} // verus!
