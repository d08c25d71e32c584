use decaff::cache::{describe, Cache, CacheError, Listed, ListedRevision, Removal};
use decaff::entry::{decode_entry, encode_entry, EntryFault};
use decaff::manifest::{compare_hashes, Bucket, Item, Manifest};
use decaff::repository::RepositoryHost;

const FOO_BAR: &str = "M5UXI2DVMI5GM33PF5RGC4Q";
const FOO_BAZ: &str = "M5UXI3DBMI5GM33PF5RGC6Q";
const FULL: &str = "4a5a56fd1e6b5f1c0c0a0d6a3b1c9f803a1c2d3e";
const OTHER: &str = "9fceb02d0ae598e95dc970b74767f19372d61af8";

fn item(name: &str, hash: &str, timestamp: i64) -> Item {
    Item { name: name.to_string(), hash: hash.to_string(), timestamp }
}

fn listed(date: &str, name: &str, hash: &str, timestamp: i64) -> ListedRevision {
    ListedRevision {
        date: Some(date.to_string()),
        name: name.to_string(),
        hash: hash.to_string(),
        timestamp,
    }
}

fn cache() -> Cache {
    Cache::init("/home/user/.cache/decaff".to_string(), Manifest::default())
}

fn stocked() -> Cache {
    let mut cache = cache();
    cache.write_at("github:foo/bar", "main", FULL, 3_000);
    cache.write_at("github:foo/bar", "dev", OTHER, 5_000);
    cache.write_at("gitlab:foo/baz", "main", "1234567", 4_000);
    cache.write_at("gitlab:foo/baz", "v1", "abcdef0", 1_000);
    cache
}

fn terms(list: &[&str]) -> Vec<String> {
    list.iter().map(|term| term.to_string()).collect()
}

#[test]
fn hashes_match_where_one_starts_the_other() {
    assert!(compare_hashes("4a5a56fd", FULL));
    assert!(compare_hashes(FULL, "4a5a56fd"));
    assert!(compare_hashes(FULL, FULL));
    assert!(Cache::compare_hashes("4a5a", "4a5a56fd"));
}

#[test]
fn hashes_of_one_length_match_only_when_equal() {
    assert!(!compare_hashes("4a5a56fd", "4a5a56fe"));
    assert!(!compare_hashes(FULL, OTHER));
    assert!(compare_hashes("4a5a56fd", "4a5a56fd"));
}

#[test]
fn hashes_with_unrelated_content_do_not_match() {
    assert!(!compare_hashes("beef", FULL));
    assert!(!compare_hashes(FULL, "beef"));
    assert!(!Cache::compare_hashes("4a5b", "4a5a56fd"));
}

#[test]
fn the_empty_hash_starts_every_hash() {
    assert!(compare_hashes("", FULL));
    assert!(compare_hashes(FULL, ""));
    assert!(compare_hashes("", ""));
}

#[test]
fn entries_are_unpadded_base32() {
    assert_eq!(encode_entry("github:foo/bar"), FOO_BAR);
    assert_eq!(encode_entry("gitlab:foo/baz"), FOO_BAZ);
    assert_eq!(encode_entry("f"), "MY");
    assert_eq!(encode_entry(""), "");
    assert_eq!(
        encode_entry("github:foo/bar"),
        base32::encode(base32::Alphabet::RFC4648 { padding: false }, b"github:foo/bar")
    );
}

#[test]
fn entries_round_trip() {
    for identity in ["github:foo/bar", "gitlab:a-b/c_d.e", "bitbucket:x/y", "github:café/bar", ""] {
        assert_eq!(decode_entry(&encode_entry(identity)), Ok(identity.to_string()));
    }
}

#[test]
fn entries_that_stand_for_nothing() {
    assert_eq!(decode_entry(FOO_BAR), Ok("github:foo/bar".to_string()));
    assert_eq!(decode_entry("M5UXI,"), Err(EntryFault::NotBase32));
    assert_eq!(decode_entry("café"), Err(EntryFault::NotBase32));
    assert_eq!(decode_entry("74"), Err(EntryFault::NotUtf8));
}

#[test]
fn cache_paths() {
    let cache = cache();
    assert_eq!(cache.manifest_file(), "/home/user/.cache/decaff/manifest.toml");
    assert_eq!(cache.tarballs_dir(), "/home/user/.cache/decaff/tarballs");
    assert_eq!(
        cache.tarball("4a5a56fd"),
        "/home/user/.cache/decaff/tarballs/4a5a56fd.tar.gz"
    );
}

#[test]
fn write_enters_the_revision_and_names_the_archive() {
    let mut cache = cache();
    let tarball = cache.write_at("github:foo/bar", "main", FULL, 42);
    assert_eq!(tarball, format!("/home/user/.cache/decaff/tarballs/{}.tar.gz", FULL));
    assert_eq!(
        cache.manifest.buckets(),
        &vec![Bucket { entry: FOO_BAR.to_string(), items: vec![item("main", FULL, 42)] }]
    );
}

#[test]
fn write_twice_leaves_one_item() {
    let mut cache = cache();
    let first = cache.write_at("github:foo/bar", "main", FULL, 42);
    let second = cache.write_at("github:foo/bar", "main", FULL, 43);
    assert_eq!(first, second);
    assert_eq!(cache.manifest.get(FOO_BAR), Some(&vec![item("main", FULL, 42)]));
    assert_eq!(cache.read("github:foo/bar", FULL), Some(first));
}

#[test]
fn write_of_a_matching_hash_adds_nothing() {
    let mut cache = cache();
    cache.write_at("github:foo/bar", "main", "4a5a56fd", 42);
    let tarball = cache.write_at("github:foo/bar", "other", FULL, 43);
    assert_eq!(tarball, cache.tarball(FULL));
    assert_eq!(cache.manifest.get(FOO_BAR), Some(&vec![item("main", "4a5a56fd", 42)]));
}

#[test]
fn write_keeps_revisions_apart() {
    let cache = stocked();
    assert_eq!(
        cache.manifest.buckets(),
        &vec![
            Bucket {
                entry: FOO_BAR.to_string(),
                items: vec![item("main", FULL, 3_000), item("dev", OTHER, 5_000)]
            },
            Bucket {
                entry: FOO_BAZ.to_string(),
                items: vec![item("main", "1234567", 4_000), item("v1", "abcdef0", 1_000)]
            },
        ]
    );
}

#[test]
fn write_stamps_the_time_of_the_call() {
    let before = chrono::Utc::now().timestamp_millis();
    let mut cache = cache();
    cache.write("github:foo/bar", "main", FULL);
    let after = chrono::Utc::now().timestamp_millis();
    let items = cache.manifest.get(FOO_BAR).unwrap();
    assert_eq!(items.len(), 1);
    assert_eq!(items[0].name, "main");
    assert_eq!(items[0].hash, FULL);
    assert!(before <= items[0].timestamp && items[0].timestamp <= after);
}

#[test]
fn write_drops_empty_shelves() {
    let mut manifest = Manifest::default();
    manifest.insert("EMPTY".to_string(), vec![]);
    let mut cache = Cache::init("root".to_string(), manifest);
    cache.write_at("github:foo/bar", "main", FULL, 42);
    assert_eq!(
        cache.manifest.buckets(),
        &vec![Bucket { entry: FOO_BAR.to_string(), items: vec![item("main", FULL, 42)] }]
    );
}

#[test]
fn read_by_the_start_of_a_hash() {
    let mut cache = cache();
    let tarball = cache.write_at("github:foo/bar", "main", FULL, 42);
    assert_eq!(FULL.len(), 40);
    assert_eq!(cache.read("github:foo/bar", &FULL[..8]), Some(tarball.clone()));
    assert_eq!(cache.read("github:foo/bar", FULL), Some(tarball));
}

#[test]
fn read_by_a_longer_hash_names_the_archive_kept() {
    let mut cache = cache();
    cache.write_at("github:foo/bar", "main", "4a5a56fd", 42);
    assert_eq!(cache.read("github:foo/bar", FULL), Some(cache.tarball("4a5a56fd")));
}

#[test]
fn read_misses() {
    let cache = stocked();
    assert_eq!(cache.read("github:foo/bar", "1234567"), None);
    assert_eq!(cache.read("gitlab:foo/bar", FULL), None);
    assert_eq!(cache.read("github:foo/bar", "4a5a56fe"), None);
}

#[test]
fn read_takes_the_first_revision_that_matches() {
    let mut cache = cache();
    cache.write_at("github:foo/bar", "one", "aaaaaaaa1111", 1);
    cache.write_at("github:foo/bar", "two", "aaaaaaaa2222", 2);
    assert_eq!(cache.manifest.get(FOO_BAR).unwrap().len(), 2);
    assert_eq!(cache.read("github:foo/bar", "aaaaaaaa"), Some(cache.tarball("aaaaaaaa1111")));
    assert_eq!(cache.read("github:foo/bar", "aaaaaaaa2"), Some(cache.tarball("aaaaaaaa2222")));
}

#[test]
fn list_shows_the_newest_first() {
    let cache = stocked();
    assert_eq!(
        cache.list(),
        Ok(vec![
            Listed {
                host: RepositoryHost::GitHub,
                user: "foo".to_string(),
                repo: "bar".to_string(),
                revisions: vec![
                    listed("01/01/1970 00:00", "dev", OTHER, 5_000),
                    listed("01/01/1970 00:00", "main", FULL, 3_000),
                ]
            },
            Listed {
                host: RepositoryHost::GitLab,
                user: "foo".to_string(),
                repo: "baz".to_string(),
                revisions: vec![
                    listed("01/01/1970 00:00", "main", "1234567", 4_000),
                    listed("01/01/1970 00:00", "v1", "abcdef0", 1_000),
                ]
            },
        ])
    );
}

#[test]
fn list_writes_dates_in_utc() {
    let mut cache = cache();
    cache.write_at("github:foo/bar", "a", "1111111", 947_638_923_004);
    cache.write_at("github:foo/bar", "b", "2222222", 1_700_000_000_000);
    cache.write_at("github:foo/bar", "c", "3333333", -1);
    let listing = cache.list().unwrap();
    let shown: Vec<(&str, &str)> = listing[0]
        .revisions
        .iter()
        .map(|revision| (revision.name.as_str(), revision.date.as_deref().unwrap()))
        .collect();
    assert_eq!(
        shown,
        vec![("b", "14/11/2023 22:13"), ("a", "12/01/2000 01:02"), ("c", "31/12/1969 23:59")]
    );
}

#[test]
fn list_keeps_the_order_of_equal_timestamps() {
    let mut cache = cache();
    cache.write_at("github:foo/bar", "a", "1111111", 7);
    cache.write_at("github:foo/bar", "b", "2222222", 9);
    cache.write_at("github:foo/bar", "c", "3333333", 7);
    cache.write_at("github:foo/bar", "d", "4444444", 9);
    let listing = cache.list().unwrap();
    let names: Vec<&str> =
        listing[0].revisions.iter().map(|revision| revision.name.as_str()).collect();
    assert_eq!(names, vec!["b", "d", "a", "c"]);
}

#[test]
fn list_shows_every_revision_with_or_without_a_date() {
    let mut cache = cache();
    cache.write_at("github:foo/bar", "a", "1111111", i64::MAX);
    cache.write_at("github:foo/bar", "b", "2222222", 0);
    cache.write_at("github:foo/bar", "c", "3333333", i64::MIN);
    let listing = cache.list().unwrap();
    assert_eq!(listing.len(), 1);
    assert_eq!(
        listing[0].revisions,
        vec![
            ListedRevision {
                date: None,
                name: "a".to_string(),
                hash: "1111111".to_string(),
                timestamp: i64::MAX
            },
            listed("01/01/1970 00:00", "b", "2222222", 0),
            ListedRevision {
                date: None,
                name: "c".to_string(),
                hash: "3333333".to_string(),
                timestamp: i64::MIN
            },
        ]
    );
}

#[test]
fn list_names_every_repository_that_was_written() {
    let sources = ["github:foo/bar", "gitlab:a-b/c_d.e", "bitbucket:x/y", "github:Foo/"];
    let mut cache = cache();
    for (i, source) in sources.iter().enumerate() {
        cache.write_at(source, "main", &format!("{}234567", i), 1);
    }
    let listing = cache.list().unwrap();
    let names: Vec<String> = listing
        .iter()
        .map(|group| format!("{}:{}/{}", group.host.to_string(), group.user, group.repo))
        .collect();
    assert_eq!(names, sources);
    for group in &listing {
        assert_eq!(group.revisions.len(), 1);
    }
}

#[test]
fn list_of_an_empty_cache() {
    assert_eq!(cache().list(), Ok(vec![]));
}

#[test]
fn list_reports_a_key_that_is_no_base32() {
    let mut manifest = Manifest::default();
    manifest.insert(FOO_BAR.to_string(), vec![item("main", FULL, 1)]);
    manifest.insert("not,base32".to_string(), vec![item("main", FULL, 1)]);
    let error = Cache::init("root".to_string(), manifest).list().unwrap_err();
    assert_eq!(error, CacheError::MalformedEntry("not,base32".to_string()));
    assert_eq!(error.to_string(), "Couldn't decode entry: `not,base32`.");
    assert_eq!(error.help(), "Manifest may be malformed, clear the cache and try again.");
}

#[test]
fn list_reports_a_key_that_is_no_text() {
    let mut manifest = Manifest::default();
    manifest.insert("74".to_string(), vec![]);
    let error = Cache::init("root".to_string(), manifest).list().unwrap_err();
    assert_eq!(error, CacheError::InvalidUtf8("74".to_string()));
    assert_eq!(
        error.to_string(),
        "Couldn't decode entry due to invalid UTF-8 in the string: `74`."
    );
}

#[test]
fn list_reports_a_key_that_is_no_identity() {
    let mut manifest = Manifest::default();
    manifest.insert(encode_entry("srht:foo/bar"), vec![item("main", FULL, 1)]);
    let error = Cache::init("root".to_string(), manifest).list().unwrap_err();
    assert_eq!(error, CacheError::UnparsableEntry("srht:foo/bar".to_string()));
    assert_eq!(error.to_string(), "Couldn't parse entry: `srht:foo/bar`.");
}

#[test]
fn describe_names_the_repository() {
    let items = vec![item("a", "1111111", 1), item("b", "2222222", 2)];
    assert_eq!(
        describe(FOO_BAZ, &items),
        Ok(Removal {
            host: RepositoryHost::GitLab,
            user: "foo".to_string(),
            repo: "baz".to_string(),
            items: vec![item("b", "2222222", 2), item("a", "1111111", 1)]
        })
    );
    assert_eq!(
        Cache::parse_repository("nonsense"),
        Err(CacheError::UnparsableEntry("nonsense".to_string()))
    );
    let parsed = Cache::parse_repository("bb:foo/bar#v1").unwrap();
    assert_eq!(parsed.host, RepositoryHost::BitBucket);
    assert!(parsed.refs.is_empty());
}

#[test]
fn remove_by_identity_empties_the_shelf() {
    let mut cache = stocked();
    let removals = cache.remove(&terms(&["github:foo/bar"])).unwrap();
    assert_eq!(
        removals,
        vec![Removal {
            host: RepositoryHost::GitHub,
            user: "foo".to_string(),
            repo: "bar".to_string(),
            items: vec![item("dev", OTHER, 5_000), item("main", FULL, 3_000)]
        }]
    );
    assert_eq!(
        cache.manifest.buckets(),
        &vec![Bucket {
            entry: FOO_BAZ.to_string(),
            items: vec![item("main", "1234567", 4_000), item("v1", "abcdef0", 1_000)]
        }]
    );
    let listing = cache.list().unwrap();
    assert_eq!(listing.len(), 1);
    assert_eq!(listing[0].repo, "baz");
}

#[test]
fn remove_by_name_reaches_every_shelf() {
    let mut cache = stocked();
    let removals = cache.remove(&terms(&["main"])).unwrap();
    assert_eq!(removals.len(), 2);
    assert_eq!(removals[0].items, vec![item("main", FULL, 3_000)]);
    assert_eq!(removals[1].items, vec![item("main", "1234567", 4_000)]);
    assert_eq!(
        cache.manifest.buckets(),
        &vec![
            Bucket { entry: FOO_BAR.to_string(), items: vec![item("dev", OTHER, 5_000)] },
            Bucket { entry: FOO_BAZ.to_string(), items: vec![item("v1", "abcdef0", 1_000)] },
        ]
    );
}

#[test]
fn remove_by_the_start_of_a_hash() {
    let mut cache = stocked();
    let removals = cache.remove(&terms(&["9fceb02d"])).unwrap();
    assert_eq!(removals.len(), 1);
    assert_eq!(removals[0].repo, "bar");
    assert_eq!(removals[0].items, vec![item("dev", OTHER, 5_000)]);
    assert_eq!(cache.manifest.get(FOO_BAR), Some(&vec![item("main", FULL, 3_000)]));
    assert_eq!(cache.manifest.get(FOO_BAZ).unwrap().len(), 2);
}

#[test]
fn remove_takes_the_union_of_the_terms() {
    let mut cache = stocked();
    let removals = cache.remove(&terms(&["dev", "4a5a56fd", "v1"])).unwrap();
    assert_eq!(removals.len(), 2);
    assert_eq!(removals[0].items, vec![item("dev", OTHER, 5_000), item("main", FULL, 3_000)]);
    assert_eq!(removals[1].items, vec![item("v1", "abcdef0", 1_000)]);
    assert_eq!(
        cache.manifest.buckets(),
        &vec![Bucket { entry: FOO_BAZ.to_string(), items: vec![item("main", "1234567", 4_000)] }]
    );
}

#[test]
fn remove_of_what_is_not_there() {
    let mut cache = stocked();
    assert_eq!(cache.remove(&terms(&["nothing", "github:foo/baz"])), Ok(vec![]));
    assert_eq!(cache.remove(&terms(&[])), Ok(vec![]));
    assert_eq!(cache.manifest, stocked().manifest);
}

#[test]
fn remove_stops_at_a_key_that_stands_for_nothing() {
    let mut manifest = Manifest::default();
    manifest.insert(FOO_BAR.to_string(), vec![item("main", FULL, 1)]);
    manifest.insert("not,base32".to_string(), vec![item("main", OTHER, 2)]);
    let mut cache = Cache::init("root".to_string(), manifest);
    assert_eq!(
        cache.remove(&terms(&["main"])),
        Err(CacheError::MalformedEntry("not,base32".to_string()))
    );
    assert_eq!(cache.manifest.buckets().len(), 2);
    assert_eq!(cache.manifest.get(FOO_BAR), Some(&vec![item("main", FULL, 1)]));
    assert_eq!(cache.remove(&terms(&["github:foo/bar"])).unwrap().len(), 1);
    assert_eq!(cache.manifest.buckets().len(), 1);
}

#[test]
fn remove_all_empties_the_manifest() {
    let mut cache = stocked();
    cache.remove_all();
    assert_eq!(cache.manifest, Manifest::default());
    assert_eq!(cache.list(), Ok(vec![]));
    assert_eq!(cache.root, "/home/user/.cache/decaff");
}

#[test]
fn manifest_insert_replaces_what_was_there() {
    let mut manifest = Manifest::default();
    manifest.insert("A".to_string(), vec![item("a", "1111111", 1)]);
    manifest.insert("B".to_string(), vec![]);
    manifest.insert("A".to_string(), vec![item("b", "2222222", 2)]);
    assert_eq!(
        manifest.buckets(),
        &vec![
            Bucket { entry: "A".to_string(), items: vec![item("b", "2222222", 2)] },
            Bucket { entry: "B".to_string(), items: vec![] },
        ]
    );
    assert_eq!(manifest.get("B"), Some(&vec![]));
    assert_eq!(manifest.get("C"), None);
    manifest.normalize();
    assert_eq!(manifest.buckets().len(), 1);
    manifest.clear_entries();
    assert_eq!(manifest, Manifest::default());
}

#[test]
fn manifest_find_and_record() {
    let mut manifest = Manifest::default();
    manifest.record("A".to_string(), item("a", "1111111", 1));
    manifest.record("A".to_string(), item("b", "1111", 2));
    manifest.record("A".to_string(), item("c", "2222222", 3));
    assert_eq!(manifest.get("A").unwrap().len(), 2);
    assert_eq!(manifest.find("A", "11"), Some(&item("a", "1111111", 1)));
    assert_eq!(manifest.find("A", "2222222333"), Some(&item("c", "2222222", 3)));
    assert_eq!(manifest.find("A", "3"), None);
    assert_eq!(manifest.find("B", "1111111"), None);
}

#[test]
fn manifest_select_and_remove_entries() {
    let mut manifest = stocked().manifest;
    let selected = manifest.select_entries(&terms(&["gitlab:foo/baz", "dev"]));
    assert_eq!(
        selected,
        vec![
            Bucket { entry: FOO_BAR.to_string(), items: vec![item("dev", OTHER, 5_000)] },
            Bucket {
                entry: FOO_BAZ.to_string(),
                items: vec![item("main", "1234567", 4_000), item("v1", "abcdef0", 1_000)]
            },
        ]
    );
    manifest.remove_entries(&selected);
    assert_eq!(
        manifest.buckets(),
        &vec![
            Bucket { entry: FOO_BAR.to_string(), items: vec![item("main", FULL, 3_000)] },
            Bucket { entry: FOO_BAZ.to_string(), items: vec![] },
        ]
    );
}

#[test]
fn an_identity_term_picks_nothing_by_name() {
    let mut cache = cache();
    cache.write_at("github:foo/bar", "gitlab:foo/baz", FULL, 1);
    cache.write_at("gitlab:foo/baz", "main", OTHER, 2);
    let removals = cache.remove(&terms(&["gitlab:foo/baz"])).unwrap();
    assert_eq!(removals.len(), 1);
    assert_eq!(removals[0].repo, "baz");
    assert_eq!(cache.manifest.get(FOO_BAR).unwrap().len(), 1);
}
