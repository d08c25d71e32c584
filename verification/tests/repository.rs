use decaff::refs::RefMap;
use decaff::repository::{
    ParseErrorKind, RemoteRepository, RepositoryHost, RepositoryMeta, Span,
};

fn parsed(
    host: RepositoryHost,
    user: &str,
    repo: &str,
    meta: RepositoryMeta,
) -> Result<RemoteRepository, String> {
    Ok(RemoteRepository {
        host,
        user: user.to_string(),
        repo: repo.to_string(),
        meta,
        refs: RefMap::new(),
    })
}

#[test]
fn parse_remote_default() {
    assert_eq!(
        RemoteRepository::from_str("foo/bar").map_err(|report| report.to_string()),
        Ok(RemoteRepository {
            host: RepositoryHost::GitHub,
            user: "foo".to_string(),
            repo: "bar".to_string(),
            meta: RepositoryMeta::default(),
            refs: RefMap::new()
        })
    );
}

#[test]
fn parse_remote_missing_reponame() {
    assert_eq!(
        RemoteRepository::from_str("foo-bar").map_err(|report| report.to_string()),
        Err("Missing repository name.".to_string())
    );
}

#[test]
fn parse_remote_invalid_username() {
    assert_eq!(
        RemoteRepository::from_str("foo@bar/baz").map_err(|report| report.to_string()),
        Err("Invalid user name: `foo@bar`.".to_string())
    );
}

#[test]
fn parse_remote_invalid_reponame() {
    assert_eq!(
        RemoteRepository::from_str("foo-bar/b@z").map_err(|report| report.to_string()),
        Err("Invalid repository name: `b@z`.".to_string())
    );
}

#[test]
fn parse_remote_invalid_host() {
    assert_eq!(
        RemoteRepository::from_str("srht:foo/bar").map_err(|report| report.to_string()),
        Err("Invalid host: `srht`.".to_string())
    );
}

#[test]
fn parse_remote_meta() {
    let cases = [
        ("foo/bar", RepositoryMeta::default()),
        ("foo/bar#foo", RepositoryMeta("foo".to_string())),
        ("foo/bar#4a5a56fd", RepositoryMeta("4a5a56fd".to_string())),
        (
            "foo/bar#feat/some-feature-name",
            RepositoryMeta("feat/some-feature-name".to_string()),
        ),
    ];

    for (input, meta) in cases {
        assert_eq!(
            RemoteRepository::from_str(input).map_err(|report| report.to_string()),
            Ok(RemoteRepository {
                host: RepositoryHost::GitHub,
                user: "foo".to_string(),
                repo: "bar".to_string(),
                refs: RefMap::new(),
                meta,
            })
        );
    }
}

#[test]
fn parse_remote_hosts() {
    let cases = [
        ("github:foo/bar", RepositoryHost::GitHub),
        ("gh:foo/bar", RepositoryHost::GitHub),
        ("gitlab:foo/bar", RepositoryHost::GitLab),
        ("gl:foo/bar", RepositoryHost::GitLab),
        ("bitbucket:foo/bar", RepositoryHost::BitBucket),
        ("bb:foo/bar", RepositoryHost::BitBucket),
    ];

    for (input, host) in cases {
        assert_eq!(
            RemoteRepository::from_str(input).map_err(|report| report.to_string()),
            Ok(RemoteRepository {
                host,
                user: "foo".to_string(),
                repo: "bar".to_string(),
                meta: RepositoryMeta::default(),
                refs: RefMap::new()
            })
        );
    }
}

#[test]
fn test_remote_empty_meta() {
    assert_eq!(
        RemoteRepository::from_str("foo/bar#").map_err(|report| report.to_string()),
        Ok(RemoteRepository {
            host: RepositoryHost::GitHub,
            user: "foo".to_string(),
            repo: "bar".to_string(),
            meta: RepositoryMeta::default(),
            refs: RefMap::new()
        })
    );
}

#[test]
fn parse_remote_ambiguous_username() {
    let cases = [
        ("github/foo", "github", "foo"),
        ("gh/foo", "gh", "foo"),
        ("gitlab/foo", "gitlab", "foo"),
        ("gl/foo", "gl", "foo"),
        ("bitbucket/foo", "bitbucket", "foo"),
        ("bb/foo", "bb", "foo"),
    ];

    for (input, user, repo) in cases {
        assert_eq!(
            RemoteRepository::from_str(input).map_err(|report| report.to_string()),
            Ok(RemoteRepository {
                host: RepositoryHost::default(),
                user: user.to_string(),
                repo: repo.to_string(),
                meta: RepositoryMeta::default(),
                refs: RefMap::new()
            })
        );
    }
}

#[test]
fn parse_ignores_surrounding_white_space() {
    assert_eq!(
        RemoteRepository::from_str("  gl:foo/bar#v1 \n").map_err(|e| e.to_string()),
        parsed(RepositoryHost::GitLab, "foo", "bar", RepositoryMeta("v1".to_string()))
    );
}

#[test]
fn parse_host_token_is_case_folded() {
    assert_eq!(
        RemoteRepository::from_str("GitHub:Foo/Bar").map_err(|e| e.to_string()),
        parsed(RepositoryHost::GitHub, "Foo", "Bar", RepositoryMeta::default())
    );
    let error = RemoteRepository::from_str("SRHT:foo/bar").unwrap_err();
    assert_eq!(error.kind, ParseErrorKind::InvalidHost);
    assert_eq!(error.token, "srht");
    assert_eq!(error.span, Some(Span { offset: 0, length: 4 }));
    assert_eq!(error.source, "SRHT:foo/bar");
}

#[test]
fn parse_colon_behind_a_slash_is_no_host() {
    assert_eq!(
        RemoteRepository::from_str("foo/bar#a:b").map_err(|e| e.to_string()),
        parsed(RepositoryHost::GitHub, "foo", "bar", RepositoryMeta("a:b".to_string()))
    );
}

#[test]
fn parse_rejects_an_empty_user() {
    let error = RemoteRepository::from_str("gh:/bar").unwrap_err();
    assert_eq!(error.kind, ParseErrorKind::InvalidUser);
    assert_eq!(error.to_string(), "Invalid user name: ``.");
    assert_eq!(error.span, Some(Span { offset: 3, length: 0 }));
}

#[test]
fn parse_points_at_the_invalid_user() {
    let error = RemoteRepository::from_str("gh:foo@bar/baz").unwrap_err();
    assert_eq!(error.kind, ParseErrorKind::InvalidUser);
    assert_eq!(error.token, "foo@bar");
    assert_eq!(error.span, Some(Span { offset: 3, length: 7 }));
    assert_eq!(error.label(), "only ASCII alphanumeric characters, _ and - allowed");
}

#[test]
fn parse_points_at_the_second_slash() {
    let error = RemoteRepository::from_str("user/repo/extra").unwrap_err();
    assert_eq!(error.kind, ParseErrorKind::MultipleSlashes);
    assert_eq!(error.to_string(), "Multiple slashes in the input.");
    assert_eq!(error.span, Some(Span { offset: 9, length: 1 }));
    assert_eq!(error.label(), "remove this");

    let error = RemoteRepository::from_str("user/repo/extra#main").unwrap_err();
    assert_eq!(error.kind, ParseErrorKind::MultipleSlashes);
    assert_eq!(error.span, Some(Span { offset: 9, length: 1 }));
}

#[test]
fn parse_points_at_the_invalid_repository() {
    let error = RemoteRepository::from_str("foo-bar/b@z#main").unwrap_err();
    assert_eq!(error.kind, ParseErrorKind::InvalidRepository);
    assert_eq!(error.token, "b@z");
    assert_eq!(error.span, Some(Span { offset: 8, length: 3 }));
    assert_eq!(error.label(), "only ASCII alphanumeric characters, _, - and . allowed");
}

#[test]
fn parse_spans_count_bytes() {
    let error = RemoteRepository::from_str("é/b@z").unwrap_err();
    assert_eq!(error.kind, ParseErrorKind::InvalidUser);
    assert_eq!(error.span, Some(Span { offset: 0, length: 2 }));
    let error = RemoteRepository::from_str("foo/bär").unwrap_err();
    assert_eq!(error.kind, ParseErrorKind::InvalidRepository);
    assert_eq!(error.span, Some(Span { offset: 4, length: 4 }));
}

#[test]
fn parse_missing_repository_has_no_span() {
    let error = RemoteRepository::from_str("gh:foo").unwrap_err();
    assert_eq!(error.kind, ParseErrorKind::MissingRepository);
    assert_eq!(error.span, None);
    assert_eq!(error.label(), "");
}

#[test]
fn parse_accepts_dots_in_repository_only() {
    assert_eq!(
        RemoteRepository::from_str("foo/bar.rs").map_err(|e| e.to_string()),
        parsed(RepositoryHost::GitHub, "foo", "bar.rs", RepositoryMeta::default())
    );
    assert_eq!(
        RemoteRepository::from_str("f.oo/bar").map_err(|e| e.to_string()),
        Err("Invalid user name: `f.oo`.".to_string())
    );
}

#[test]
fn parse_of_trimmed_characters() {
    let chars: Vec<char> = "bb:foo/bar#v1".chars().collect();
    assert_eq!(
        RemoteRepository::from_trimmed(&chars).map_err(|e| e.to_string()),
        parsed(RepositoryHost::BitBucket, "foo", "bar", RepositoryMeta("v1".to_string()))
    );
    let chars: Vec<char> = " foo/bar".chars().collect();
    let error = RemoteRepository::from_trimmed(&chars).unwrap_err();
    assert_eq!(error.kind, ParseErrorKind::InvalidUser);
    assert_eq!(error.token, " foo");
}

#[test]
fn parse_accepts_an_empty_repository_name() {
    assert_eq!(
        RemoteRepository::from_str("foo/").map_err(|e| e.to_string()),
        parsed(RepositoryHost::GitHub, "foo", "", RepositoryMeta::default())
    );
    assert_eq!(
        RemoteRepository::from_str("foo/#dev").map_err(|e| e.to_string()),
        parsed(RepositoryHost::GitHub, "foo", "", RepositoryMeta("dev".to_string()))
    );
}

#[test]
fn parse_of_nothing() {
    let error = RemoteRepository::from_str("   ").unwrap_err();
    assert_eq!(error.kind, ParseErrorKind::MissingRepository);
    assert_eq!(error.source, "");
    let error = RemoteRepository::from_str(":").unwrap_err();
    assert_eq!(error.kind, ParseErrorKind::InvalidHost);
    assert_eq!(error.to_string(), "Invalid host: ``.");
    assert_eq!(error.span, Some(Span { offset: 0, length: 0 }));
}

#[test]
fn parse_keeps_slashes_and_marks_in_the_selector() {
    assert_eq!(
        RemoteRepository::from_str("foo/bar#a/b#c/d").map_err(|e| e.to_string()),
        parsed(RepositoryHost::GitHub, "foo", "bar", RepositoryMeta("a/b#c/d".to_string()))
    );
}
