//! The grammar of template references, `[host:]user/repo[#selector]`, as a
//! function from the characters of the input to a descriptor or a diagnostic.

use vstd::prelude::*;

use crate::repository::{ParseErrorKind, RepositoryHost};
use crate::text::{
    ascii_lower, find, is_white_space, lemma_find, lemma_find_is, lemma_trim_plain, trim, utf8_len,
};

verus! {

/// A parsed reference, as mathematics.
pub struct Descriptor {
    pub host: RepositoryHost,
    pub user: Seq<char>,
    pub repo: Seq<char>,
    pub selector: Seq<char>,
}

/// A parse diagnostic, as mathematics.
pub struct Diagnostic {
    pub kind: ParseErrorKind,
    /// The offending token; empty where the kind names none.
    pub token: Seq<char>,
    /// Offset and length in bytes of the offending text, where there is one.
    pub span: Option<(nat, nat)>,
    /// The trimmed input that the span refers to.
    pub source: Seq<char>,
}

/// The selector that stands for "whatever the repository points at".
pub open spec fn default_selector() -> Seq<char> {
    "HEAD"@
}

/// The selector of a repository: the one given beside the reference where
/// one is given and not empty, the one that the reference names else.
pub open spec fn chosen_selector(given: Option<Seq<char>>, parsed: Seq<char>) -> Seq<char> {
    match given {
        Some(selector) => if selector.len() > 0 {
            selector
        } else {
            parsed
        },
        None => parsed,
    }
}

/// Characters allowed in a user name.
pub open spec fn is_user_char(c: char) -> bool {
    ('a' <= c <= 'z') || ('A' <= c <= 'Z') || ('0' <= c <= '9') || c == '_' || c == '-'
}

/// Characters allowed in a repository name.
pub open spec fn is_repo_char(c: char) -> bool {
    is_user_char(c) || c == '.'
}

/// A user name: not empty, of the characters allowed in one.
pub open spec fn is_user_name(s: Seq<char>) -> bool {
    s.len() > 0 && forall|i: int| 0 <= i < s.len() ==> is_user_char(#[trigger] s[i])
}

/// A repository name: of the characters allowed in one.
pub open spec fn is_repo_name(s: Seq<char>) -> bool {
    forall|i: int| 0 <= i < s.len() ==> is_repo_char(#[trigger] s[i])
}

/// The host that a token names, whatever its case.
pub open spec fn host_named(token: Seq<char>) -> Option<RepositoryHost> {
    let t = ascii_lower(token);
    if t == "github"@ || t == "gh"@ {
        Some(RepositoryHost::GitHub)
    } else if t == "gitlab"@ || t == "gl"@ {
        Some(RepositoryHost::GitLab)
    } else if t == "bitbucket"@ || t == "bb"@ {
        Some(RepositoryHost::BitBucket)
    } else {
        None
    }
}

/// The index of the `:` that ends a host token: the first `:`, if it stands
/// before every `/`.
pub open spec fn host_end(s: Seq<char>) -> Option<int> {
    match (find(s, ':', 0), find(s, '/', 0)) {
        (Some(colon), Some(slash)) => if colon < slash {
            Some(colon)
        } else {
            None
        },
        (Some(colon), None) => Some(colon),
        (None, _) => None,
    }
}

/// The span of `s[from..to]` in bytes.
pub open spec fn span_of(s: Seq<char>, from: int, to: int) -> Option<(nat, nat)> {
    Some((utf8_len(s.subrange(0, from)), utf8_len(s.subrange(from, to))))
}

/// The host of `s` and the index at which its user name starts.
pub open spec fn parse_host(s: Seq<char>) -> Result<(RepositoryHost, int), Diagnostic> {
    match host_end(s) {
        Some(colon) => match host_named(s.subrange(0, colon)) {
            Some(host) => Ok((host, colon + 1)),
            None => Err(
                Diagnostic {
                    kind: ParseErrorKind::InvalidHost,
                    token: ascii_lower(s.subrange(0, colon)),
                    span: span_of(s, 0, colon),
                    source: s,
                },
            ),
        },
        None => Ok((RepositoryHost::GitHub, 0)),
    }
}

/// The index of the `/` that ends the user name, which starts at `from`.
pub open spec fn parse_user(s: Seq<char>, from: int) -> Result<int, Diagnostic> {
    match find(s, '/', from) {
        None => Err(
            Diagnostic {
                kind: ParseErrorKind::MissingRepository,
                token: Seq::empty(),
                span: None,
                source: s,
            },
        ),
        Some(slash) => if is_user_name(s.subrange(from, slash)) {
            Ok(slash)
        } else {
            Err(
                Diagnostic {
                    kind: ParseErrorKind::InvalidUser,
                    token: s.subrange(from, slash),
                    span: span_of(s, from, slash),
                    source: s,
                },
            )
        },
    }
}

/// The repository name and the selector of `s`, which start behind `slash`:
/// the index at which the name ends, and the selector.
pub open spec fn parse_repository(s: Seq<char>, slash: int) -> Result<(int, Seq<char>), Diagnostic> {
    let start = slash + 1;
    let end = s.len() as int;
    let second = find(s, '/', start);
    let repo_end = match find(s, '#', start) {
        Some(hash) => hash,
        None => end,
    };
    if second is Some && second.unwrap() < repo_end {
        Err(
            Diagnostic {
                kind: ParseErrorKind::MultipleSlashes,
                token: Seq::empty(),
                span: Some((utf8_len(s.subrange(0, second.unwrap())), 1)),
                source: s,
            },
        )
    } else if !is_repo_name(s.subrange(start, repo_end)) {
        Err(
            Diagnostic {
                kind: ParseErrorKind::InvalidRepository,
                token: s.subrange(start, repo_end),
                span: span_of(s, start, repo_end),
                source: s,
            },
        )
    } else if repo_end + 1 < end {
        Ok((repo_end, s.subrange(repo_end + 1, end)))
    } else {
        Ok((repo_end, default_selector()))
    }
}

/// What a trimmed reference means.
pub open spec fn parse_trimmed(s: Seq<char>) -> Result<Descriptor, Diagnostic> {
    match parse_host(s) {
        Err(e) => Err(e),
        Ok((host, from)) => match parse_user(s, from) {
            Err(e) => Err(e),
            Ok(slash) => match parse_repository(s, slash) {
                Err(e) => Err(e),
                Ok((repo_end, selector)) => Ok(
                    Descriptor {
                        host,
                        user: s.subrange(from, slash),
                        repo: s.subrange(slash + 1, repo_end),
                        selector,
                    },
                ),
            },
        },
    }
}

/// What a reference means: the meaning of the input without the white space
/// around it.
pub open spec fn parse(input: Seq<char>) -> Result<Descriptor, Diagnostic> {
    parse_trimmed(trim(input))
}

/// The text that names a host in an identity and in a URL.
pub open spec fn host_name(host: RepositoryHost) -> Seq<char> {
    match host {
        RepositoryHost::GitHub => "github"@,
        RepositoryHost::GitLab => "gitlab"@,
        RepositoryHost::BitBucket => "bitbucket"@,
    }
}

/// The identity of a repository, `host:user/repo`: the same for every
/// selector.
pub open spec fn identity(d: Descriptor) -> Seq<char> {
    host_name(d.host) + ":"@ + d.user + "/"@ + d.repo
}

/// Where the repository lies as a git remote.
pub open spec fn git_url(d: Descriptor) -> Seq<char> {
    match d.host {
        RepositoryHost::GitHub => "https://github.com/"@ + d.user + "/"@ + d.repo + ".git"@,
        RepositoryHost::GitLab => "https://gitlab.com/"@ + d.user + "/"@ + d.repo + ".git"@,
        RepositoryHost::BitBucket => "https://bitbucket.org/"@ + d.user + "/"@ + d.repo + ".git"@,
    }
}

/// Where the archive of the selected revision lies.
pub open spec fn tar_url(d: Descriptor) -> Seq<char> {
    match d.host {
        RepositoryHost::GitHub => "https://github.com/"@ + d.user + "/"@ + d.repo + "/archive/"@
            + d.selector + ".tar.gz"@,
        RepositoryHost::GitLab => "https://gitlab.com/"@ + d.user + "/"@ + d.repo
            + "/-/archive/"@ + d.selector + "/"@ + d.repo + ".tar.gz"@,
        RepositoryHost::BitBucket => "https://bitbucket.org/"@ + d.user + "/"@ + d.repo + "/get/"@
            + d.selector + ".tar.gz"@,
    }
}

/// The message of a diagnostic.
pub open spec fn message(d: Diagnostic) -> Seq<char> {
    match d.kind {
        ParseErrorKind::InvalidHost => "Invalid host: `"@ + d.token + "`."@,
        ParseErrorKind::InvalidUser => "Invalid user name: `"@ + d.token + "`."@,
        ParseErrorKind::MissingRepository => "Missing repository name."@,
        ParseErrorKind::MultipleSlashes => "Multiple slashes in the input."@,
        ParseErrorKind::InvalidRepository => "Invalid repository name: `"@ + d.token + "`."@,
    }
}

/// What the reader is told about the text that a diagnostic points at.
pub open spec fn advice(kind: ParseErrorKind) -> Seq<char> {
    match kind {
        ParseErrorKind::InvalidHost => "must be one of: github/gh, gitlab/gl, or bitbucket/bb"@,
        ParseErrorKind::InvalidUser => "only ASCII alphanumeric characters, _ and - allowed"@,
        ParseErrorKind::MissingRepository => Seq::empty(),
        ParseErrorKind::MultipleSlashes => "remove this"@,
        ParseErrorKind::InvalidRepository =>
            "only ASCII alphanumeric characters, _, - and . allowed"@,
    }
}

/// What parses has a user name and a repository name of the allowed
/// characters, and a selector that is not empty.
pub proof fn lemma_parsed(s: Seq<char>)
    ensures
        parse_trimmed(s) matches Ok(d) ==> is_user_name(d.user) && is_repo_name(d.repo)
            && d.selector.len() > 0,
{
    reveal_strlit("HEAD");
    if parse_trimmed(s) is Ok {
        let from = parse_host(s)->Ok_0.1;
        lemma_find(s, '/', from);
        let slash = parse_user(s, from)->Ok_0;
        lemma_find(s, '#', slash + 1);
    }
}

/// A reference without a host token names a repository on GitHub.
pub proof fn lemma_default_host(s: Seq<char>)
    requires
        find(s, ':', 0) is None,
    ensures
        parse_trimmed(s) matches Ok(d) ==> d.host == RepositoryHost::GitHub,
{
}

/// The identity of a repository does not depend on the selector.
pub proof fn lemma_identity_ignores_selector(d: Descriptor, selector: Seq<char>)
    ensures
        identity(Descriptor { selector, ..d }) == identity(d),
{
}

/// An empty selector is no selector: a reference without `#` means the same
/// with a `#` behind it. Where it does not parse, the diagnostic is of the
/// same kind, on the same token, at the same place.
pub proof fn lemma_empty_selector(s: Seq<char>)
    requires
        find(s, '#', 0) is None,
    ensures
        match (parse_trimmed(s), parse_trimmed(s.push('#'))) {
            (Ok(plain), Ok(marked)) => plain == marked,
            (Err(plain), Err(marked)) => plain.kind == marked.kind && plain.token == marked.token
                && plain.span == marked.span,
            _ => false,
        },
{
    let t = s.push('#');
    let end = s.len() as int;
    lemma_find(s, '#', 0);
    lemma_find(t, ':', 0);
    assert(find(t, ':', 0) == find(s, ':', 0)) by {
        lemma_same_find(s, t, ':', 0);
    }
    assert(find(t, '/', 0) == find(s, '/', 0)) by {
        lemma_same_find(s, t, '/', 0);
    }
    match host_end(s) {
        Some(colon) => {
            assert(t.subrange(0, colon) =~= s.subrange(0, colon));
        },
        None => {},
    }
    if parse_host(s) is Ok {
        let from = parse_host(s)->Ok_0.1;
        lemma_find(s, '/', from);
        lemma_same_find(s, t, '/', from);
        if find(s, '/', from) is Some {
            let slash = find(s, '/', from)->0;
            assert(t.subrange(from, slash) =~= s.subrange(from, slash));
            assert(t.subrange(0, from) =~= s.subrange(0, from));
            if parse_user(s, from) is Ok {
                let start = slash + 1;
                lemma_find(s, '/', start);
                lemma_find(s, '#', start);
                lemma_same_find(s, t, '/', start);
                lemma_find_is(t, '#', start, end);
                assert(t.subrange(start, end) =~= s.subrange(start, end));
                assert(t.subrange(0, start) =~= s.subrange(0, start));
                if find(s, '/', start) is Some {
                    let second = find(s, '/', start)->0;
                    assert(t.subrange(0, second) =~= s.subrange(0, second));
                }
            }
        }
    }
}

/// A character other than `#` is found in a reference with a `#` behind it
/// where it is found in the reference.
proof fn lemma_same_find(s: Seq<char>, t: Seq<char>, c: char, from: int)
    requires
        t == s.push('#'),
        c != '#',
        0 <= from <= s.len(),
    ensures
        find(t, c, from) == find(s, c, from),
    decreases s.len() - from,
{
    if from < s.len() {
        if s[from] != c {
            lemma_same_find(s, t, c, from + 1);
        }
    } else {
        assert(find(t, c, from + 1) is None);
    }
}

/// The identity of a repository, read as a reference, names that
/// repository at the default selector. It has no white space around it, so
/// nothing is trimmed off.
pub proof fn lemma_parse_identity(d: Descriptor)
    requires
        is_user_name(d.user),
        is_repo_name(d.repo),
    ensures
        trim(identity(d)) == identity(d),
        parse(identity(d)) == Ok::<Descriptor, Diagnostic>(
            Descriptor { selector: default_selector(), ..d },
        ),
{
    reveal_strlit("github");
    reveal_strlit("gitlab");
    reveal_strlit("bitbucket");
    reveal_strlit("gh");
    reveal_strlit("gl");
    reveal_strlit("bb");
    reveal_strlit(":");
    reveal_strlit("/");
    let host = host_name(d.host);
    let s = identity(d);
    let colon = host.len() as int;
    let slash = colon + 1 + d.user.len();
    let start = slash + 1;
    let end = s.len() as int;
    lemma_find_is(s, ':', 0, colon);
    lemma_find_is(s, '/', 0, slash);
    assert(s.subrange(0, colon) =~= host);
    assert(ascii_lower(host) =~= host);
    assert(host_named(host) == Some(d.host)) by {
        assert("github"@[3] == 'h' && "gitlab"@[3] == 'l');
    }
    lemma_find_is(s, '/', colon + 1, slash);
    assert(s.subrange(colon + 1, slash) =~= d.user);
    lemma_find(s, '/', start);
    lemma_find(s, '#', start);
    assert(s.subrange(start, end) =~= d.repo);
    assert(!is_white_space(s[0])) by {
        assert(s[0] == host[0]);
    }
    assert(!is_white_space(s.last())) by {
        if d.repo.len() > 0 {
            assert(s.last() == d.repo.last());
            assert(is_repo_char(d.repo.last()));
        } else {
            assert(s.last() == '/');
        }
    }
    lemma_trim_plain(s);
}

} // verus!
