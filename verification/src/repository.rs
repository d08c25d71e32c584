//! Repositories that templates come from: how a reference names one, where
//! its archive lies, and which commit a selector stands for.

use vstd::prelude::*;
use vstd::string::StringExecFns;

use crate::checkout::{next_step, next_task, Checkout, CheckoutError, CheckoutEvent};
use crate::grammar::{
    advice, chosen_selector, default_selector, git_url, host_name, host_named, identity,
    is_repo_char, is_repo_name, is_user_char, is_user_name, lemma_parsed, message, parse,
    parse_host, parse_repository, parse_trimmed, parse_user, tar_url, Descriptor, Diagnostic,
};
use crate::refs::{resolve, with_listing, RefMap, Refs};
use crate::text::{
    ascii_lower, byte_len_of, decimal, decimal_text, find_char, joined, lower_text_of, text_of,
    text_view, trim, trimmed_chars_of,
};

verus! {

/// Supported hosts. `GitHub` is the one used when a reference names none.
#[derive(Debug, Clone, Copy, PartialEq, Eq, Structural)]
pub enum RepositoryHost {
    GitHub,
    GitLab,
    BitBucket,
}

impl Default for RepositoryHost {
    /// `GitHub`.
    fn default() -> (host: RepositoryHost)
        ensures
            host == RepositoryHost::GitHub,
    {
        RepositoryHost::GitHub
    }
}

impl RepositoryHost {
    /// The text that names the host: `github`, `gitlab` or `bitbucket`.
    pub fn to_string(&self) -> (name: String)
        ensures
            name@ == host_name(*self),
    {
        match self {
            RepositoryHost::GitHub => String::from_str("github"),
            RepositoryHost::GitLab => String::from_str("gitlab"),
            RepositoryHost::BitBucket => String::from_str("bitbucket"),
        }
    }
}

/// What was wrong with a reference that did not parse.
#[derive(Debug, Clone, Copy, PartialEq, Eq, Structural)]
pub enum ParseErrorKind {
    /// The token before `:` names no supported host.
    InvalidHost,
    /// The user name is empty or holds a character outside its set.
    InvalidUser,
    /// There is no `/`, so no repository name.
    MissingRepository,
    /// A second `/` stands before any `#`.
    MultipleSlashes,
    /// The repository name holds a character outside its set.
    InvalidRepository,
}

/// The bytes of the trimmed input that a diagnostic points at.
#[derive(Debug, Clone, Copy, PartialEq, Eq, Structural)]
pub struct Span {
    /// Offset of the first byte.
    pub offset: usize,
    /// Number of bytes.
    pub length: usize,
}

/// Why a reference did not parse, and where.
#[derive(Debug, PartialEq)]
pub struct ParseError {
    pub kind: ParseErrorKind,
    /// The offending token; empty where the kind names none.
    pub token: String,
    /// The offending bytes of `source`, where the kind points at any.
    pub span: Option<Span>,
    /// The trimmed input.
    pub source: String,
}

impl View for ParseError {
    type V = Diagnostic;

    open spec fn view(&self) -> Diagnostic {
        Diagnostic {
            kind: self.kind,
            token: self.token@,
            span: match self.span {
                Some(span) => Some((span.offset as nat, span.length as nat)),
                None => None,
            },
            source: self.source@,
        }
    }
}

impl ParseError {
    /// The message, which names the offending token where there is one.
    pub fn to_string(&self) -> (text: String)
        ensures
            text@ == message(self@),
    {
        match self.kind {
            ParseErrorKind::InvalidHost => {
                let head = joined("Invalid host: `", self.token.as_str());
                joined(head.as_str(), "`.")
            },
            ParseErrorKind::InvalidUser => {
                let head = joined("Invalid user name: `", self.token.as_str());
                joined(head.as_str(), "`.")
            },
            ParseErrorKind::MissingRepository => String::from_str("Missing repository name."),
            ParseErrorKind::MultipleSlashes => String::from_str("Multiple slashes in the input."),
            ParseErrorKind::InvalidRepository => {
                let head = joined("Invalid repository name: `", self.token.as_str());
                joined(head.as_str(), "`.")
            },
        }
    }

    /// What to tell the reader about the text under the span.
    pub fn label(&self) -> (text: String)
        ensures
            text@ == advice(self.kind),
    {
        match self.kind {
            ParseErrorKind::InvalidHost => String::from_str(
                "must be one of: github/gh, gitlab/gl, or bitbucket/bb",
            ),
            ParseErrorKind::InvalidUser => String::from_str(
                "only ASCII alphanumeric characters, _ and - allowed",
            ),
            ParseErrorKind::MissingRepository => String::new(),
            ParseErrorKind::MultipleSlashes => String::from_str("remove this"),
            ParseErrorKind::InvalidRepository => String::from_str(
                "only ASCII alphanumeric characters, _, - and . allowed",
            ),
        }
    }
}

/// Why a selector could not be resolved.
#[derive(Debug, PartialEq)]
pub enum ReferenceError {
    /// The selector is no listed name and cannot be a commit hash.
    InvalidSelector(String),
}

impl ReferenceError {
    /// The message, which names the selector.
    pub fn to_string(&self) -> (text: String)
        ensures
            text@ == "Invalid reference: `"@ + self->0@ + "`."@,
    {
        match self {
            ReferenceError::InvalidSelector(selector) => {
                let head = joined("Invalid reference: `", selector.as_str());
                joined(head.as_str(), "`.")
            },
        }
    }
}

/// How the download of an archive went, as the transport reports it.
#[derive(Debug, PartialEq)]
pub enum Transfer {
    /// No answer came. The transport may still know a status code.
    Failed { code: Option<u16> },
    /// An answer came. `success` says whether its status stands for success;
    /// `body` is `None` where the body could not be read.
    Answered { status: u16, success: bool, body: Option<Vec<u8>> },
}

/// Why the archive could not be had.
#[derive(Debug, PartialEq)]
pub enum FetchError {
    RequestFailed,
    /// The remote answered with `code`; `report` says what that means and
    /// which URL was asked for.
    RequestFailedWithCode { code: u16, report: String },
    RequestBodyFailed,
}

/// Why the archive could not be had, as mathematics.
pub enum FetchFailure {
    RequestFailed,
    RequestFailedWithCode { code: u16, report: Seq<char> },
    RequestBodyFailed,
}

impl View for FetchError {
    type V = FetchFailure;

    open spec fn view(&self) -> FetchFailure {
        match *self {
            FetchError::RequestFailed => FetchFailure::RequestFailed,
            FetchError::RequestFailedWithCode { code, report } =>
                FetchFailure::RequestFailedWithCode { code, report: report@ },
            FetchError::RequestBodyFailed => FetchFailure::RequestBodyFailed,
        }
    }
}

/// The report on an answer that is no success: it names the URL, and says
/// what is missing where the status is 404.
pub open spec fn status_report(code: u16, url: Seq<char>) -> Seq<char> {
    if code == 404 {
        "The requested branch, tag or commit was not found.\n\nURL: "@ + url
    } else {
        "\n\nURL: "@ + url
    }
}

/// What a transfer from `url` yields: the bytes of the archive, or why
/// there are none.
pub open spec fn fetched(url: Seq<char>, transfer: Transfer) -> Result<Seq<u8>, FetchFailure> {
    match transfer {
        Transfer::Failed { code: None } => Err(FetchFailure::RequestFailed),
        Transfer::Failed { code: Some(code) } => Err(
            FetchFailure::RequestFailedWithCode { code, report: "\n\nURL: "@ + url },
        ),
        Transfer::Answered { status, success, body } => if !success {
            Err(
                FetchFailure::RequestFailedWithCode {
                    code: status,
                    report: status_report(status, url),
                },
            )
        } else {
            match body {
                Some(bytes) => Ok(bytes@),
                None => Err(FetchFailure::RequestBodyFailed),
            }
        },
    }
}

impl FetchError {
    /// The message.
    pub fn to_string(&self) -> (text: String)
        ensures
            text@ == match *self {
                FetchError::RequestFailed => "Request failed."@,
                FetchError::RequestFailedWithCode { code, report } =>
                    "Repository download failed with code "@ + decimal(code as nat) + ". "@
                        + report@,
                FetchError::RequestBodyFailed => "Couldn't get the response body as bytes."@,
            },
    {
        match self {
            FetchError::RequestFailed => String::from_str("Request failed."),
            FetchError::RequestFailedWithCode { code, report } => {
                let mut text = String::from_str("Repository download failed with code ");
                text.append(decimal_text(*code).as_str());
                text.append(". ");
                text.append(report.as_str());
                text
            },
            FetchError::RequestBodyFailed => String::from_str(
                "Couldn't get the response body as bytes.",
            ),
        }
    }
}

/// A branch, a tag or a commit hash, full or short.
#[derive(Debug, PartialEq)]
pub struct RepositoryMeta(pub String);

impl View for RepositoryMeta {
    type V = Seq<char>;

    open spec fn view(&self) -> Seq<char> {
        self.0@
    }
}

impl Default for RepositoryMeta {
    /// `HEAD`, which stands for whatever the repository points at by default.
    fn default() -> (meta: RepositoryMeta)
        ensures
            meta@ == default_selector(),
    {
        RepositoryMeta(String::from_str("HEAD"))
    }
}

impl Clone for RepositoryMeta {
    fn clone(&self) -> (meta: RepositoryMeta)
        ensures
            meta@ == self@,
    {
        RepositoryMeta(self.0.clone())
    }
}

impl RepositoryMeta {
    /// The selector as text.
    pub fn to_string(&self) -> (text: String)
        ensures
            text@ == self@,
    {
        self.0.clone()
    }
}

/// A repository on one of the supported hosts, which has to be downloaded
/// before it can be used.
#[derive(Debug, PartialEq)]
pub struct RemoteRepository {
    pub host: RepositoryHost,
    pub user: String,
    pub repo: String,
    pub meta: RepositoryMeta,
    pub refs: RefMap,
}

/// The host that a lower-case token names.
fn host_of(token: &String) -> (host: Option<RepositoryHost>)
    ensures
        ascii_lower(token@) == token@ ==> host == host_named(token@),
{
    if *token == String::from_str("github") || *token == String::from_str("gh") {
        Some(RepositoryHost::GitHub)
    } else if *token == String::from_str("gitlab") || *token == String::from_str("gl") {
        Some(RepositoryHost::GitLab)
    } else if *token == String::from_str("bitbucket") || *token == String::from_str("bb") {
        Some(RepositoryHost::BitBucket)
    } else {
        None
    }
}

/// Whether `c` may stand in a user name.
fn user_char(c: char) -> (b: bool)
    ensures
        b == is_user_char(c),
{
    ('a' <= c && c <= 'z') || ('A' <= c && c <= 'Z') || ('0' <= c && c <= '9') || c == '_' || c
        == '-'
}

/// Whether `chars[from..to]` is a valid repository name, or, with
/// `user`, a valid user name.
fn is_name(chars: &Vec<char>, from: usize, to: usize, user: bool) -> (b: bool)
    requires
        from <= to <= chars.len(),
    ensures
        user ==> b == is_user_name(chars@.subrange(from as int, to as int)),
        !user ==> b == is_repo_name(chars@.subrange(from as int, to as int)),
{
    let ghost name = chars@.subrange(from as int, to as int);
    if user && from == to {
        return false;
    }
    let mut i: usize = from;
    while i < to
        invariant
            from <= i <= to <= chars.len(),
            name == chars@.subrange(from as int, to as int),
            user ==> forall|j: int| 0 <= j < i - from ==> is_user_char(#[trigger] name[j]),
            !user ==> forall|j: int| 0 <= j < i - from ==> is_repo_char(#[trigger] name[j]),
        decreases to - i,
    {
        let c = chars[i];
        assert(c == name[i - from]);
        if !(user_char(c) || (!user && c == '.')) {
            return false;
        }
        i += 1;
    }
    true
}

/// The host of the reference and the index at which its user name starts.
fn read_host(source: &Vec<char>) -> (result: Result<(RepositoryHost, usize), ParseError>)
    ensures
        match parse_host(source@) {
            Ok((host, from)) => result == Ok::<(RepositoryHost, usize), ParseError>(
                (host, from as usize),
            ) && 0 <= from <= source.len(),
            Err(e) => result matches Err(x) && x@ == e,
        },
{
    let ghost s = source@;
    let colon = match find_char(source, ':', 0) {
        Some(c) => match find_char(source, '/', 0) {
            Some(slash) => if c < slash {
                Some(c)
            } else {
                None
            },
            None => Some(c),
        },
        None => None,
    };
    match colon {
        Some(c) => {
            let token = lower_text_of(source, 0, c);
            assert(ascii_lower(ascii_lower(s.subrange(0, c as int))) =~= ascii_lower(
                s.subrange(0, c as int),
            ));
            match host_of(&token) {
                Some(host) => Ok((host, c + 1)),
                None => {
                    assert(s.subrange(0, source.len() as int) =~= s);
                    Err(
                        ParseError {
                            kind: ParseErrorKind::InvalidHost,
                            token,
                            span: Some(
                                Span {
                                    offset: byte_len_of(source, 0, 0),
                                    length: byte_len_of(source, 0, c),
                                },
                            ),
                            source: text_of(source, 0, source.len()),
                        },
                    )
                },
            }
        },
        None => Ok((RepositoryHost::GitHub, 0)),
    }
}

/// The index of the `/` that ends the user name, which starts at `from`.
fn read_user(source: &Vec<char>, from: usize) -> (result: Result<usize, ParseError>)
    requires
        from <= source.len(),
    ensures
        match parse_user(source@, from as int) {
            Ok(slash) => result == Ok::<usize, ParseError>(slash as usize) && from <= slash
                < source.len(),
            Err(e) => result matches Err(x) && x@ == e,
        },
{
    let ghost s = source@;
    proof {
        assert(s.subrange(0, source.len() as int) =~= s);
    }
    match find_char(source, '/', from) {
        Some(slash) => {
            if is_name(source, from, slash, true) {
                Ok(slash)
            } else {
                Err(
                    ParseError {
                        kind: ParseErrorKind::InvalidUser,
                        token: text_of(source, from, slash),
                        span: Some(
                            Span {
                                offset: byte_len_of(source, 0, from),
                                length: byte_len_of(source, from, slash),
                            },
                        ),
                        source: text_of(source, 0, source.len()),
                    },
                )
            }
        },
        None => Err(
            ParseError {
                kind: ParseErrorKind::MissingRepository,
                token: String::new(),
                span: None,
                source: text_of(source, 0, source.len()),
            },
        ),
    }
}

/// The index at which the repository name ends, and the selector. The name
/// starts behind `slash`.
fn read_repository(source: &Vec<char>, slash: usize) -> (result: Result<
    (usize, RepositoryMeta),
    ParseError,
>)
    requires
        slash < source.len(),
    ensures
        match parse_repository(source@, slash as int) {
            Ok((repo_end, selector)) => result matches Ok(found) && found.0 == repo_end
                && found.1@ == selector && slash < repo_end <= source.len(),
            Err(e) => result matches Err(x) && x@ == e,
        },
{
    let ghost s = source@;
    let start = slash + 1;
    let end = source.len();
    proof {
        assert(s.subrange(0, end as int) =~= s);
    }
    let repo_end = match find_char(source, '#', start) {
        Some(hash) => hash,
        None => end,
    };
    if let Some(second) = find_char(source, '/', start) {
        if second < repo_end {
            return Err(
                ParseError {
                    kind: ParseErrorKind::MultipleSlashes,
                    token: String::new(),
                    span: Some(Span { offset: byte_len_of(source, 0, second), length: 1 }),
                    source: text_of(source, 0, end),
                },
            );
        }
    }
    if !is_name(source, start, repo_end, false) {
        return Err(
            ParseError {
                kind: ParseErrorKind::InvalidRepository,
                token: text_of(source, start, repo_end),
                span: Some(
                    Span {
                        offset: byte_len_of(source, 0, start),
                        length: byte_len_of(source, start, repo_end),
                    },
                ),
                source: text_of(source, 0, end),
            },
        );
    }
    if repo_end < end && repo_end + 1 < end {
        Ok((repo_end, RepositoryMeta(text_of(source, repo_end + 1, end))))
    } else {
        Ok((repo_end, RepositoryMeta::default()))
    }
}

impl RemoteRepository {
    /// The host, user, repository and selector, as mathematics.
    pub open spec fn descriptor(&self) -> Descriptor {
        Descriptor {
            host: self.host,
            user: self.user@,
            repo: self.repo@,
            selector: self.meta@,
        }
    }

    /// Parses `[host:]user/repo[#selector]`. White space around the input is
    /// ignored. The result is what the grammar says of the input: the
    /// repository with no refs yet, or the diagnostic.
    pub fn from_str(input: &str) -> (result: Result<RemoteRepository, ParseError>)
        ensures
            match parse(input@) {
                Ok(d) => result matches Ok(r) && r.descriptor() == d && r.refs@.len() == 0,
                Err(e) => result matches Err(x) && x@ == e,
            },
    {
        let source = trimmed_chars_of(input);
        RemoteRepository::from_trimmed(&source)
    }

    /// Parses the characters of a reference that has no white space around
    /// it, as [`RemoteRepository::from_str`] does.
    pub fn from_trimmed(source: &Vec<char>) -> (result: Result<RemoteRepository, ParseError>)
        ensures
            match parse_trimmed(source@) {
                Ok(d) => result matches Ok(r) && r.descriptor() == d && r.refs@.len() == 0,
                Err(e) => result matches Err(x) && x@ == e,
            },
    {
        let (host, from) = match read_host(source) {
            Ok(found) => found,
            Err(e) => {
                return Err(e);
            },
        };
        let slash = match read_user(source, from) {
            Ok(slash) => slash,
            Err(e) => {
                return Err(e);
            },
        };
        let (repo_end, meta) = match read_repository(source, slash) {
            Ok(found) => found,
            Err(e) => {
                return Err(e);
            },
        };
        Ok(
            RemoteRepository {
                host,
                user: text_of(source, from, slash),
                repo: text_of(source, slash + 1, repo_end),
                meta,
                refs: RefMap::new(),
            },
        )
    }
}

impl RemoteRepository {
    /// Parses `target`. A `meta` that is given and not empty takes the place
    /// of the selector in `target`; an empty one counts as none given. The
    /// selector of the result is never empty: it is `HEAD` where neither
    /// names one.
    pub fn new(target: String, meta: Option<String>) -> (result: Result<
        RemoteRepository,
        ParseError,
    >)
        ensures
            match parse(target@) {
                Ok(d) => result matches Ok(r) && r.refs@.len() == 0 && r.descriptor() == (Descriptor {
                    selector: chosen_selector(text_view(meta), d.selector),
                    ..d
                }) && r.meta@.len() > 0,
                Err(e) => result matches Err(x) && x@ == e,
            },
    {
        proof {
            lemma_parsed(trim(target@));
        }
        match RemoteRepository::from_str(target.as_str()) {
            Ok(repository) => {
                let RemoteRepository { host, user, repo, meta: parsed, refs } = repository;
                let meta = match meta {
                    Some(given) => if given.as_str().is_empty() {
                        parsed
                    } else {
                        RepositoryMeta(given)
                    },
                    None => parsed,
                };
                Ok(RemoteRepository { host, user, repo, meta, refs })
            },
            Err(e) => Err(e),
        }
    }

    /// The URL of the archive of the selected revision.
    pub fn get_tar_url(&self) -> (url: String)
        ensures
            url@ == tar_url(self.descriptor()),
    {
        match self.host {
            RepositoryHost::GitHub => {
                let mut url = String::from_str("https://github.com/");
                url.append(self.user.as_str());
                url.append("/");
                url.append(self.repo.as_str());
                url.append("/archive/");
                url.append(self.meta.0.as_str());
                url.append(".tar.gz");
                url
            },
            RepositoryHost::GitLab => {
                let mut url = String::from_str("https://gitlab.com/");
                url.append(self.user.as_str());
                url.append("/");
                url.append(self.repo.as_str());
                url.append("/-/archive/");
                url.append(self.meta.0.as_str());
                url.append("/");
                url.append(self.repo.as_str());
                url.append(".tar.gz");
                url
            },
            RepositoryHost::BitBucket => {
                let mut url = String::from_str("https://bitbucket.org/");
                url.append(self.user.as_str());
                url.append("/");
                url.append(self.repo.as_str());
                url.append("/get/");
                url.append(self.meta.0.as_str());
                url.append(".tar.gz");
                url
            },
        }
    }

    /// The URL of the repository as a git remote.
    pub fn get_git_url(&self) -> (url: String)
        ensures
            url@ == git_url(self.descriptor()),
    {
        let mut url = match self.host {
            RepositoryHost::GitHub => String::from_str("https://github.com/"),
            RepositoryHost::GitLab => String::from_str("https://gitlab.com/"),
            RepositoryHost::BitBucket => String::from_str("https://bitbucket.org/"),
        };
        url.append(self.user.as_str());
        url.append("/");
        url.append(self.repo.as_str());
        url.append(".git");
        url
    }

    /// The identity of the repository, `host:user/repo`.
    pub fn get_source(&self) -> (source: String)
        ensures
            source@ == identity(self.descriptor()),
    {
        let mut source = self.host.to_string();
        source.append(":");
        source.append(self.user.as_str());
        source.append("/");
        source.append(self.repo.as_str());
        source
    }

    /// Takes in the refs that the remote listed, first to last, each as its
    /// full name and the hash it points at. `HEAD`, branches and tags are
    /// kept under their short names; a name listed again points at the later
    /// hash.
    pub fn fetch_refs(&mut self, listing: &Vec<(String, String)>)
        ensures
            final(self).refs@ == with_listing(old(self).refs@, listing_view(listing@)),
            final(self).descriptor() == old(self).descriptor(),
    {
        let ghost all = listing_view(listing@);
        let mut i: usize = 0;
        while i < listing.len()
            invariant
                i <= listing.len(),
                all == listing_view(listing@),
                self.descriptor() == old(self).descriptor(),
                self.refs@ == with_listing(old(self).refs@, all.take(i as int)),
            decreases listing.len() - i,
        {
            proof {
                assert(all.take(i + 1).drop_last() =~= all.take(i as int));
            }
            self.refs.record(listing[i].0.as_str(), listing[i].1.clone());
            i += 1;
        }
        proof {
            assert(all.take(i as int) =~= all);
        }
    }

    /// The commit that the selector stands for among the refs fetched so
    /// far, as `resolve` says; `InvalidSelector` with the selector where
    /// it stands for none.
    pub fn resolve_hash(&self) -> (result: Result<String, ReferenceError>)
        ensures
            match resolve(self.refs@, self.meta@) {
                Some(hash) => result matches Ok(found) && found@ == hash,
                None => result matches Err(ReferenceError::InvalidSelector(selector))
                    && selector@ == self.meta@,
            },
    {
        match self.refs.resolve(self.meta.0.as_str()) {
            Some(hash) => Ok(hash),
            None => Err(ReferenceError::InvalidSelector(self.meta.to_string())),
        }
    }

    /// What a transfer of the archive yields: its bytes, or why there are
    /// none. An answer that is no success is reported with its status; the
    /// report names the URL, and says for 404 that the revision was not found.
    pub fn fetch(&self, transfer: Transfer) -> (result: Result<Vec<u8>, FetchError>)
        ensures
            match fetched(tar_url(self.descriptor()), transfer) {
                Ok(bytes) => result matches Ok(found) && found@ == bytes,
                Err(e) => result matches Err(x) && x@ == e,
            },
    {
        let url = self.get_tar_url();
        match transfer {
            Transfer::Failed { code: None } => Err(FetchError::RequestFailed),
            Transfer::Failed { code: Some(code) } => Err(
                FetchError::RequestFailedWithCode { code, report: joined("\n\nURL: ", url.as_str()) },
            ),
            Transfer::Answered { status, success, body } => {
                if !success {
                    let report = if status == 404 {
                        joined(
                            "The requested branch, tag or commit was not found.\n\nURL: ",
                            url.as_str(),
                        )
                    } else {
                        joined("\n\nURL: ", url.as_str())
                    };
                    Err(FetchError::RequestFailedWithCode { code: status, report })
                } else {
                    match body {
                        Some(bytes) => Ok(bytes),
                        None => Err(FetchError::RequestBodyFailed),
                    }
                }
            },
        }
    }
}

/// A listing as mathematics.
pub open spec fn listing_view(listing: Seq<(String, String)>) -> Refs {
    Seq::new(listing.len(), |i: int| (listing[i].0@, listing[i].1@))
}

/// Why a local repository could not be copied.
#[derive(Debug, PartialEq)]
pub enum RepositoryError {
    /// A directory could not be made or a file could not be copied.
    Io { message: String },
}

impl RepositoryError {
    /// The directories down to `parent` could not be made.
    pub fn create_failed(parent: &str) -> (error: RepositoryError)
        ensures
            error->message@ == "Failed to create directory structure for '"@ + parent@ + "'."@,
    {
        let head = joined("Failed to create directory structure for '", parent);
        RepositoryError::Io { message: joined(head.as_str(), "'.") }
    }

    /// The file `from` could not be copied to `to`.
    pub fn copy_failed(from: &str, to: &str) -> (error: RepositoryError)
        ensures
            error->message@ == "Failed to copy from '"@ + from@ + "' to '"@ + to@ + "'."@,
    {
        let mut message = joined("Failed to copy from '", from);
        message.append("' to '");
        message.append(to);
        message.append("'.");
        RepositoryError::Io { message }
    }

    /// The message.
    pub fn to_string(&self) -> (text: String)
        ensures
            text@ == self->message@,
    {
        match self {
            RepositoryError::Io { message } => message.clone(),
        }
    }
}

/// A repository on this machine: a git repository to clone and check out,
/// or a directory to copy as it is.
#[derive(Debug, PartialEq)]
pub struct LocalRepository {
    /// Where the repository lies.
    pub source: String,
    pub meta: RepositoryMeta,
}

impl LocalRepository {
    /// The repository at `source`, at `meta` or, without one, at `HEAD`.
    pub fn new(source: String, meta: Option<String>) -> (repository: LocalRepository)
        ensures
            repository.source@ == source@,
            repository.meta@ == match meta {
                Some(m) => m@,
                None => default_selector(),
            },
    {
        let meta = match meta {
            Some(m) => RepositoryMeta(m),
            None => RepositoryMeta::default(),
        };
        LocalRepository { source, meta }
    }

    /// What to do next to check the copy out, given the step that was done
    /// and how it went. It starts with [`Checkout::Open`] and ends with
    /// [`Checkout::Done`] or with the error that stopped it.
    pub fn checkout(&self, step: Checkout, event: CheckoutEvent) -> (result: Result<
        Checkout,
        CheckoutError,
    >)
        ensures
            match next_task(self.meta@, step@, event) {
                Ok(task) => result matches Ok(next) && next@ == task,
                Err(halt) => result matches Err(e) && e@ == halt,
            },
    {
        next_step(self.meta.0.as_str(), step, event)
    }
}

} // verus!
