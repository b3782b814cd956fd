//! The verified parts of the Github gateway: the rate-limit bookkeeping,
//! the classification of a rate-limited HTTP response, the decoding of the
//! readme payload the API hands back, and the mapping of the API's
//! repository response onto the library's metadata snapshot. The HTTP
//! calls themselves belong to the caller.

use vstd::prelude::*;
use base64::Engine;
use crate::source::{DetailsV, LoadError, RepoDetails, RepoIdent};

verus! {

/// The gateway's rate-limit bookkeeping: an optional unix time before
/// which the remote source is assumed to reject every call. The caller
/// owns synchronization; this is the sequential core.
#[derive(Debug)]
pub struct RateLimitState {
    pub until: Option<i64>,
}

impl RateLimitState {
    /// A state that is not rate-limited.
    pub fn new() -> (r: Self)
        ensures
            r.until is None,
    {
        RateLimitState { until: None }
    }

    /// The deadline the source is rate-limited until, if it still lies at
    /// or after `now`; an expired deadline is cleared so later calls skip
    /// this check.
    pub fn rate_limited_until(&mut self, now: i64) -> (r: Option<i64>)
        ensures
            match old(self).until {
                Some(t) => if t >= now {
                    r == Some(t) && final(self).until == old(self).until
                } else {
                    r is None && final(self).until is None
                },
                None => r is None && final(self).until is None,
            },
    {
        match self.until {
            Some(target) => {
                if target >= now {
                    Some(target)
                } else {
                    self.until = None;
                    None
                }
            },
            None => None,
        }
    }

    /// Records a rate-limit deadline, unless it already lies in the past.
    pub fn set_rate_limited_until(&mut self, until: i64, now: i64)
        ensures
            final(self).until == if until >= now {
                Some(until)
            } else {
                old(self).until
            },
    {
        if until >= now {
            self.until = Some(until);
        }
    }
}

/// Does an HTTP response signal rate limiting? Yes exactly for status 403
/// or 429 together with a parseable reset time; the result is that reset
/// time as unix seconds.
pub open spec fn spec_rate_limit_reset(status: u16, reset_at: Option<i64>) -> Option<i64> {
    if (status == 403 || status == 429) && reset_at is Some {
        reset_at
    } else {
        None
    }
}

/// Executable classification of a response's rate-limit signal; `reset_at`
/// is the parsed `x-ratelimit-reset` header, if the response carried one.
pub fn classify_rate_limit(status: u16, reset_at: Option<i64>) -> (r: Option<i64>)
    ensures
        r == spec_rate_limit_reset(status, reset_at),
{
    if status == 403 || status == 429 {
        reset_at
    } else {
        None
    }
}

/// What the base64 decoder returns on a given input. Relies on the
/// `base64` crate's standard-alphabet engine: the decoded bytes depend on
/// the input characters alone.
pub uninterp spec fn b64_decode_of(s: Seq<char>) -> Option<Seq<u8>>;

/// Relies on `base64`'s `Engine::decode` with the standard alphabet and
/// padding: decodes base64 text into bytes, or fails on malformed input.
#[verifier::external_body]
fn b64_decode(s: &str) -> (r: Option<Vec<u8>>)
    ensures
        match r {
            Some(v) => b64_decode_of(s@) == Some(v@),
            None => b64_decode_of(s@) is None,
        },
{
    match base64::engine::general_purpose::STANDARD.decode(s) {
        Ok(v) => Some(v),
        Err(_) => None,
    }
}

/// Relies on `String::from_utf8` of std: it returns the string whose UTF-8
/// encoding is the given bytes exactly when those bytes are valid UTF-8.
#[verifier::external_body]
fn string_from_utf8(v: Vec<u8>) -> (r: Option<String>)
    ensures
        match r {
            Some(s) => vstd::utf8::valid_utf8(v@) && vstd::utf8::encode_utf8(s@) == v@,
            None => !vstd::utf8::valid_utf8(v@),
        },
{
    match String::from_utf8(v) {
        Ok(s) => Some(s),
        Err(_) => None,
    }
}

/// `s` without its newline characters.
pub open spec fn spec_without_newlines(s: Seq<char>) -> Seq<char>
    decreases s.len(),
{
    if s.len() == 0 {
        Seq::empty()
    } else if s[0] != '\n' {
        seq![s[0]] + spec_without_newlines(s.drop_first())
    } else {
        spec_without_newlines(s.drop_first())
    }
}

/// Removes every newline from a string.
fn remove_newlines(s: &str) -> (r: String)
    ensures
        r@ == spec_without_newlines(s@),
{
    let len: usize = s.unicode_len();
    let mut r = String::new();
    let mut i: usize = 0;
    proof {
        assert(s@.skip(0) =~= s@);
        assert(r@ + spec_without_newlines(s@) =~= spec_without_newlines(s@));
    }
    while i < len
        invariant
            0 <= i <= len,
            len == s@.len(),
            spec_without_newlines(s@) =~= r@ + spec_without_newlines(s@.skip(i as int)),
        decreases len - i,
    {
        proof {
            assert(s@.skip(i as int)[0] == s@[i as int]);
            assert(s@.skip(i as int).drop_first() =~= s@.skip(i as int + 1));
        }
        let c = s.get_char(i);
        if c != '\n' {
            let piece = s.substring_char(i, i + 1);
            proof {
                assert(piece@ =~= seq![s@[i as int]]);
            }
            r.append(piece);
        }
        i = i + 1;
    }
    proof {
        assert(s@.skip(len as int) =~= Seq::<char>::empty());
        assert(r@ + spec_without_newlines(Seq::<char>::empty()) =~= r@);
    }
    r
}

/// Decodes the readme payload of the source's API: the content must be
/// declared base64, is decoded with newlines stripped, and must come out
/// as UTF-8 text. Each failure is reported as its own error.
pub fn decode_readme_payload(content: &str, encoding: &str) -> (r: Result<String, LoadError>)
    ensures
        ({
            let cleaned = spec_without_newlines(content@);
            match r {
                Ok(text) => {
                    &&& encoding@ == "base64"@
                    &&& b64_decode_of(cleaned) matches Some(bytes)
                    &&& vstd::utf8::valid_utf8(bytes)
                    &&& vstd::utf8::encode_utf8(text@) == bytes
                },
                Err(e) => match e@ {
                    crate::source::LoadErrorV::UnexpectedEncoding(enc) => enc == encoding@
                        && encoding@ != "base64"@,
                    crate::source::LoadErrorV::InvalidBase64 => encoding@ == "base64"@
                        && b64_decode_of(cleaned) is None,
                    crate::source::LoadErrorV::InvalidUtf8 => {
                        &&& encoding@ == "base64"@
                        &&& b64_decode_of(cleaned) matches Some(bytes)
                        &&& !vstd::utf8::valid_utf8(bytes)
                    },
                    _ => false,
                },
            }
        }),
{
    if !crate::strutil::str_eq(encoding, "base64") {
        return Err(LoadError::UnexpectedEncoding(encoding.to_owned()));
    }
    let cleaned = remove_newlines(content);
    match b64_decode(cleaned.as_str()) {
        None => Err(LoadError::InvalidBase64),
        Some(bytes) => match string_from_utf8(bytes) {
            None => Err(LoadError::InvalidUtf8),
            Some(text) => Ok(text),
        },
    }
}

/// One language of a repository, as the source's API reports it.
#[derive(Debug, PartialEq, Eq)]
pub struct Language {
    pub name: String,
    pub color: Option<String>,
}

/// A connection in the source's API response: the nodes of one relation.
#[derive(Debug)]
pub struct Connection<T> {
    pub nodes: Vec<T>,
}

/// A count field of the source's API response.
#[derive(Debug, Clone, Copy, PartialEq, Eq)]
pub struct TotalCount {
    pub total_count: u32,
}

/// A merged pull request, reduced to its merge time (unix seconds).
#[derive(Debug, Clone, Copy, PartialEq, Eq)]
pub struct SparsePullRequest {
    pub merged_at: i64,
}

/// The owner of a repository in the source's API response.
#[derive(Debug)]
pub struct Owner {
}

/// The source's API response to the repository-details query; `None` means
/// the repository could not be resolved.
#[derive(Debug)]
pub struct RepoDetailsResponse {
    pub repository: Option<Repository>,
}

/// One repository of the source's API response, with the fields the
/// library keeps. Timestamps are unix seconds.
#[derive(Debug)]
pub struct Repository {
    pub stargazer_count: u32,
    pub fork_count: u32,
    pub pushed_at: Option<i64>,
    pub description: Option<String>,
    pub total_pull_requests: TotalCount,
    pub latest_merged_pull_request: Connection<SparsePullRequest>,
    pub issues: TotalCount,
    pub primary_language: Option<Language>,
    pub languages: Connection<Language>,
}

/// Maps the source's API response onto the library's metadata snapshot:
/// counts and description are copied, the last merged pull request gives
/// the merge time, the language names are kept in the API's order, and
/// `now` becomes the snapshot time. `None` exactly when the source could
/// not resolve the repository.
pub fn repo_details_from_response(ident: &RepoIdent, resp: RepoDetailsResponse, now: i64) -> (r:
    Option<RepoDetails>)
    ensures
        (r is Some) == (resp.repository is Some),
        resp.repository matches Some(repo) ==> (r matches Some(d) && d@ == (DetailsV {
            ident: ident@,
            description: repo.description.deep_view(),
            last_pushed_at: repo.pushed_at,
            total_pull_requests: repo.total_pull_requests.total_count,
            stargazer_count: repo.stargazer_count,
            fork_count: repo.fork_count,
            issues: repo.issues.total_count,
            last_pullrequest_merged_at: if repo.latest_merged_pull_request.nodes@.len() > 0 {
                Some(repo.latest_merged_pull_request.nodes@[0].merged_at)
            } else {
                None
            },
            primary_language: match repo.primary_language {
                Some(l) => Some(l.name@),
                None => None,
            },
            languages: Seq::new(
                repo.languages.nodes@.len(),
                |i: int| repo.languages.nodes@[i].name@,
            ),
            updated_at: now,
        })),
{
    let repo = match resp.repository {
        Some(repo) => repo,
        None => {
            return None;
        },
    };
    let last_merged = if repo.latest_merged_pull_request.nodes.len() > 0 {
        Some(repo.latest_merged_pull_request.nodes[0].merged_at)
    } else {
        None
    };
    let primary_language = match repo.primary_language {
        Some(l) => Some(l.name),
        None => None,
    };
    let mut languages: Vec<String> = Vec::new();
    let mut i: usize = 0;
    let nodes = repo.languages.nodes;
    proof {
        assert(languages.deep_view() =~= Seq::new(0nat, |k: int| nodes@[k].name@));
    }
    while i < nodes.len()
        invariant
            0 <= i <= nodes.len(),
            languages.deep_view() == Seq::new(i as nat, |k: int| nodes@[k].name@),
        decreases nodes.len() - i,
    {
        let ghost lv = languages.deep_view();
        let name = nodes[i].name.clone();
        languages.push(name);
        proof {
            assert(languages.deep_view() =~= lv.push(nodes@[i as int].name@));
            assert(languages.deep_view() =~= Seq::new((i + 1) as nat, |k: int| nodes@[k].name@));
        }
        i = i + 1;
    }
    let d = RepoDetails {
        ident: ident.clone(),
        description: repo.description,
        last_pushed_at: repo.pushed_at,
        total_pull_requests: repo.total_pull_requests.total_count,
        stargazer_count: repo.stargazer_count,
        fork_count: repo.fork_count,
        issues: repo.issues.total_count,
        last_pullrequest_merged_at: last_merged,
        primary_language,
        languages,
        updated_at: now,
    };
    Some(d)
}

} // verus!
