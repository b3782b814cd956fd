//! Identifiers and records for remote repositories: the `RepoIdent` triple,
//! per-repository metadata snapshots, list documents parsed from readmes,
//! and the assembled view of a list document together with the metadata of
//! the repositories it links to.

use vstd::prelude::*;
use core::cmp::Ordering;
use crate::strutil::{
    chars_lt, lemma_chars_lt_trans, lemma_chars_lt_trichotomy, spec_split, spec_starts_with,
    spec_trim, split_str, starts_with_str, str_cmp, trim_ws,
};

verus! {

/// The remote systems that repositories can come from.
#[derive(Clone, Copy, Debug, PartialEq, Eq, Hash, Structural)]
pub enum Source {
    Github,
}

/// The short name of a source.
pub open spec fn spec_source_name(s: Source) -> Seq<char> {
    "github"@
}

/// The web domain of a source.
pub open spec fn spec_source_domain(s: Source) -> Seq<char> {
    "github.com"@
}

impl Source {
    /// The short name of this source, as used in URLs of this service.
    pub fn as_str(&self) -> (r: &'static str)
        ensures
            r@ == spec_source_name(*self),
    {
        match self {
            Source::Github => "github",
        }
    }

    /// The web domain this source lives under.
    pub fn domain(&self) -> (r: &'static str)
        ensures
            r@ == spec_source_domain(*self),
    {
        match self {
            Source::Github => "github.com",
        }
    }
}

/// Why a string could not be read as a repository identifier.
#[derive(Clone, Copy, Debug, PartialEq, Eq, Structural)]
pub enum IdentError {
    /// The source name is not one of the known sources.
    UnknownSource,
    /// The string is not a URL with a host.
    InvalidUrl,
    /// The URL's host is not a known source domain.
    UnsupportedHost,
    /// The URL path has no non-empty owner segment.
    MissingOwner,
    /// The URL path has no non-empty repository segment.
    MissingRepo,
    /// A `github.com/...` identifier is not of the form `github.com/<org>/<repo>`.
    InvalidGithubPath,
    /// A plain identifier is not of the form `<org>/<repo>`.
    InvalidIdent,
}

impl core::str::FromStr for Source {
    type Err = IdentError;

    fn from_str(s: &str) -> Result<Self, Self::Err> {
        if crate::strutil::str_eq(s, "github") {
            Ok(Source::Github)
        } else {
            Err(IdentError::UnknownSource)
        }
    }
}

/// Mathematical value of a `RepoIdent`.
#[verifier::ext_equal]
pub ghost struct IdentV {
    pub source: Source,
    pub owner: Seq<char>,
    pub repo: Seq<char>,
}

/// Identifies one repository of one source: `{source, owner, repo}`.
/// Owner and repository names are kept exactly as the source reported them,
/// including their case.
#[derive(Debug, Eq, Hash)]
pub struct RepoIdent {
    pub source: Source,
    pub owner: String,
    pub repo: String,
}

impl View for RepoIdent {
    type V = IdentV;

    open spec fn view(&self) -> IdentV {
        IdentV { source: self.source, owner: self.owner@, repo: self.repo@ }
    }
}

impl DeepView for RepoIdent {
    type V = IdentV;

    open spec fn deep_view(&self) -> IdentV {
        self.view()
    }
}

impl Clone for RepoIdent {
    fn clone(&self) -> (r: Self)
        ensures
            r == *self,
    {
        RepoIdent {
            source: self.source,
            owner: self.owner.clone(),
            repo: self.repo.clone(),
        }
    }
}

impl PartialEq for RepoIdent {
    fn eq(&self, other: &Self) -> (r: bool) {
        let sources_eq = match (self.source, other.source) {
            (Source::Github, Source::Github) => true,
        };
        sources_eq && self.owner == other.owner && self.repo == other.repo
    }
}

impl vstd::std_specs::cmp::PartialEqSpecImpl for RepoIdent {
    open spec fn obeys_eq_spec() -> bool {
        true
    }

    open spec fn eq_spec(&self, other: &Self) -> bool {
        self@ == other@
    }
}

/// Strict order on identifier values: by owner, then repository name, the
/// strings ordered lexicographically by Unicode scalar value. All
/// identifiers share the one source, so it does not part them.
pub open spec fn ident_lt(a: IdentV, b: IdentV) -> bool {
    chars_lt(a.owner, b.owner) || (a.owner == b.owner && chars_lt(a.repo, b.repo))
}

/// The three-way comparison that `ident_lt` induces.
pub open spec fn ident_cmp_spec(a: IdentV, b: IdentV) -> Ordering {
    if ident_lt(a, b) {
        Ordering::Less
    } else if ident_lt(b, a) {
        Ordering::Greater
    } else {
        Ordering::Equal
    }
}

/// `ident_lt` is a strict total order on identifier values.
pub proof fn lemma_ident_lt_trichotomy(a: IdentV, b: IdentV)
    ensures
        ident_lt(a, b) || ident_lt(b, a) || a == b,
        ident_lt(a, b) ==> !ident_lt(b, a) && a != b,
        ident_lt(b, a) ==> !ident_lt(a, b) && a != b,
{
    lemma_chars_lt_trichotomy(a.owner, b.owner);
    lemma_chars_lt_trichotomy(a.repo, b.repo);
    if !ident_lt(a, b) && !ident_lt(b, a) {
        assert(a =~= b);
    }
}

/// Transitivity of `ident_lt`.
pub proof fn lemma_ident_lt_trans(a: IdentV, b: IdentV, c: IdentV)
    requires
        ident_lt(a, b),
        ident_lt(b, c),
    ensures
        ident_lt(a, c),
{
    lemma_chars_lt_trichotomy(a.owner, b.owner);
    lemma_chars_lt_trichotomy(b.owner, c.owner);
    lemma_chars_lt_trichotomy(a.owner, c.owner);
    if chars_lt(a.owner, b.owner) && chars_lt(b.owner, c.owner) {
        lemma_chars_lt_trans(a.owner, b.owner, c.owner);
    }
    if chars_lt(a.repo, b.repo) && chars_lt(b.repo, c.repo) {
        lemma_chars_lt_trans(a.repo, b.repo, c.repo);
    }
}

/// Three-way comparison of two identifiers.
pub fn ident_cmp(a: &RepoIdent, b: &RepoIdent) -> (o: Ordering)
    ensures
        o == ident_cmp_spec(a@, b@),
{
    proof {
        lemma_ident_lt_trichotomy(a@, b@);
    }
    let owner_cmp = str_cmp(a.owner.as_str(), b.owner.as_str());
    match owner_cmp {
        Ordering::Less => Ordering::Less,
        Ordering::Greater => Ordering::Greater,
        Ordering::Equal => str_cmp(a.repo.as_str(), b.repo.as_str()),
    }
}

impl PartialOrd for RepoIdent {
    fn partial_cmp(&self, other: &Self) -> (r: Option<Ordering>) {
        Some(ident_cmp(self, other))
    }
}

impl vstd::std_specs::cmp::PartialOrdSpecImpl for RepoIdent {
    open spec fn obeys_partial_cmp_spec() -> bool {
        true
    }

    open spec fn partial_cmp_spec(&self, other: &Self) -> Option<Ordering> {
        Some(ident_cmp_spec(self@, other@))
    }
}

/// Relies on `url::Url::parse`, `Url::host_str` and `Url::path` of the `url`
/// crate: WHATWG URL parsing. Host and path are functions of the input string
/// alone; `None` stands both for a string that does not parse as a URL and
/// for a URL without a host.
pub uninterp spec fn url_host_path(s: Seq<char>) -> Option<(Seq<char>, Seq<char>)>;

/// Relies on `url::Url::parse` (with `Url::host_str` and `Url::path`): parses
/// a URL and hands back its host and path as plain strings, or `None` when
/// the input does not parse or has no host.
#[verifier::external_body]
fn parse_url_host_path(s: &str) -> (r: Option<(String, String)>)
    ensures
        match r {
            Some(hp) => url_host_path(s@) == Some((hp.0@, hp.1@)),
            None => url_host_path(s@) is None,
        },
{
    match url::Url::parse(s) {
        Ok(u) => match u.host_str() {
            Some(h) => Some((h.to_string(), u.path().to_string())),
            None => None,
        },
        Err(_) => None,
    }
}

/// The identifier that a `github.com` URL path denotes: the first two
/// `/`-separated segments after the leading one, trimmed, both required to
/// be non-empty.
pub open spec fn spec_github_path_ident(path: Seq<char>) -> Result<IdentV, IdentError> {
    let segs = spec_split(path, '/');
    if segs.len() < 2 || spec_trim(segs[1]).len() == 0 {
        Err(IdentError::MissingOwner)
    } else if segs.len() < 3 || spec_trim(segs[2]).len() == 0 {
        Err(IdentError::MissingRepo)
    } else {
        Ok(IdentV {
            source: Source::Github,
            owner: spec_trim(segs[1]),
            repo: spec_trim(segs[2]),
        })
    }
}

/// What `RepoIdent::parse_url` returns, as a function of the input string.
pub open spec fn spec_parse_url(s: Seq<char>) -> Result<IdentV, IdentError> {
    match url_host_path(s) {
        None => Err(IdentError::InvalidUrl),
        Some(hp) => if hp.0 == "github.com"@ {
            spec_github_path_ident(hp.1)
        } else {
            Err(IdentError::UnsupportedHost)
        },
    }
}

/// `s` with every leading repetition of the prefix `p` removed.
pub open spec fn strip_prefix_all(s: Seq<char>, p: Seq<char>) -> Seq<char>
    decreases s.len(),
{
    if p.len() > 0 && spec_starts_with(s, p) && s.len() >= p.len() {
        strip_prefix_all(s.skip(p.len() as int), p)
    } else {
        s
    }
}

/// The identifier denoted by a plain `<org>/<repo>` string: exactly one `/`,
/// non-empty on both sides, nothing trimmed.
pub open spec fn spec_plain_ident(s: Seq<char>, err: IdentError) -> Result<IdentV, IdentError> {
    let segs = spec_split(s, '/');
    if segs.len() == 2 && segs[0].len() > 0 && segs[1].len() > 0 {
        Ok(IdentV { source: Source::Github, owner: segs[0], repo: segs[1] })
    } else {
        Err(err)
    }
}

/// What `RepoIdent::parse_ident` returns, as a function of the input string:
/// a full URL, a `github.com/<org>/<repo>` form, or a plain `<org>/<repo>`.
pub open spec fn spec_parse_ident(s: Seq<char>) -> Result<IdentV, IdentError> {
    if spec_parse_url(s) is Ok {
        spec_parse_url(s)
    } else if spec_starts_with(s, "github.com/"@) {
        spec_plain_ident(
            strip_prefix_all(s, "github.com/"@),
            IdentError::InvalidGithubPath,
        )
    } else {
        spec_plain_ident(s, IdentError::InvalidIdent)
    }
}

impl RepoIdent {
    /// Builds an identifier from its parts.
    pub fn new(source: Source, owner: &str, repo: &str) -> (r: Self)
        ensures
            r@ == (IdentV { source, owner: owner@, repo: repo@ }),
    {
        RepoIdent { source, owner: owner.to_owned(), repo: repo.to_owned() }
    }

    /// Builds a Github identifier from owner and repository name.
    pub fn new_github(owner: &str, repo: &str) -> (r: Self)
        ensures
            r@ == (IdentV { source: Source::Github, owner: owner@, repo: repo@ }),
    {
        Self::new(Source::Github, owner, repo)
    }

    /// Reads an identifier out of a URL. Only URLs whose host is a known
    /// source domain resolve; the owner and repository are the first two
    /// path segments.
    pub fn parse_url(url: &str) -> (r: Result<Self, IdentError>)
        ensures
            (r is Ok) == (spec_parse_url(url@) is Ok),
            r matches Ok(id) ==> spec_parse_url(url@) == Ok::<IdentV, IdentError>(id@),
            r matches Err(e) ==> spec_parse_url(url@) == Err::<IdentV, IdentError>(e),
    {
        match parse_url_host_path(url) {
            None => Err(IdentError::InvalidUrl),
            Some(hp) => {
                if crate::strutil::str_eq(hp.0.as_str(), "github.com") {
                    let segs = split_str(hp.1.as_str(), '/');
                    if segs.len() < 2 {
                        return Err(IdentError::MissingOwner);
                    }
                    let owner = trim_ws(segs[1].as_str());
                    if owner.is_empty() {
                        return Err(IdentError::MissingOwner);
                    }
                    if segs.len() < 3 {
                        return Err(IdentError::MissingRepo);
                    }
                    let repo = trim_ws(segs[2].as_str());
                    if repo.is_empty() {
                        return Err(IdentError::MissingRepo);
                    }
                    Ok(Self::new_github(owner, repo))
                } else {
                    Err(IdentError::UnsupportedHost)
                }
            },
        }
    }

    /// Reads an identifier from user input: a full URL, a
    /// `github.com/<org>/<repo>` form, or a plain `<org>/<repo>`.
    pub fn parse_ident(ident: &str) -> (r: Result<Self, IdentError>)
        ensures
            (r is Ok) == (spec_parse_ident(ident@) is Ok),
            r matches Ok(id) ==> spec_parse_ident(ident@) == Ok::<IdentV, IdentError>(id@),
            r matches Err(e) ==> spec_parse_ident(ident@) == Err::<IdentV, IdentError>(e),
    {
        match Self::parse_url(ident) {
            Ok(id) => Ok(id),
            Err(_) => {
                if starts_with_str(ident, "github.com/") {
                    let rest = strip_github_prefix(ident);
                    plain_ident(rest.as_str(), IdentError::InvalidGithubPath)
                } else {
                    plain_ident(ident, IdentError::InvalidIdent)
                }
            },
        }
    }

    /// The canonical URL of the repository.
    pub fn url(&self) -> (r: String)
        ensures
            r@ == "https://"@ + spec_source_domain(self.source) + "/"@ + self.owner@ + "/"@
                + self.repo@,
    {
        let mut s = String::new();
        s.append("https://");
        s.append(self.source.domain());
        s.append("/");
        s.append(self.owner.as_str());
        s.append("/");
        s.append(self.repo.as_str());
        s
    }

    /// The URL without a scheme, for display.
    pub fn pretty_url(&self) -> (r: String)
        ensures
            r@ == spec_source_domain(self.source) + "/"@ + self.owner@ + "/"@ + self.repo@,
    {
        let mut s = String::new();
        s.append(self.source.domain());
        s.append("/");
        s.append(self.owner.as_str());
        s.append("/");
        s.append(self.repo.as_str());
        s
    }

    /// The `<owner>/<repo>` display name.
    pub fn name(&self) -> (r: String)
        ensures
            r@ == self.owner@ + "/"@ + self.repo@,
    {
        let mut s = String::new();
        s.append(self.owner.as_str());
        s.append("/");
        s.append(self.repo.as_str());
        s
    }
}

/// Strips every leading `github.com/` from `s`.
fn strip_github_prefix(s: &str) -> (r: String)
    ensures
        r@ == strip_prefix_all(s@, "github.com/"@),
{
    let mut cur: String = s.to_owned();
    loop
        invariant
            strip_prefix_all(s@, "github.com/"@) == strip_prefix_all(cur@, "github.com/"@),
        decreases cur@.len(),
    {
        proof {
            reveal_strlit("github.com/");
        }
        if starts_with_str(cur.as_str(), "github.com/") {
            let len: usize = cur.as_str().unicode_len();
            cur = cur.as_str().substring_char(11, len).to_owned();
        } else {
            return cur;
        }
    }
}

/// Mathematical value of a `RepoLink`.
#[verifier::ext_equal]
pub ghost struct LinkV {
    pub ident: IdentV,
    pub section: Seq<Seq<char>>,
}

/// One outbound link found in a list document: the repository it points to
/// and the heading path that was active where it appeared.
#[derive(Debug, PartialEq, Eq)]
pub struct RepoLink {
    pub ident: RepoIdent,
    pub section: Vec<String>,
}

impl View for RepoLink {
    type V = LinkV;

    open spec fn view(&self) -> LinkV {
        LinkV { ident: self.ident@, section: self.section.deep_view() }
    }
}

impl DeepView for RepoLink {
    type V = LinkV;

    open spec fn deep_view(&self) -> LinkV {
        self.view()
    }
}

impl Clone for RepoLink {
    fn clone(&self) -> (r: Self)
        ensures
            r@ == self@,
    {
        let section = self.section.clone();
        proof {
            assert(section.deep_view() =~= self.section.deep_view());
        }
        RepoLink { ident: self.ident.clone(), section }
    }
}

/// Mathematical value of a `RepoDetails`.
#[verifier::ext_equal]
pub ghost struct DetailsV {
    pub ident: IdentV,
    pub description: Option<Seq<char>>,
    pub last_pushed_at: Option<i64>,
    pub total_pull_requests: u32,
    pub stargazer_count: u32,
    pub fork_count: u32,
    pub issues: u32,
    pub last_pullrequest_merged_at: Option<i64>,
    pub primary_language: Option<Seq<char>>,
    pub languages: Seq<Seq<char>>,
    pub updated_at: i64,
}

/// An immutable metadata snapshot of one repository. All timestamps are
/// unix seconds; `updated_at` is the time the snapshot was taken.
#[derive(Debug, PartialEq, Eq)]
pub struct RepoDetails {
    pub ident: RepoIdent,
    pub description: Option<String>,
    pub last_pushed_at: Option<i64>,
    pub total_pull_requests: u32,
    pub stargazer_count: u32,
    pub fork_count: u32,
    pub issues: u32,
    pub last_pullrequest_merged_at: Option<i64>,
    pub primary_language: Option<String>,
    pub languages: Vec<String>,
    pub updated_at: i64,
}

impl View for RepoDetails {
    type V = DetailsV;

    open spec fn view(&self) -> DetailsV {
        DetailsV {
            ident: self.ident@,
            description: self.description.deep_view(),
            last_pushed_at: self.last_pushed_at,
            total_pull_requests: self.total_pull_requests,
            stargazer_count: self.stargazer_count,
            fork_count: self.fork_count,
            issues: self.issues,
            last_pullrequest_merged_at: self.last_pullrequest_merged_at,
            primary_language: self.primary_language.deep_view(),
            languages: self.languages.deep_view(),
            updated_at: self.updated_at,
        }
    }
}

impl DeepView for RepoDetails {
    type V = DetailsV;

    open spec fn deep_view(&self) -> DetailsV {
        self.view()
    }
}

/// Clones an optional string, keeping its value.
fn clone_opt_string(s: &Option<String>) -> (r: Option<String>)
    ensures
        r == *s,
{
    match s {
        Some(x) => Some(x.clone()),
        None => None,
    }
}

impl Clone for RepoDetails {
    fn clone(&self) -> (r: Self)
        ensures
            r@ == self@,
    {
        let languages = self.languages.clone();
        proof {
            assert(languages.deep_view() =~= self.languages.deep_view());
        }
        RepoDetails {
            ident: self.ident.clone(),
            description: clone_opt_string(&self.description),
            last_pushed_at: self.last_pushed_at,
            total_pull_requests: self.total_pull_requests,
            stargazer_count: self.stargazer_count,
            fork_count: self.fork_count,
            issues: self.issues,
            last_pullrequest_merged_at: self.last_pullrequest_merged_at,
            primary_language: clone_opt_string(&self.primary_language),
            languages,
            updated_at: self.updated_at,
        }
    }
}

impl RepoDetails {
    /// The repository's last activity: the last push if one is recorded,
    /// otherwise the time the latest pull request was merged.
    pub fn last_activity(&self) -> (r: Option<i64>)
        ensures
            r == spec_last_activity(self@),
    {
        match self.last_pushed_at {
            Some(t) => Some(t),
            None => self.last_pullrequest_merged_at,
        }
    }

    /// The repository's last activity, as words relative to `now`:
    /// "today", "yesterday", or a count of days, weeks, months or years.
    pub fn last_activity_relative_time(&self, now: i64) -> (r: Option<String>)
        ensures
            match spec_last_activity(self@) {
                None => r is None,
                Some(t) => r matches Some(label) && label@ == spec_relative_label(
                    spec_days_between(t, now),
                ),
            },
    {
        let t = match self.last_activity() {
            Some(t) => t,
            None => {
                return None;
            },
        };
        let secs: i128 = now as i128 - t as i128;
        let days: i128 = if secs >= 0 {
            secs / 86400
        } else {
            -1
        };
        proof {
            assert(days == spec_days_between(t, now));
        }
        let label: String = if days < 1 {
            "today".to_owned()
        } else if days < 2 {
            "yesterday".to_owned()
        } else if days < 7 {
            let mut s = crate::strutil::u64_to_string(days as u64);
            s.append(" days");
            s
        } else if days < 14 {
            "1 week".to_owned()
        } else if days < 30 {
            let mut s = crate::strutil::u64_to_string((days / 7) as u64);
            s.append(" weeks");
            s
        } else if days < 60 {
            "1 month".to_owned()
        } else if days < 365 {
            let mut s = crate::strutil::u64_to_string((days / 30) as u64);
            s.append(" months");
            s
        } else if days < 730 {
            "1 year".to_owned()
        } else {
            let mut s = crate::strutil::u64_to_string((days / 365) as u64);
            s.append(" years");
            s
        };
        Some(label)
    }
}

/// The last-activity timestamp of a metadata snapshot.
pub open spec fn spec_last_activity(d: DetailsV) -> Option<i64> {
    if d.last_pushed_at is Some {
        d.last_pushed_at
    } else {
        d.last_pullrequest_merged_at
    }
}

/// Whole days from `then` to `now`; a `then` in the future counts as a
/// negative age, which every caller reads as "today".
pub open spec fn spec_days_between(then: i64, now: i64) -> int {
    if now >= then {
        (now - then) / 86400
    } else {
        -1
    }
}

/// The human-readable label of an age in days: "today", "yesterday", then
/// days, weeks, months and years, each bucket counted in its own unit.
pub open spec fn spec_relative_label(days: int) -> Seq<char> {
    if days < 1 {
        "today"@
    } else if days < 2 {
        "yesterday"@
    } else if days < 7 {
        crate::strutil::spec_dec_digits(days as nat) + " days"@
    } else if days < 14 {
        "1 week"@
    } else if days < 30 {
        crate::strutil::spec_dec_digits((days / 7) as nat) + " weeks"@
    } else if days < 60 {
        "1 month"@
    } else if days < 365 {
        crate::strutil::spec_dec_digits((days / 30) as nat) + " months"@
    } else if days < 730 {
        "1 year"@
    } else {
        crate::strutil::spec_dec_digits((days / 365) as nat) + " years"@
    }
}

/// Mathematical value of a `RepoDetailsItem`.
#[verifier::ext_equal]
pub ghost enum DetailsItemV {
    Found(DetailsV),
    NotFound { ident: IdentV, updated_at: i64 },
}

/// The outcome of looking a repository up at its source: either a metadata
/// snapshot, or the recorded, time-stamped fact that the source says the
/// repository does not exist. Both are cacheable facts.
#[derive(Debug, PartialEq, Eq)]
pub enum RepoDetailsItem {
    Found(RepoDetails),
    NotFound { ident: RepoIdent, updated_at: i64 },
}

impl View for RepoDetailsItem {
    type V = DetailsItemV;

    open spec fn view(&self) -> DetailsItemV {
        match self {
            RepoDetailsItem::Found(d) => DetailsItemV::Found(d@),
            RepoDetailsItem::NotFound { ident, updated_at } => DetailsItemV::NotFound {
                ident: ident@,
                updated_at: *updated_at,
            },
        }
    }
}

impl DeepView for RepoDetailsItem {
    type V = DetailsItemV;

    open spec fn deep_view(&self) -> DetailsItemV {
        self.view()
    }
}

impl Clone for RepoDetailsItem {
    fn clone(&self) -> (r: Self)
        ensures
            r@ == self@,
    {
        match self {
            RepoDetailsItem::Found(d) => RepoDetailsItem::Found(d.clone()),
            RepoDetailsItem::NotFound { ident, updated_at } => RepoDetailsItem::NotFound {
                ident: ident.clone(),
                updated_at: *updated_at,
            },
        }
    }
}

/// The identifier a details item speaks about.
pub open spec fn spec_item_ident(d: DetailsItemV) -> IdentV {
    match d {
        DetailsItemV::Found(details) => details.ident,
        DetailsItemV::NotFound { ident, .. } => ident,
    }
}

/// The snapshot time of a details item.
pub open spec fn spec_item_updated_at(d: DetailsItemV) -> i64 {
    match d {
        DetailsItemV::Found(details) => details.updated_at,
        DetailsItemV::NotFound { updated_at, .. } => updated_at,
    }
}

impl RepoDetailsItem {
    /// The identifier this item speaks about.
    pub fn ident(&self) -> (r: &RepoIdent)
        ensures
            r@ == spec_item_ident(self@),
    {
        match self {
            RepoDetailsItem::Found(details) => &details.ident,
            RepoDetailsItem::NotFound { ident, .. } => ident,
        }
    }

    /// Returns `true` if the item records that the repository does not exist.
    pub fn is_not_found(&self) -> (r: bool)
        ensures
            r == (self@ is NotFound),
    {
        matches!(self, RepoDetailsItem::NotFound { .. })
    }

    /// Returns `true` if the item holds a metadata snapshot.
    pub fn is_found(&self) -> (r: bool)
        ensures
            r == (self@ is Found),
    {
        matches!(self, RepoDetailsItem::Found(..))
    }

    /// The time this item was recorded.
    pub fn updated_at(&self) -> (r: i64)
        ensures
            r == spec_item_updated_at(self@),
    {
        match self {
            RepoDetailsItem::Found(x) => x.updated_at,
            RepoDetailsItem::NotFound { updated_at, .. } => *updated_at,
        }
    }
}

/// Mathematical value of a `ReadmeRepo`.
#[verifier::ext_equal]
pub ghost struct ReadmeRepoV {
    pub details: DetailsV,
    pub readme_content: Seq<char>,
    pub repo_links: Seq<LinkV>,
    pub updated_at: i64,
}

/// A list document: the repository's own metadata, the raw readme text, the
/// links extracted from it, and the time this record was built.
#[derive(Debug, PartialEq, Eq)]
pub struct ReadmeRepo {
    pub details: RepoDetails,
    pub readme_content: String,
    pub repo_links: Vec<RepoLink>,
    pub updated_at: i64,
}

impl View for ReadmeRepo {
    type V = ReadmeRepoV;

    open spec fn view(&self) -> ReadmeRepoV {
        ReadmeRepoV {
            details: self.details@,
            readme_content: self.readme_content@,
            repo_links: self.repo_links.deep_view(),
            updated_at: self.updated_at,
        }
    }
}

impl DeepView for ReadmeRepo {
    type V = ReadmeRepoV;

    open spec fn deep_view(&self) -> ReadmeRepoV {
        self.view()
    }
}

impl Clone for ReadmeRepo {
    fn clone(&self) -> (r: Self)
        ensures
            r@ == self@,
    {
        let repo_links = self.repo_links.clone();
        proof {
            assert(repo_links.deep_view() =~= self.repo_links.deep_view());
        }
        ReadmeRepo {
            details: self.details.clone(),
            readme_content: self.readme_content.clone(),
            repo_links,
            updated_at: self.updated_at,
        }
    }
}

/// Mathematical value of a `FullRepoLink`.
#[verifier::ext_equal]
pub ghost struct FullRepoLinkV {
    pub link: LinkV,
    pub details: DetailsV,
}

/// A link together with the resolved metadata of its target.
#[derive(Debug)]
pub struct FullRepoLink {
    pub link: RepoLink,
    pub details: RepoDetails,
}

impl View for FullRepoLink {
    type V = FullRepoLinkV;

    open spec fn view(&self) -> FullRepoLinkV {
        FullRepoLinkV { link: self.link@, details: self.details@ }
    }
}

impl DeepView for FullRepoLink {
    type V = FullRepoLinkV;

    open spec fn deep_view(&self) -> FullRepoLinkV {
        self.view()
    }
}

impl Clone for FullRepoLink {
    fn clone(&self) -> (r: Self)
        ensures
            r@ == self@,
    {
        FullRepoLink { link: self.link.clone(), details: self.details.clone() }
    }
}

/// Mathematical value of a `FullReadmeRepo`.
#[verifier::ext_equal]
pub ghost struct FullReadmeRepoV {
    pub repo: ReadmeRepoV,
    pub links: Seq<FullRepoLinkV>,
    pub not_found: Seq<IdentV>,
}

/// The assembled view of one list document: the document itself, the links
/// whose target metadata is resolved, and the targets the source reports as
/// non-existent.
#[derive(Debug)]
pub struct FullReadmeRepo {
    pub repo: ReadmeRepo,
    pub links: Vec<FullRepoLink>,
    pub not_found: Vec<RepoIdent>,
}

impl View for FullReadmeRepo {
    type V = FullReadmeRepoV;

    open spec fn view(&self) -> FullReadmeRepoV {
        FullReadmeRepoV {
            repo: self.repo@,
            links: self.links.deep_view(),
            not_found: self.not_found.deep_view(),
        }
    }
}

impl DeepView for FullReadmeRepo {
    type V = FullReadmeRepoV;

    open spec fn deep_view(&self) -> FullReadmeRepoV {
        self.view()
    }
}

impl Clone for FullReadmeRepo {
    fn clone(&self) -> (r: Self)
        ensures
            r@ == self@,
    {
        let links = self.links.clone();
        let not_found = self.not_found.clone();
        proof {
            assert(links.deep_view() =~= self.links.deep_view());
            assert(not_found.deep_view() =~= self.not_found.deep_view());
        }
        FullReadmeRepo { repo: self.repo.clone(), links, not_found }
    }
}

/// The identifiers a sequence of links points at, in order.
pub open spec fn link_idents(links: Seq<LinkV>) -> Seq<IdentV> {
    Seq::new(links.len(), |i: int| links[i].ident)
}

/// The identifiers a sequence of resolved links points at, in order.
pub open spec fn resolved_idents(links: Seq<FullRepoLinkV>) -> Seq<IdentV> {
    Seq::new(links.len(), |i: int| links[i].link.ident)
}

/// Is `x` a link target of the document that is neither resolved nor known
/// to be missing at the source? These are the targets still awaiting
/// resolution.
pub open spec fn spec_is_missing(f: FullReadmeRepoV, x: IdentV) -> bool {
    link_idents(f.repo.repo_links).contains(x) && !resolved_idents(f.links).contains(x)
        && !f.not_found.contains(x)
}

/// Strictly increasing in the identifier order: sorted with no duplicates.
pub open spec fn sorted_unique(s: Seq<IdentV>) -> bool {
    forall|i: int, j: int| 0 <= i < j < s.len() ==> ident_lt(s[i], s[j])
}

/// `x` inserted into `s` at its place in the identifier order; `s` is
/// returned unchanged if it already holds `x`.
pub open spec fn spec_insert_unique(s: Seq<IdentV>, x: IdentV) -> Seq<IdentV>
    decreases s.len(),
{
    if s.len() == 0 {
        seq![x]
    } else if ident_lt(s[0], x) {
        seq![s[0]] + spec_insert_unique(s.drop_first(), x)
    } else if s[0] == x {
        s
    } else {
        seq![x] + s
    }
}

/// The unresolved link targets of an assembled view, collected in document
/// order into a sorted set.
pub open spec fn spec_missing_from(
    links: Seq<LinkV>,
    resolved: Seq<IdentV>,
    not_found: Seq<IdentV>,
    i: int,
    acc: Seq<IdentV>,
) -> Seq<IdentV>
    decreases links.len() - i,
{
    if i < 0 || i >= links.len() {
        acc
    } else {
        let x = links[i].ident;
        let acc2 = if !resolved.contains(x) && !not_found.contains(x) {
            spec_insert_unique(acc, x)
        } else {
            acc
        };
        spec_missing_from(links, resolved, not_found, i + 1, acc2)
    }
}

/// The sorted, deduplicated set of unresolved link targets of a view.
pub open spec fn spec_missing_links(f: FullReadmeRepoV) -> Seq<IdentV> {
    spec_missing_from(
        f.repo.repo_links,
        resolved_idents(f.links),
        f.not_found,
        0,
        Seq::empty(),
    )
}

/// Splitting `spec_insert_unique` at a prefix of elements below `x`.
proof fn lemma_insert_unique_split(s: Seq<IdentV>, x: IdentV, k: int)
    requires
        0 <= k <= s.len(),
        forall|j: int| 0 <= j < k ==> ident_lt(s[j], x),
    ensures
        spec_insert_unique(s, x) == s.take(k) + spec_insert_unique(s.skip(k), x),
    decreases k,
{
    if k == 0 {
        assert(s.take(0) =~= Seq::<IdentV>::empty());
        assert(s.skip(0) =~= s);
        assert(s.take(0) + spec_insert_unique(s, x) =~= spec_insert_unique(s, x));
    } else {
        assert(ident_lt(s[0], x));
        lemma_insert_unique_split(s.drop_first(), x, k - 1);
        assert(s.drop_first().take(k - 1) =~= s.take(k).drop_first());
        assert(s.drop_first().skip(k - 1) =~= s.skip(k));
        assert(seq![s[0]] + (s.take(k).drop_first() + spec_insert_unique(s.skip(k), x)) =~= s.take(
            k,
        ) + spec_insert_unique(s.skip(k), x));
    }
}

/// Membership in a singleton-prepended sequence.
proof fn lemma_cons_contains(a: IdentV, s: Seq<IdentV>, y: IdentV)
    ensures
        (seq![a] + s).contains(y) == (y == a || s.contains(y)),
{
    let t = seq![a] + s;
    if t.contains(y) {
        let i = choose|i: int| 0 <= i < t.len() && t[i] == y;
        if i > 0 {
            assert(s[i - 1] == y);
        }
    }
    if y == a {
        assert(t[0] == y);
    }
    if s.contains(y) {
        let i = choose|i: int| 0 <= i < s.len() && s[i] == y;
        assert(t[i + 1] == y);
    }
}

/// Inserting `x` adds exactly `x` to the members of `s`.
pub proof fn lemma_insert_unique_mem(s: Seq<IdentV>, x: IdentV, y: IdentV)
    ensures
        spec_insert_unique(s, x).contains(y) == (s.contains(y) || y == x),
    decreases s.len(),
{
    let t = spec_insert_unique(s, x);
    if s.len() == 0 {
        lemma_cons_contains(x, Seq::<IdentV>::empty(), y);
        assert(t =~= seq![x] + Seq::<IdentV>::empty());
    } else if ident_lt(s[0], x) {
        lemma_insert_unique_mem(s.drop_first(), x, y);
        lemma_cons_contains(s[0], spec_insert_unique(s.drop_first(), x), y);
        lemma_cons_contains(s[0], s.drop_first(), y);
        assert(t =~= seq![s[0]] + spec_insert_unique(s.drop_first(), x));
        assert(s =~= seq![s[0]] + s.drop_first());
    } else if s[0] == x {
        if y == x {
            assert(s.contains(y)) by {
                assert(s[0] == y);
            }
        }
    } else {
        lemma_cons_contains(x, s, y);
    }
}

/// Inserting into a sorted set keeps it sorted and adds at most one element.
pub proof fn lemma_insert_unique_sorted(s: Seq<IdentV>, x: IdentV)
    requires
        sorted_unique(s),
    ensures
        sorted_unique(spec_insert_unique(s, x)),
        spec_insert_unique(s, x).len() <= s.len() + 1,
    decreases s.len(),
{
    let t = spec_insert_unique(s, x);
    if s.len() == 0 {
    } else if ident_lt(s[0], x) {
        assert(sorted_unique(s.drop_first())) by {
            assert forall|i: int, j: int|
                0 <= i < j < s.drop_first().len() implies ident_lt(
                s.drop_first()[i],
                s.drop_first()[j],
            ) by {
                assert(s.drop_first()[i] == s[i + 1]);
                assert(s.drop_first()[j] == s[j + 1]);
            }
        }
        lemma_insert_unique_sorted(s.drop_first(), x);
        let t2 = spec_insert_unique(s.drop_first(), x);
        assert forall|i: int, j: int| 0 <= i < j < t.len() implies ident_lt(t[i], t[j]) by {
            if i == 0 {
                assert(t[j] == t2[j - 1]);
                assert(t2.contains(t[j])) by {
                    assert(t2[j - 1] == t[j]);
                }
                lemma_insert_unique_mem(s.drop_first(), x, t[j]);
                if t[j] == x {
                    assert(ident_lt(s[0], x));
                } else {
                    assert(s.drop_first().contains(t[j]));
                    let w = choose|w: int|
                        0 <= w < s.drop_first().len() && s.drop_first()[w] == t[j];
                    assert(s[w + 1] == t[j]);
                    assert(ident_lt(s[0], s[w + 1]));
                }
            } else {
                assert(t[i] == t2[i - 1] && t[j] == t2[j - 1]);
            }
        }
    } else if s[0] == x {
    } else {
        lemma_ident_lt_trichotomy(s[0], x);
        assert(ident_lt(x, s[0]));
        assert forall|i: int, j: int| 0 <= i < j < t.len() implies ident_lt(t[i], t[j]) by {
            if i == 0 {
                assert(t[j] == s[j - 1]);
                if j > 1 {
                    assert(ident_lt(s[0], s[j - 1]));
                    lemma_ident_lt_trans(x, s[0], s[j - 1]);
                }
            } else {
                assert(t[i] == s[i - 1] && t[j] == s[j - 1]);
            }
        }
    }
}

/// The missing-links fold keeps the accumulator sorted.
proof fn lemma_missing_from_sorted(
    links: Seq<LinkV>,
    resolved: Seq<IdentV>,
    not_found: Seq<IdentV>,
    i: int,
    acc: Seq<IdentV>,
)
    requires
        0 <= i <= links.len(),
        sorted_unique(acc),
    ensures
        sorted_unique(spec_missing_from(links, resolved, not_found, i, acc)),
    decreases links.len() - i,
{
    if i < links.len() {
        let x = links[i].ident;
        let keep = !resolved.contains(x) && !not_found.contains(x);
        if keep {
            lemma_insert_unique_sorted(acc, x);
            lemma_missing_from_sorted(links, resolved, not_found, i + 1, spec_insert_unique(acc, x));
        } else {
            lemma_missing_from_sorted(links, resolved, not_found, i + 1, acc);
        }
    }
}

/// Membership in the missing-links fold: the accumulator's members plus
/// every unresolved link target at or after position `i`.
proof fn lemma_missing_from_mem(
    links: Seq<LinkV>,
    resolved: Seq<IdentV>,
    not_found: Seq<IdentV>,
    i: int,
    acc: Seq<IdentV>,
    y: IdentV,
)
    requires
        0 <= i <= links.len(),
    ensures
        spec_missing_from(links, resolved, not_found, i, acc).contains(y) == (acc.contains(y)
            || exists|j: int|
            i <= j < links.len() && links[j].ident == y && !resolved.contains(y)
                && !not_found.contains(y)),
    decreases links.len() - i,
{
    if i < links.len() {
        let x = links[i].ident;
        let keep = !resolved.contains(x) && !not_found.contains(x);
        let acc2 = if keep {
            spec_insert_unique(acc, x)
        } else {
            acc
        };
        lemma_missing_from_mem(links, resolved, not_found, i + 1, acc2, y);
        if keep {
            lemma_insert_unique_mem(acc, x, y);
        }
        let r = spec_missing_from(links, resolved, not_found, i, acc);
        if r.contains(y) && !acc.contains(y) {
            if acc2.contains(y) {
                assert(keep && y == x);
                assert(i <= i < links.len() && links[i].ident == y && !resolved.contains(y)
                    && !not_found.contains(y));
            }
        }
        if !r.contains(y) {
            if exists|j: int|
                i <= j < links.len() && links[j].ident == y && !resolved.contains(y)
                    && !not_found.contains(y) {
                let j = choose|j: int|
                    i <= j < links.len() && links[j].ident == y && !resolved.contains(y)
                        && !not_found.contains(y);
                if j == i {
                    assert(acc2.contains(y));
                } else {
                    assert(i + 1 <= j < links.len() && links[j].ident == y);
                }
                assert(false);
            }
        }
    }
}

/// The unresolved set of an assembled view is the sorted, deduplicated
/// difference between the document's link targets and the targets that are
/// resolved or known missing.
pub proof fn lemma_missing_links_characterization(f: FullReadmeRepoV)
    ensures
        sorted_unique(spec_missing_links(f)),
        forall|y: IdentV| spec_missing_links(f).contains(y) == spec_is_missing(f, y),
{
    let links = f.repo.repo_links;
    let resolved = resolved_idents(f.links);
    let not_found = f.not_found;
    lemma_missing_from_sorted(links, resolved, not_found, 0, Seq::empty());
    assert forall|y: IdentV| spec_missing_links(f).contains(y) == spec_is_missing(f, y) by {
        lemma_missing_from_mem(links, resolved, not_found, 0, Seq::empty(), y);
        if link_idents(links).contains(y) {
            let j = choose|j: int| 0 <= j < link_idents(links).len() && link_idents(links)[j] == y;
            assert(links[j].ident == y);
        }
        if exists|j: int| 0 <= j < links.len() && links[j].ident == y {
            let j = choose|j: int| 0 <= j < links.len() && links[j].ident == y;
            assert(link_idents(links)[j] == y);
            assert(link_idents(links).contains(y));
        }
    }
}


/// Inserts `x` into a vector kept in ascending identifier order, unless an
/// equal identifier is already there.
#[verifier::loop_isolation(false)]
fn sorted_insert_unique(v: &mut Vec<RepoIdent>, x: RepoIdent)
    ensures
        final(v).deep_view() == spec_insert_unique(old(v).deep_view(), x@),
{
    let ghost s = v.deep_view();
    let mut k: usize = 0;
    while k < v.len()
        invariant
            0 <= k <= v.len(),
            s == v.deep_view(),
            forall|j: int| 0 <= j < k ==> ident_lt(s[j], x@),
        decreases v.len() - k,
    {
        let c = ident_cmp(&v[k], &x);
        match c {
            Ordering::Less => {
                k = k + 1;
            },
            Ordering::Equal => {
                proof {
                    lemma_ident_lt_trichotomy(s[k as int], x@);
                    lemma_insert_unique_split(s, x@, k as int);
                    assert(s.skip(k as int)[0] == s[k as int]);
                    assert(spec_insert_unique(s.skip(k as int), x@) == s.skip(k as int));
                    assert(s.take(k as int) + s.skip(k as int) =~= s);
                }
                return ;
            },
            Ordering::Greater => {
                proof {
                    lemma_ident_lt_trichotomy(s[k as int], x@);
                    lemma_insert_unique_split(s, x@, k as int);
                    assert(s.skip(k as int)[0] == s[k as int]);
                    assert(spec_insert_unique(s.skip(k as int), x@) =~= seq![x@] + s.skip(
                        k as int,
                    ));
                }
                v.insert(k, x);
                proof {
                    assert(v.deep_view() =~= s.take(k as int) + (seq![x@] + s.skip(k as int)));
                }
                return ;
            },
        }
    }
    proof {
        lemma_insert_unique_split(s, x@, s.len() as int);
        assert(s.skip(s.len() as int) =~= Seq::<IdentV>::empty());
        assert(spec_insert_unique(s.skip(s.len() as int), x@) =~= seq![x@]);
    }
    v.push(x);
    proof {
        assert(v.deep_view() =~= s.take(s.len() as int) + seq![x@]);
    }
}

/// Does any resolved link point at `x`?
fn contains_resolved(links: &Vec<FullRepoLink>, x: &RepoIdent) -> (r: bool)
    ensures
        r == resolved_idents(links.deep_view()).contains(x@),
{
    let mut i: usize = 0;
    while i < links.len()
        invariant
            0 <= i <= links.len(),
            forall|k: int| 0 <= k < i ==> resolved_idents(links.deep_view())[k] != x@,
        decreases links.len() - i,
    {
        if links[i].link.ident == *x {
            proof {
                assert(resolved_idents(links.deep_view())[i as int] == x@);
            }
            return true;
        }
        i = i + 1;
    }
    false
}

/// Is `x` among the given identifiers?
fn contains_ident(idents: &Vec<RepoIdent>, x: &RepoIdent) -> (r: bool)
    ensures
        r == idents.deep_view().contains(x@),
{
    let mut i: usize = 0;
    while i < idents.len()
        invariant
            0 <= i <= idents.len(),
            forall|k: int| 0 <= k < i ==> idents.deep_view()[k] != x@,
        decreases idents.len() - i,
    {
        if idents[i] == *x {
            proof {
                assert(idents.deep_view()[i as int] == x@);
            }
            return true;
        }
        i = i + 1;
    }
    false
}

impl FullReadmeRepo {
    /// The link targets of the document that are neither resolved nor known
    /// missing, as a sorted set without duplicates: the sorted, deduplicated
    /// difference between the document's link targets and the targets that
    /// are resolved or known missing.
    pub fn missing_links(&self) -> (r: Vec<RepoIdent>)
        ensures
            r.deep_view() == spec_missing_links(self@),
            sorted_unique(r.deep_view()),
            forall|x: IdentV| r.deep_view().contains(x) == spec_is_missing(self@, x),
    {
        proof {
            lemma_missing_links_characterization(self@);
        }
        let ghost links = self.repo.repo_links.deep_view();
        let ghost resolved = resolved_idents(self.links.deep_view());
        let ghost not_found = self.not_found.deep_view();
        let mut out: Vec<RepoIdent> = Vec::new();
        let mut i: usize = 0;
        proof {
            assert(out.deep_view() =~= Seq::<IdentV>::empty());
        }
        while i < self.repo.repo_links.len()
            invariant
                0 <= i <= self.repo.repo_links.len(),
                links == self.repo.repo_links.deep_view(),
                resolved == resolved_idents(self.links.deep_view()),
                not_found == self.not_found.deep_view(),
                spec_missing_links(self@) == spec_missing_from(
                    links,
                    resolved,
                    not_found,
                    i as int,
                    out.deep_view(),
                ),
            decreases self.repo.repo_links.len() - i,
        {
            let link = &self.repo.repo_links[i];
            proof {
                assert(links[i as int] == link@);
            }
            let in_resolved = contains_resolved(&self.links, &link.ident);
            let in_not_found = contains_ident(&self.not_found, &link.ident);
            if !in_resolved && !in_not_found {
                let ident = link.ident.clone();
                sorted_insert_unique(&mut out, ident);
            }
            i = i + 1;
        }
        out
    }

    /// How many link targets are still unresolved.
    pub fn missing_links_count(&self) -> (r: usize)
        ensures
            r == spec_missing_links(self@).len(),
    {
        self.missing_links().len()
    }

    /// Whether any link target is still unresolved.
    pub fn has_missing_links(&self) -> (r: bool)
        ensures
            r == (spec_missing_links(self@).len() > 0),
    {
        self.missing_links_count() > 0
    }
}

/// Mathematical value of a `RateLimitError`.
#[verifier::ext_equal]
pub ghost struct RateLimitErrorV {
    pub message: Seq<char>,
    pub reset_at: Option<i64>,
}

/// The remote source refused the call because of rate limiting; `reset_at`
/// is the unix time from which calls are expected to succeed again.
#[derive(Debug)]
pub struct RateLimitError {
    pub message: String,
    pub reset_at: Option<i64>,
}

impl View for RateLimitError {
    type V = RateLimitErrorV;

    open spec fn view(&self) -> RateLimitErrorV {
        RateLimitErrorV { message: self.message@, reset_at: self.reset_at }
    }
}

impl Clone for RateLimitError {
    fn clone(&self) -> (r: Self)
        ensures
            r@ == self@,
    {
        RateLimitError { message: self.message.clone(), reset_at: self.reset_at }
    }
}

/// Why loading a document or a repository's metadata failed. Transient
/// store and source failures carry the collaborator's message; the
/// rate-limit error carries the time from which calls should succeed
/// again.
#[derive(Debug)]
pub enum LoadError {
    /// The remote source is rate-limited.
    RateLimited(RateLimitError),
    /// The source affirmatively reports the document's repository missing.
    NotFound,
    /// The source handed readme content in an encoding other than base64;
    /// the field holds the encoding it named.
    UnexpectedEncoding(String),
    /// The source handed readme content that is not valid base64.
    InvalidBase64,
    /// The decoded readme is not valid UTF-8 text.
    InvalidUtf8,
    /// The readme holds no links to other repositories, so it is not a
    /// list document.
    NotAwesomeList,
    /// The persistent store failed.
    Store(String),
    /// The remote source failed in a transient way.
    Source(String),
}

impl Clone for LoadError {
    fn clone(&self) -> (r: Self)
        ensures
            r@ == self@,
    {
        match self {
            LoadError::RateLimited(e) => LoadError::RateLimited(e.clone()),
            LoadError::NotFound => LoadError::NotFound,
            LoadError::UnexpectedEncoding(s) => LoadError::UnexpectedEncoding(s.clone()),
            LoadError::InvalidBase64 => LoadError::InvalidBase64,
            LoadError::InvalidUtf8 => LoadError::InvalidUtf8,
            LoadError::NotAwesomeList => LoadError::NotAwesomeList,
            LoadError::Store(s) => LoadError::Store(s.clone()),
            LoadError::Source(s) => LoadError::Source(s.clone()),
        }
    }
}

/// Mathematical value of a `LoadError`.
#[verifier::ext_equal]
pub ghost enum LoadErrorV {
    RateLimited(RateLimitErrorV),
    NotFound,
    UnexpectedEncoding(Seq<char>),
    InvalidBase64,
    InvalidUtf8,
    NotAwesomeList,
    Store(Seq<char>),
    Source(Seq<char>),
}

impl View for LoadError {
    type V = LoadErrorV;

    open spec fn view(&self) -> LoadErrorV {
        match self {
            LoadError::RateLimited(e) => LoadErrorV::RateLimited(e@),
            LoadError::NotFound => LoadErrorV::NotFound,
            LoadError::UnexpectedEncoding(s) => LoadErrorV::UnexpectedEncoding(s@),
            LoadError::InvalidBase64 => LoadErrorV::InvalidBase64,
            LoadError::InvalidUtf8 => LoadErrorV::InvalidUtf8,
            LoadError::NotAwesomeList => LoadErrorV::NotAwesomeList,
            LoadError::Store(s) => LoadErrorV::Store(s@),
            LoadError::Source(s) => LoadErrorV::Source(s@),
        }
    }
}

/// Reads a plain `<org>/<repo>` identifier, failing with `err` otherwise.
fn plain_ident(s: &str, err: IdentError) -> (r: Result<RepoIdent, IdentError>)
    ensures
        (r is Ok) == (spec_plain_ident(s@, err) is Ok),
        r matches Ok(id) ==> spec_plain_ident(s@, err) == Ok::<IdentV, IdentError>(id@),
        r matches Err(e) ==> spec_plain_ident(s@, err) == Err::<IdentV, IdentError>(e),
{
    let segs = split_str(s, '/');
    if segs.len() == 2 && !segs[0].as_str().is_empty() && !segs[1].as_str().is_empty() {
        Ok(RepoIdent::new_github(segs[0].as_str(), segs[1].as_str()))
    } else {
        Err(err)
    }
}

} // verus!
