//! The server-facing value types: the repository page's query options,
//! the search query, the import reply, the context builder's settings and
//! the page URI scheme. The HTTP layer itself belongs to the caller.

use vstd::prelude::*;
use crate::source::RepoIdent;

verus! {

/// How the repository page lays its links out.
#[derive(Debug, Clone, Copy, PartialEq, Eq, Structural)]
pub enum RepoPageView {
    SingleTable,
    TablePerCategory,
    List,
}

/// How the repository page orders its links.
#[derive(Debug, Clone, Copy, PartialEq, Eq, Structural)]
pub enum RepoSort {
    Title,
    Stars,
    Updated,
}

/// The query-string name of a layout choice.
pub open spec fn spec_view_code(v: RepoPageView) -> Seq<char> {
    match v {
        RepoPageView::SingleTable => "single-table"@,
        RepoPageView::TablePerCategory => "table-per-category"@,
        RepoPageView::List => "list"@,
    }
}

/// The query-string name of a sort choice.
pub open spec fn spec_sort_code(s: RepoSort) -> Seq<char> {
    match s {
        RepoSort::Title => "title"@,
        RepoSort::Stars => "stars"@,
        RepoSort::Updated => "updated"@,
    }
}

/// The query-string name of a layout choice.
pub fn view_code(v: RepoPageView) -> (r: &'static str)
    ensures
        r@ == spec_view_code(v),
{
    match v {
        RepoPageView::SingleTable => "single-table",
        RepoPageView::TablePerCategory => "table-per-category",
        RepoPageView::List => "list",
    }
}

/// The query-string name of a sort choice.
pub fn sort_code(s: RepoSort) -> (r: &'static str)
    ensures
        r@ == spec_sort_code(s),
{
    match s {
        RepoSort::Title => "title",
        RepoSort::Stars => "stars",
        RepoSort::Updated => "updated",
    }
}

/// The options of one repository page request.
#[derive(Debug, Clone)]
pub struct RepoPageQuery {
    pub view: Option<RepoPageView>,
    pub sort: Option<RepoSort>,
}

/// The query string the options serialize to, with its leading `?`:
/// present fields in declaration order, joined by `&`.
pub open spec fn spec_page_query(
    view: Option<RepoPageView>,
    sort: Option<RepoSort>,
) -> Seq<char> {
    match (view, sort) {
        (None, None) => "?"@,
        (Some(v), None) => "?"@ + "view="@ + spec_view_code(v),
        (None, Some(s)) => "?"@ + "sort="@ + spec_sort_code(s),
        (Some(v), Some(s)) => "?"@ + "view="@ + spec_view_code(v) + "&"@ + "sort="@
            + spec_sort_code(s),
    }
}

impl RepoPageQuery {
    /// The same query with the layout replaced.
    pub fn with_view(self, view: RepoPageView) -> (r: Self)
        ensures
            r.view == Some(view),
            r.sort == self.sort,
    {
        Self { view: Some(view), ..self }
    }

    /// The same query with the sort order replaced.
    pub fn with_sort(self, sort: RepoSort) -> (r: Self)
        ensures
            r.sort == Some(sort),
            r.view == self.view,
    {
        Self { sort: Some(sort), ..self }
    }

    /// The query string these options serialize to, with its leading `?`.
    pub fn to_query(&self) -> (r: String)
        ensures
            r@ == spec_page_query(self.view, self.sort),
    {
        let mut s = String::new();
        s.append("?");
        match self.view {
            Some(v) => {
                s.append("view=");
                s.append(view_code(v));
            },
            None => (),
        }
        if self.view.is_some() && self.sort.is_some() {
            s.append("&");
        }
        match self.sort {
            Some(so) => {
                s.append("sort=");
                s.append(sort_code(so));
            },
            None => (),
        }
        proof {
            assert(s@ =~= spec_page_query(self.view, self.sort));
        }
        s
    }
}

/// One search request: the text the user typed.
#[derive(Debug, Clone)]
pub struct SearchQuery {
    pub q: String,
}

/// The reply of a successful import request.
#[derive(Debug)]
pub struct ImportResult {
}

/// What the server needs to come up: where data lives and how to talk to
/// the source.
#[derive(Debug)]
pub struct CtxBuilder {
    pub data_dir: String,
    pub github_token: Option<String>,
}

impl CtxBuilder {
    /// Settings with the given data directory and no source token.
    pub fn new(data_dir: String) -> (r: Self)
        ensures
            r.data_dir@ == data_dir@,
            r.github_token is None,
    {
        CtxBuilder { data_dir, github_token: None }
    }

    /// The same settings with the source token replaced.
    pub fn github_token(self, token: Option<String>) -> (r: Self)
        ensures
            r.github_token == token,
            r.data_dir@ == self.data_dir@,
    {
        Self { github_token: token, ..self }
    }
}

/// The page URI of one repository: `/repo/<source>/<owner>/<repo>`.
pub fn repo_page_uri(ident: &RepoIdent) -> (r: String)
    ensures
        r@ == "/repo/"@ + crate::source::spec_source_name(ident.source) + "/"@ + ident.owner@
            + "/"@ + ident.repo@,
{
    let mut s = String::new();
    s.append("/repo/");
    s.append(ident.source.as_str());
    s.append("/");
    s.append(ident.owner.as_str());
    s.append("/");
    s.append(ident.repo.as_str());
    s
}

} // verus!
