use awesomelify::server::{repo_page_uri, CtxBuilder, RepoPageQuery, RepoPageView, RepoSort};
use awesomelify::source::{RepoDetails, RepoIdent};

#[test]
fn page_query_builders() {
    let q = RepoPageQuery { view: None, sort: None };
    let q = q.with_view(RepoPageView::List);
    assert_eq!(q.view, Some(RepoPageView::List));
    assert_eq!(q.sort, None);
    let q = q.with_sort(RepoSort::Stars);
    assert_eq!(q.sort, Some(RepoSort::Stars));
    assert_eq!(q.view, Some(RepoPageView::List));
    let q = q.with_view(RepoPageView::SingleTable);
    assert_eq!(q.view, Some(RepoPageView::SingleTable));
    assert_eq!(q.sort, Some(RepoSort::Stars));
}

#[test]
fn page_query_strings() {
    let none = RepoPageQuery { view: None, sort: None };
    assert_eq!(none.to_query(), "?");
    let v = RepoPageQuery { view: Some(RepoPageView::TablePerCategory), sort: None };
    assert_eq!(v.to_query(), "?view=table-per-category");
    let s = RepoPageQuery { view: None, sort: Some(RepoSort::Updated) };
    assert_eq!(s.to_query(), "?sort=updated");
    let both = RepoPageQuery { view: Some(RepoPageView::List), sort: Some(RepoSort::Title) };
    assert_eq!(both.to_query(), "?view=list&sort=title");
}

#[test]
fn repo_page_uris() {
    let id = RepoIdent::new_github("owner", "repo");
    assert_eq!(repo_page_uri(&id), "/repo/github/owner/repo");
}

#[test]
fn ctx_builder_settings() {
    let b = CtxBuilder::new("data".to_string());
    assert_eq!(b.data_dir, "data");
    assert_eq!(b.github_token, None);
    let b = b.github_token(Some("token123".to_string()));
    assert_eq!(b.github_token.as_deref(), Some("token123"));
}

#[test]
fn relative_time_buckets() {
    let mk = |pushed: Option<i64>, merged: Option<i64>| RepoDetails {
        ident: RepoIdent::new_github("o", "r"),
        description: None,
        last_pushed_at: pushed,
        total_pull_requests: 0,
        stargazer_count: 0,
        fork_count: 0,
        issues: 0,
        last_pullrequest_merged_at: merged,
        primary_language: None,
        languages: Vec::new(),
        updated_at: 0,
    };
    let day = 86400;
    assert_eq!(mk(None, None).last_activity_relative_time(0), None);
    assert_eq!(mk(None, None).last_activity(), None);
    assert_eq!(mk(Some(5), Some(9)).last_activity(), Some(5));
    assert_eq!(mk(None, Some(9)).last_activity(), Some(9));
    let at = |days: i64| mk(Some(0), None).last_activity_relative_time(days * day).unwrap();
    assert_eq!(at(0), "today");
    assert_eq!(at(1), "yesterday");
    assert_eq!(at(3), "3 days");
    assert_eq!(at(10), "1 week");
    assert_eq!(at(21), "3 weeks");
    assert_eq!(at(45), "1 month");
    assert_eq!(at(90), "3 months");
    assert_eq!(at(400), "1 year");
    assert_eq!(at(3 * 365), "3 years");
    // a timestamp in the future reads as today
    assert_eq!(mk(Some(100 * day), None).last_activity_relative_time(0).unwrap(), "today");
}
