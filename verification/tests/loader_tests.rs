use awesomelify::loader::{
    build_readme_repo, details_item_from_fetch, doc_needs_refresh, entry_is_fresh, needs_rebuild,
    rank_popular, sort_full_by_stars, Cache, LinkOutcome, LinkResolution, LinkStep, Loader, Task,
    TaskQueue,
};
use awesomelify::source::{
    FullReadmeRepo, FullRepoLink, ReadmeRepo, RepoDetails, RepoDetailsItem, RepoIdent, RepoLink,
};

fn details(owner: &str, repo: &str, stars: u32, updated_at: i64) -> RepoDetails {
    RepoDetails {
        ident: RepoIdent::new_github(owner, repo),
        description: None,
        last_pushed_at: None,
        total_pull_requests: 0,
        stargazer_count: stars,
        fork_count: 0,
        issues: 0,
        last_pullrequest_merged_at: None,
        primary_language: None,
        languages: Vec::new(),
        updated_at,
    }
}

fn readme(owner: &str, repo: &str, stars: u32, updated_at: i64, links: Vec<RepoLink>) -> ReadmeRepo {
    ReadmeRepo {
        details: details(owner, repo, stars, updated_at),
        readme_content: String::new(),
        repo_links: links,
        updated_at,
    }
}

fn link(owner: &str, repo: &str) -> RepoLink {
    RepoLink { ident: RepoIdent::new_github(owner, repo), section: Vec::new() }
}

#[test]
fn enqueue_is_idempotent() {
    let mut q = TaskQueue::new();
    let t = Task::LoadRepoDetails(RepoIdent::new_github("o", "r"));
    q.push(t.clone());
    q.push(t.clone());
    assert_eq!(q.len(), 1);
    let popped = q.pop().unwrap();
    assert!(popped == t);
    assert!(q.pop().is_none());
}

#[test]
fn enqueue_many_dedups_per_task() {
    let mut q = TaskQueue::new();
    let a = Task::LoadRepoDetails(RepoIdent::new_github("o", "a"));
    let b = Task::LoadReadmeRepo(RepoIdent::new_github("o", "a"));
    q.push(a.clone());
    q.push_many(vec![a.clone(), b.clone(), a.clone(), b.clone()]);
    assert_eq!(q.len(), 2);
    assert!(q.pop().unwrap() == a);
    assert!(q.pop().unwrap() == b);
}

#[test]
fn queue_preserves_order() {
    let mut q = TaskQueue::new();
    let a = Task::LoadRepoDetails(RepoIdent::new_github("o", "a"));
    let b = Task::LoadRepoDetails(RepoIdent::new_github("o", "b"));
    let c = Task::LoadRepoDetails(RepoIdent::new_github("o", "c"));
    q.push(b.clone());
    q.push(a.clone());
    q.push(c.clone());
    assert!(q.pop().unwrap() == b);
    assert!(q.pop().unwrap() == a);
    assert!(q.pop().unwrap() == c);
}

#[test]
fn cache_entry_ttl() {
    let full = FullReadmeRepo {
        repo: readme("o", "r", 1, 100, vec![link("a", "b")]),
        links: Vec::new(),
        not_found: Vec::new(),
    };
    let mut cache = Cache::new();
    let id = RepoIdent::new_github("o", "r");
    assert!(cache.readme_repo(&id).is_none());
    cache.readme_repo_insert(id.clone(), full, 1000);
    let hit = cache.readme_repo(&id);
    assert_eq!(hit.as_ref().unwrap().inserted_at, 1000);
    // fresh while strictly younger than the TTL
    assert!(entry_is_fresh(hit.as_ref().unwrap(), 1059, 60));
    assert!(!entry_is_fresh(hit.as_ref().unwrap(), 1060, 60));
    // an entry at least the TTL old is treated as absent: rebuild
    assert!(needs_rebuild(&hit, 1060, 60));
    assert!(!needs_rebuild(&hit, 1030, 60));
    assert!(needs_rebuild(&None, 0, 60));
}

#[test]
fn cache_replaces_entries() {
    let id = RepoIdent::new_github("o", "r");
    let mk = |stars: u32| FullReadmeRepo {
        repo: readme("o", "r", stars, 100, vec![link("a", "b")]),
        links: Vec::new(),
        not_found: Vec::new(),
    };
    let mut cache = Cache::new();
    cache.readme_repo_insert(id.clone(), mk(1), 10);
    cache.readme_repo_insert(id.clone(), mk(2), 20);
    let hit = cache.readme_repo(&id).unwrap();
    assert_eq!(hit.inserted_at, 20);
    assert_eq!(hit.data.repo.details.stargazer_count, 2);
}

#[test]
fn missing_links_is_sorted_dedup_difference() {
    // document links: b/x twice, a/y, c/z, d/w; resolved: a/y; not-found: c/z
    let doc_links = vec![link("b", "x"), link("a", "y"), link("b", "x"), link("c", "z"), link("d", "w")];
    let full = FullReadmeRepo {
        repo: readme("o", "r", 1, 100, doc_links),
        links: vec![FullRepoLink { link: link("a", "y"), details: details("a", "y", 1, 50) }],
        not_found: vec![RepoIdent::new_github("c", "z")],
    };
    let missing = full.missing_links();
    assert_eq!(
        missing,
        vec![RepoIdent::new_github("b", "x"), RepoIdent::new_github("d", "w")]
    );
    assert_eq!(full.missing_links_count(), 2);
    assert!(full.has_missing_links());
}

#[test]
fn rate_limit_stops_resolution() {
    let self_id = RepoIdent::new_github("o", "r");
    let links = vec![link("a", "a"), link("o", "r"), link("b", "b"), link("c", "c")];
    let mut m = LinkResolution::new(self_id.clone(), links.clone(), true);
    // first link resolves
    match m.next_step() {
        LinkStep::Fetch(id) => assert_eq!(id, RepoIdent::new_github("a", "a")),
        _ => panic!("expected a fetch"),
    }
    m.apply(LinkOutcome::Found(details("a", "a", 5, 10)));
    // second link points at the document itself
    assert!(matches!(m.next_step(), LinkStep::SkipSelf));
    m.skip_current();
    // third link hits the rate limit: resolution stops at once
    assert!(matches!(m.next_step(), LinkStep::Fetch(_)));
    m.apply(LinkOutcome::RateLimited);
    assert!(matches!(m.next_step(), LinkStep::Done));
    // the remaining links are reported unresolved, not raised as an error;
    // the stored document record never holds links to itself
    let doc_links = vec![link("a", "a"), link("b", "b"), link("c", "c")];
    let full = m.into_full(readme("o", "r", 1, 100, doc_links));
    let missing = full.missing_links();
    assert_eq!(
        missing,
        vec![RepoIdent::new_github("b", "b"), RepoIdent::new_github("c", "c")]
    );
}

#[test]
fn resolution_records_not_found_and_failures() {
    let self_id = RepoIdent::new_github("o", "r");
    let links = vec![link("a", "a"), link("b", "b"), link("c", "c")];
    let mut m = LinkResolution::new(self_id, links.clone(), false);
    m.apply(LinkOutcome::NotFound);
    m.apply(LinkOutcome::Failed);
    m.apply(LinkOutcome::Missing);
    assert!(matches!(m.next_step(), LinkStep::Done));
    let full = m.into_full(readme("o", "r", 1, 100, links));
    assert_eq!(full.not_found, vec![RepoIdent::new_github("a", "a")]);
    assert_eq!(
        full.missing_links(),
        vec![RepoIdent::new_github("b", "b"), RepoIdent::new_github("c", "c")]
    );
}

#[test]
fn followups_enqueue_missing_and_stale() {
    let id = RepoIdent::new_github("o", "r");
    let full = FullReadmeRepo {
        // document last updated at time 0
        repo: readme("o", "r", 1, 0, vec![link("b", "x"), link("a", "y")]),
        links: Vec::new(),
        not_found: Vec::new(),
    };
    let mut loader = Loader::new();
    assert_eq!(loader.memory_update_time, 60);
    assert_eq!(loader.readme_storage_refresh_time, 1800);
    // now is past the document refresh interval: metadata tasks for the
    // missing links (sorted), then one document refresh task
    loader.enqueue_followups(&full, &id, 4000);
    assert!(loader.tasks.pop().unwrap() == Task::LoadRepoDetails(RepoIdent::new_github("a", "y")));
    assert!(loader.tasks.pop().unwrap() == Task::LoadRepoDetails(RepoIdent::new_github("b", "x")));
    assert!(loader.tasks.pop().unwrap() == Task::LoadReadmeRepo(id.clone()));
    assert!(loader.tasks.pop().is_none());

    // a fresh document queues no document refresh
    let mut loader2 = Loader::new();
    loader2.enqueue_followups(&full, &id, 100);
    assert_eq!(loader2.tasks.len(), 2);
}

#[test]
fn doc_staleness_boundary() {
    assert!(!doc_needs_refresh(0, 1800, 1800));
    assert!(doc_needs_refresh(0, 1801, 1800));
    assert!(!doc_needs_refresh(1000, 900, 1800));
}

#[test]
fn rank_popular_takes_top_by_stars() {
    let repos = vec![
        readme("o", "a", 5, 0, vec![]),
        readme("o", "b", 9, 0, vec![]),
        readme("o", "c", 1, 0, vec![]),
        readme("o", "d", 9, 0, vec![]),
    ];
    let top = rank_popular(repos, 3);
    let names: Vec<String> = top.iter().map(|r| r.details.ident.repo.clone()).collect();
    // descending by stars; the earlier of two equals keeps its place
    assert_eq!(names, vec!["b".to_string(), "d".to_string(), "a".to_string()]);
}

#[test]
fn rank_popular_count_larger_than_list() {
    let repos = vec![readme("o", "a", 1, 0, vec![]), readme("o", "b", 2, 0, vec![])];
    let top = rank_popular(repos, 10);
    assert_eq!(top.len(), 2);
    assert_eq!(top[0].details.stargazer_count, 2);
}

#[test]
fn sort_full_by_stars_descending() {
    let mk = |repo: &str, stars: u32| FullReadmeRepo {
        repo: readme("o", repo, stars, 0, vec![]),
        links: Vec::new(),
        not_found: Vec::new(),
    };
    let sorted = sort_full_by_stars(vec![mk("a", 2), mk("b", 7), mk("c", 5)]);
    let stars: Vec<u32> = sorted.iter().map(|f| f.repo.details.stargazer_count).collect();
    assert_eq!(stars, vec![7, 5, 2]);
}

#[test]
fn build_readme_repo_drops_self_links() {
    let id = RepoIdent::new_github("o", "r");
    let text = "[me](https://github.com/o/r)\n\n[other](https://github.com/a/b)\n".to_string();
    let repo = build_readme_repo(details("o", "r", 1, 0), text, &id, 77).unwrap();
    assert_eq!(repo.repo_links, vec![link("a", "b")]);
    assert_eq!(repo.updated_at, 77);
}

#[test]
fn build_readme_repo_rejects_non_lists() {
    let id = RepoIdent::new_github("o", "r");
    let text = "just text, and [me](https://github.com/o/r) alone\n".to_string();
    let err = build_readme_repo(details("o", "r", 1, 0), text, &id, 77).unwrap_err();
    assert!(matches!(err, awesomelify::source::LoadError::NotAwesomeList));
}

#[test]
fn details_item_from_fetch_records_both_outcomes() {
    let id = RepoIdent::new_github("o", "r");
    let found = details_item_from_fetch(&id, Some(details("o", "r", 3, 10)), 99);
    assert!(matches!(found, RepoDetailsItem::Found(_)));
    let missing = details_item_from_fetch(&id, None, 99);
    assert_eq!(missing, RepoDetailsItem::NotFound { ident: id, updated_at: 99 });
}
