use awesomelify::storage::{
    should_replace_details, should_replace_readme, FsStore, Item, MemStore, Store,
};
use awesomelify::source::{ReadmeRepo, RepoDetails, RepoDetailsItem, RepoIdent, RepoLink};

fn details(owner: &str, repo: &str, stars: u32, updated_at: i64) -> RepoDetails {
    RepoDetails {
        ident: RepoIdent::new_github(owner, repo),
        description: Some("description".to_string()),
        last_pushed_at: Some(updated_at),
        total_pull_requests: 33,
        stargazer_count: stars,
        fork_count: 44,
        issues: 55,
        last_pullrequest_merged_at: Some(updated_at),
        primary_language: Some("rust".to_string()),
        languages: vec!["Rust".to_string(), "Typescript".to_string()],
        updated_at,
    }
}

fn readme(owner: &str, repo: &str, updated_at: i64) -> ReadmeRepo {
    ReadmeRepo {
        details: details(owner, repo, 98, updated_at),
        readme_content: "readme!".to_string(),
        repo_links: vec![RepoLink {
            ident: RepoIdent::new_github("org1", "repo1"),
            section: vec!["a".to_string(), "b".to_string()],
        }],
        updated_at,
    }
}

#[test]
fn store_upsert_and_lookup() {
    let mut st = MemStore::new();
    let id = RepoIdent::new_github("o", "r");
    assert!(st.repo_details(&id).is_none());
    st.repo_details_upsert(RepoDetailsItem::Found(details("o", "r", 1, 10)));
    st.repo_details_upsert(RepoDetailsItem::Found(details("o", "r", 2, 20)));
    st.repo_details_upsert(RepoDetailsItem::Found(details("x", "y", 3, 30)));
    let got = st.repo_details(&id).unwrap();
    assert_eq!(got, RepoDetailsItem::Found(details("o", "r", 2, 20)));
    assert_eq!(st.repo_details_list().len(), 2);
}

#[test]
fn store_readme_upsert_and_lookup() {
    let mut st = MemStore::new();
    let id = RepoIdent::new_github("org3", "awesome1");
    assert!(st.readme_repo(&id).is_none());
    st.readme_repo_upsert(readme("org3", "awesome1", 10));
    st.readme_repo_upsert(readme("org3", "awesome1", 20));
    assert_eq!(st.readme_repo(&id).unwrap(), readme("org3", "awesome1", 20));
    assert_eq!(st.readme_repo_list().len(), 1);
}

#[test]
fn store_details_multi_keeps_order_and_skips_absent() {
    let mut st = MemStore::new();
    st.repo_details_upsert(RepoDetailsItem::Found(details("a", "a", 1, 10)));
    st.repo_details_upsert(RepoDetailsItem::Found(details("b", "b", 2, 20)));
    let got = st.repo_details_multi(&vec![
        RepoIdent::new_github("b", "b"),
        RepoIdent::new_github("missing", "missing"),
        RepoIdent::new_github("a", "a"),
    ]);
    assert_eq!(
        got,
        vec![
            RepoDetailsItem::Found(details("b", "b", 2, 20)),
            RepoDetailsItem::Found(details("a", "a", 1, 10)),
        ]
    );
}

#[test]
fn export_then_import_into_empty_round_trips() {
    let mut st = MemStore::new();
    st.repo_details_upsert(RepoDetailsItem::NotFound {
        ident: RepoIdent::new_github("org1", "repo1"),
        updated_at: 123,
    });
    st.repo_details_upsert(RepoDetailsItem::Found(details("org2", "repo2", 123, 99)));
    st.readme_repo_upsert(readme("org3", "awesome1", 77));

    let exported = st.export();
    assert_eq!(exported.len(), 3);

    let mut fresh = MemStore::new();
    fresh.import(exported.clone());
    assert_eq!(fresh.export(), exported);
}

#[test]
fn import_older_found_over_newer_found_is_noop() {
    let mut st = MemStore::new();
    st.repo_details_upsert(RepoDetailsItem::Found(details("o", "r", 5, 100)));
    st.import(vec![Item::Repo(RepoDetailsItem::Found(details("o", "r", 9, 50)))]);
    let got = st.repo_details(&RepoIdent::new_github("o", "r")).unwrap();
    assert_eq!(got, RepoDetailsItem::Found(details("o", "r", 5, 100)));
}

#[test]
fn import_found_over_not_found_always_replaces() {
    let mut st = MemStore::new();
    st.repo_details_upsert(RepoDetailsItem::NotFound {
        ident: RepoIdent::new_github("o", "r"),
        updated_at: 1000,
    });
    // even an older snapshot wins over a not-found fact
    st.import(vec![Item::Repo(RepoDetailsItem::Found(details("o", "r", 9, 50)))]);
    let got = st.repo_details(&RepoIdent::new_github("o", "r")).unwrap();
    assert_eq!(got, RepoDetailsItem::Found(details("o", "r", 9, 50)));
}

#[test]
fn import_not_found_never_overwrites_found() {
    let mut st = MemStore::new();
    st.repo_details_upsert(RepoDetailsItem::Found(details("o", "r", 9, 50)));
    st.import(vec![Item::Repo(RepoDetailsItem::NotFound {
        ident: RepoIdent::new_github("o", "r"),
        updated_at: 1000,
    })]);
    let got = st.repo_details(&RepoIdent::new_github("o", "r")).unwrap();
    assert_eq!(got, RepoDetailsItem::Found(details("o", "r", 9, 50)));
}

#[test]
fn import_newer_not_found_replaces_older_not_found() {
    let id = RepoIdent::new_github("o", "r");
    let mut st = MemStore::new();
    st.repo_details_upsert(RepoDetailsItem::NotFound { ident: id.clone(), updated_at: 10 });
    st.import(vec![Item::Repo(RepoDetailsItem::NotFound { ident: id.clone(), updated_at: 20 })]);
    assert_eq!(
        st.repo_details(&id).unwrap(),
        RepoDetailsItem::NotFound { ident: id.clone(), updated_at: 20 }
    );
    // and an older fact changes nothing
    st.import(vec![Item::Repo(RepoDetailsItem::NotFound { ident: id.clone(), updated_at: 15 })]);
    assert_eq!(
        st.repo_details(&id).unwrap(),
        RepoDetailsItem::NotFound { ident: id, updated_at: 20 }
    );
}

#[test]
fn import_readme_newer_wins() {
    let id = RepoIdent::new_github("org3", "awesome1");
    let mut st = MemStore::new();
    st.readme_repo_upsert(readme("org3", "awesome1", 100));
    st.import(vec![Item::ReadmeRepo(readme("org3", "awesome1", 50))]);
    assert_eq!(st.readme_repo(&id).unwrap().updated_at, 100);
    st.import(vec![Item::ReadmeRepo(readme("org3", "awesome1", 150))]);
    assert_eq!(st.readme_repo(&id).unwrap().updated_at, 150);
}

#[test]
fn merge_decisions() {
    let newer = RepoDetailsItem::Found(details("o", "r", 1, 20));
    let older = RepoDetailsItem::Found(details("o", "r", 1, 10));
    assert!(should_replace_details(&newer, &None));
    assert!(should_replace_details(&newer, &Some(older.clone())));
    assert!(!should_replace_details(&older, &Some(newer.clone())));
    assert!(!should_replace_details(&older, &Some(older.clone())));

    assert!(should_replace_readme(&readme("o", "r", 20), &Some(readme("o", "r", 10))));
    assert!(!should_replace_readme(&readme("o", "r", 10), &Some(readme("o", "r", 10))));
    assert!(should_replace_readme(&readme("o", "r", 10), &None));
}

#[test]
fn fs_store_paths() {
    let fs = FsStore { root: "data".to_string() };
    let id = RepoIdent::new_github("owner", "repo");
    assert_eq!(fs.repo_details_dir(), "data/repo_details");
    assert_eq!(fs.readme_repo_dir(), "data/readme_repo");
    assert_eq!(FsStore::ident_to_storage_name(&id), "github:owner:repo.json");
    assert_eq!(fs.repo_details_path(&id), "data/repo_details/github:owner:repo.json");
    assert_eq!(fs.readme_repo_path(&id), "data/readme_repo/github:owner:repo.json");
    let store = Store::from(fs);
    let Store::Fs(inner) = store;
    assert_eq!(inner.root, "data");
}
