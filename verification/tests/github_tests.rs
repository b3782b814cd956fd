use awesomelify::github::{
    classify_rate_limit, decode_readme_payload, repo_details_from_response, Connection, Language,
    RateLimitState, RepoDetailsResponse, Repository, SparsePullRequest, TotalCount,
};
use awesomelify::source::{LoadError, RepoIdent};

#[test]
fn rate_limit_state_lifecycle() {
    let mut s = RateLimitState::new();
    assert_eq!(s.rate_limited_until(100), None);
    s.set_rate_limited_until(200, 100);
    assert_eq!(s.rate_limited_until(150), Some(200));
    assert_eq!(s.rate_limited_until(200), Some(200));
    // the deadline has passed: cleared lazily
    assert_eq!(s.rate_limited_until(201), None);
    assert_eq!(s.rate_limited_until(150), None);
    // a deadline already in the past is never recorded
    s.set_rate_limited_until(100, 300);
    assert_eq!(s.rate_limited_until(300), None);
}

#[test]
fn classify_rate_limit_statuses() {
    assert_eq!(classify_rate_limit(403, Some(500)), Some(500));
    assert_eq!(classify_rate_limit(429, Some(500)), Some(500));
    assert_eq!(classify_rate_limit(403, None), None);
    assert_eq!(classify_rate_limit(500, Some(500)), None);
    assert_eq!(classify_rate_limit(200, Some(500)), None);
}

#[test]
fn decode_readme_valid_base64() {
    // "hello world" in base64, split across lines as the API sends it
    let text = decode_readme_payload("aGVsbG8g\nd29ybGQ=\n", "base64").unwrap();
    assert_eq!(text, "hello world");
}

#[test]
fn decode_readme_wrong_encoding() {
    let err = decode_readme_payload("aGVsbG8=", "utf-8").unwrap_err();
    match err {
        LoadError::UnexpectedEncoding(enc) => assert_eq!(enc, "utf-8"),
        other => panic!("unexpected error: {:?}", other),
    }
}

#[test]
fn decode_readme_bad_base64() {
    let err = decode_readme_payload("!!! not base64 !!!", "base64").unwrap_err();
    assert!(matches!(err, LoadError::InvalidBase64));
}

#[test]
fn decode_readme_non_utf8() {
    // base64 of the single byte 0xFF, which is not valid UTF-8
    let err = decode_readme_payload("/w==", "base64").unwrap_err();
    assert!(matches!(err, LoadError::InvalidUtf8));
}

#[test]
fn details_mapping_full_response() {
    let id = RepoIdent::new_github("rust-unofficial", "awesome-rust");
    let resp = RepoDetailsResponse {
        repository: Some(Repository {
            stargazer_count: 123,
            fork_count: 44,
            pushed_at: Some(1000),
            description: Some("description".to_string()),
            total_pull_requests: TotalCount { total_count: 33 },
            latest_merged_pull_request: Connection {
                nodes: vec![SparsePullRequest { merged_at: 900 }],
            },
            issues: TotalCount { total_count: 55 },
            primary_language: Some(Language { name: "Rust".to_string(), color: None }),
            languages: Connection {
                nodes: vec![
                    Language { name: "Rust".to_string(), color: None },
                    Language { name: "Typescript".to_string(), color: None },
                ],
            },
        }),
    };
    let d = repo_details_from_response(&id, resp, 7777).unwrap();
    assert_eq!(d.ident, id);
    assert_eq!(d.description.as_deref(), Some("description"));
    assert_eq!(d.stargazer_count, 123);
    assert_eq!(d.fork_count, 44);
    assert_eq!(d.total_pull_requests, 33);
    assert_eq!(d.issues, 55);
    assert_eq!(d.last_pushed_at, Some(1000));
    assert_eq!(d.last_pullrequest_merged_at, Some(900));
    assert_eq!(d.primary_language.as_deref(), Some("Rust"));
    assert_eq!(d.languages, vec!["Rust".to_string(), "Typescript".to_string()]);
    assert_eq!(d.updated_at, 7777);
}

#[test]
fn details_mapping_unresolved_repository() {
    let id = RepoIdent::new_github("o", "r");
    let resp = RepoDetailsResponse { repository: None };
    assert!(repo_details_from_response(&id, resp, 1).is_none());
}

#[test]
fn details_mapping_empty_connections() {
    let id = RepoIdent::new_github("o", "r");
    let resp = RepoDetailsResponse {
        repository: Some(Repository {
            stargazer_count: 0,
            fork_count: 0,
            pushed_at: None,
            description: None,
            total_pull_requests: TotalCount { total_count: 0 },
            latest_merged_pull_request: Connection { nodes: vec![] },
            issues: TotalCount { total_count: 0 },
            primary_language: None,
            languages: Connection { nodes: vec![] },
        }),
    };
    let d = repo_details_from_response(&id, resp, 1).unwrap();
    assert_eq!(d.last_pullrequest_merged_at, None);
    assert_eq!(d.primary_language, None);
    assert_eq!(d.languages, Vec::<String>::new());
}
