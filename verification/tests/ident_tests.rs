use awesomelify::source::{IdentError, RepoIdent, Source};

#[test]
fn source_names() {
    assert_eq!(Source::Github.as_str(), "github");
    assert_eq!(Source::Github.domain(), "github.com");
    assert_eq!("github".parse::<Source>(), Ok(Source::Github));
    assert_eq!("gitlab".parse::<Source>(), Err(IdentError::UnknownSource));
}

#[test]
fn parse_url_github() {
    let id = RepoIdent::parse_url("https://github.com/rust-unofficial/awesome-rust").unwrap();
    assert_eq!(id, RepoIdent::new_github("rust-unofficial", "awesome-rust"));
}

#[test]
fn parse_url_ignores_extra_path() {
    let id = RepoIdent::parse_url("https://github.com/o/r/tree/main/docs").unwrap();
    assert_eq!(id, RepoIdent::new_github("o", "r"));
}

#[test]
fn parse_url_unsupported_host() {
    assert_eq!(
        RepoIdent::parse_url("https://gitlab.com/o/r"),
        Err(IdentError::UnsupportedHost)
    );
}

#[test]
fn parse_url_not_a_url() {
    assert_eq!(RepoIdent::parse_url("o/r"), Err(IdentError::InvalidUrl));
}

#[test]
fn parse_url_missing_parts() {
    assert_eq!(
        RepoIdent::parse_url("https://github.com"),
        Err(IdentError::MissingOwner)
    );
    assert_eq!(
        RepoIdent::parse_url("https://github.com/onlyowner"),
        Err(IdentError::MissingRepo)
    );
}

#[test]
fn parse_ident_all_forms() {
    let expect = RepoIdent::new_github("o", "r");
    assert_eq!(RepoIdent::parse_ident("https://github.com/o/r").unwrap(), expect);
    assert_eq!(RepoIdent::parse_ident("github.com/o/r").unwrap(), expect);
    assert_eq!(RepoIdent::parse_ident("o/r").unwrap(), expect);
}

#[test]
fn parse_ident_rejects_bad_forms() {
    assert_eq!(
        RepoIdent::parse_ident("github.com/o/r/extra"),
        Err(IdentError::InvalidGithubPath)
    );
    assert_eq!(RepoIdent::parse_ident("plain"), Err(IdentError::InvalidIdent));
    assert_eq!(RepoIdent::parse_ident("o/r/x"), Err(IdentError::InvalidIdent));
    assert_eq!(RepoIdent::parse_ident("/r"), Err(IdentError::InvalidIdent));
}

#[test]
fn ident_urls_and_name() {
    let id = RepoIdent::new_github("owner", "repo");
    assert_eq!(id.url(), "https://github.com/owner/repo");
    assert_eq!(id.pretty_url(), "github.com/owner/repo");
    assert_eq!(id.name(), "owner/repo");
}

#[test]
fn ident_ordering() {
    let a = RepoIdent::new_github("a", "b");
    let b = RepoIdent::new_github("a", "c");
    let c = RepoIdent::new_github("b", "a");
    assert!(a < b);
    assert!(b < c);
    assert!(a == RepoIdent::new_github("a", "b"));
    assert!(a != b);
}
