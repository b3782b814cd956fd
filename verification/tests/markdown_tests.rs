use awesomelify::markdown::parse_markdown;
use awesomelify::source::{RepoIdent, RepoLink};

#[test]
fn test_parse_markdown_basic() {
    let input = r#"
# main

## hello

[repo](https://github.com/a/a)

## world

[repo](https://github.com/a/b)

"#;
    let out = parse_markdown(input).unwrap();
    assert_eq!(
        out,
        vec![
            RepoLink {
                ident: RepoIdent::new_github("a", "a"),
                section: vec!["hello".to_string()]
            },
            RepoLink {
                ident: RepoIdent::new_github("a", "b"),
                section: vec!["world".to_string()]
            }
        ]
    );
}

#[test]
fn extract_example_sections() {
    let input = "# main\n\n## hello\n\n[repo](https://github.com/a/a)\n\n## world\n\n[repo](https://github.com/a/b)\n";
    let out = parse_markdown(input).unwrap();
    assert_eq!(out.len(), 2);
    assert_eq!(out[0].ident, RepoIdent::new_github("a", "a"));
    assert_eq!(out[0].section, vec!["hello".to_string()]);
    assert_eq!(out[1].ident, RepoIdent::new_github("a", "b"));
    assert_eq!(out[1].section, vec!["world".to_string()]);
}

#[test]
fn extract_nested_sections() {
    let input = "## top\n\n### inner\n\n[x](https://github.com/o/r)\n\n### other\n\n[y](https://github.com/o/s)\n\n## next\n\n[z](https://github.com/o/t)\n";
    let out = parse_markdown(input).unwrap();
    assert_eq!(out.len(), 3);
    assert_eq!(out[0].section, vec!["top".to_string(), "inner".to_string()]);
    assert_eq!(out[1].section, vec!["top".to_string(), "other".to_string()]);
    assert_eq!(out[2].section, vec!["next".to_string()]);
}

#[test]
fn extract_ignores_title_heading() {
    let input = "# Title Only\n\n[x](https://github.com/o/r)\n";
    let out = parse_markdown(input).unwrap();
    assert_eq!(out.len(), 1);
    assert_eq!(out[0].section, Vec::<String>::new());
}

#[test]
fn extract_drops_unresolvable_urls() {
    let input = "## s\n\n[a](https://example.com/o/r) [b](not a url) [c](https://github.com/o/r)\n";
    let out = parse_markdown(input).unwrap();
    assert_eq!(out.len(), 1);
    assert_eq!(out[0].ident, RepoIdent::new_github("o", "r"));
}

#[test]
fn extract_skips_fenced_code() {
    let input = "## s\n\n```\n[a](https://github.com/x/y)\n## fake\n```\n\n[b](https://github.com/o/r)\n";
    let out = parse_markdown(input).unwrap();
    assert_eq!(out.len(), 1);
    assert_eq!(out[0].ident, RepoIdent::new_github("o", "r"));
    assert_eq!(out[0].section, vec!["s".to_string()]);
}

#[test]
fn extract_skips_images() {
    let input = "![badge](https://github.com/x/y)\n\n[real](https://github.com/o/r)\n";
    let out = parse_markdown(input).unwrap();
    assert_eq!(out.len(), 1);
    assert_eq!(out[0].ident, RepoIdent::new_github("o", "r"));
}

#[test]
fn extract_handles_nested_brackets_in_label() {
    let input = "[a [nested] label](https://github.com/o/r)\n";
    let out = parse_markdown(input).unwrap();
    assert_eq!(out.len(), 1);
    assert_eq!(out[0].ident, RepoIdent::new_github("o", "r"));
}

#[test]
fn extract_keeps_document_order_with_duplicates() {
    let input = "[a](https://github.com/o/r)\n\n[b](https://github.com/o/q)\n\n[c](https://github.com/o/r)\n";
    let out = parse_markdown(input).unwrap();
    assert_eq!(out.len(), 3);
    assert_eq!(out[0].ident, RepoIdent::new_github("o", "r"));
    assert_eq!(out[1].ident, RepoIdent::new_github("o", "q"));
    assert_eq!(out[2].ident, RepoIdent::new_github("o", "r"));
}

#[test]
fn extract_empty_input() {
    let out = parse_markdown("").unwrap();
    assert_eq!(out, Vec::<RepoLink>::new());
}
