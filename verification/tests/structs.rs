use versionhub::structs::Package;

#[test]
fn parse_with_range() {
    let p: Package = "go/github.com/opencontainers/runc@>=v1.3.1, <v1.4.2".parse().unwrap();
    assert_eq!(p.ecosystem, "go");
    assert_eq!(p.name, "github.com/opencontainers/runc");
    assert_eq!(p.version_range.as_deref(), Some(">=v1.3.1, <v1.4.2"));

    let p = "maven/org.apache.logging.log4j:log4j-core@>= 2.13.0, < 2.15.0".parse::<Package>().unwrap();
    assert_eq!(p.ecosystem, "maven");
    assert_eq!(p.name, "org.apache.logging.log4j:log4j-core");
    assert_eq!(p.version_range.as_deref(), Some(">= 2.13.0, < 2.15.0"));
}

#[test]
fn parse_without_range() {
    let p = "npm/lodash".parse::<Package>().unwrap();
    assert_eq!(p.ecosystem, "npm");
    assert_eq!(p.name, "lodash");
    assert_eq!(p.version_range, None);
}

#[test]
fn last_at_starts_the_range() {
    let p = "npm/@scope/pkg@1.0".parse::<Package>().unwrap();
    assert_eq!(p.name, "@scope/pkg");
    assert_eq!(p.version_range.as_deref(), Some("1.0"));
    let p = "npm/@scope/pkg".parse::<Package>().unwrap();
    assert_eq!(p.ecosystem, "npm");
    assert_eq!(p.name, "");
    assert_eq!(p.version_range.as_deref(), Some("scope/pkg"));
}

#[test]
fn first_slash_ends_the_ecosystem() {
    let p = "rust/a/b@".parse::<Package>().unwrap();
    assert_eq!(p.ecosystem, "rust");
    assert_eq!(p.name, "a/b");
    assert_eq!(p.version_range.as_deref(), Some(""));
}

#[test]
fn invalid_format() {
    assert_eq!(
        "lodash".parse::<Package>().unwrap_err(),
        "Invalid format: 'lodash'. Expected 'ecosystem/package'"
    );
    let e = "pkg@1/2".parse::<Package>().unwrap_err();
    assert_eq!(e, "Invalid format: 'pkg@1/2'. Expected 'ecosystem/package'");
}

#[test]
fn spec_text_reads_back() {
    for (eco, name, range) in [
        ("go", "github.com/a/b", Some(">=v1.0.0, <v2")),
        ("npm", "@scope/pkg", Some("1.0")),
        ("maven", "g:a", None),
        ("rust", "serde", Some("")),
    ] {
        let text = match range {
            Some(r) => format!("{}/{}@{}", eco, name, r),
            None => format!("{}/{}", eco, name),
        };
        let p = text.parse::<Package>().unwrap();
        assert_eq!(p.ecosystem, eco);
        assert_eq!(p.name, name);
        assert_eq!(p.version_range.as_deref(), range);
    }
}
