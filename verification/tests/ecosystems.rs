use versionhub::ecosystems::maven::{self, XmlNode};
use versionhub::ecosystems::{go, npm, rust, Ecosystem};
use versionhub::json::{member, Json, JsonObject};
use versionhub::restrict_to_range;
use versionhub::structs::PackageVersions;

#[test]
fn ecosystem_names() {
    assert_eq!(Ecosystem::from_name("go"), Ok(Ecosystem::Go));
    assert_eq!(Ecosystem::from_name("GO"), Ok(Ecosystem::Go));
    assert_eq!(Ecosystem::from_name("Maven"), Ok(Ecosystem::Maven));
    assert_eq!(Ecosystem::from_name("nPm"), Ok(Ecosystem::Npm));
    assert_eq!(Ecosystem::from_name("RUST"), Ok(Ecosystem::Rust));
    assert_eq!(Ecosystem::from_name("pip"), Err("Unsupported ecosystem: pip.".to_string()));
    assert_eq!(Ecosystem::from_name(""), Err("Unsupported ecosystem: .".to_string()));
    assert_eq!(Ecosystem::Npm.key(), "npm");
}

#[test]
fn go_urls_and_listing() {
    assert_eq!(
        go::versions_url("github.com/opencontainers/runc"),
        "https://proxy.golang.org/github.com/opencontainers/runc/@v/list"
    );
    assert_eq!(go::parse_versions("v1.0.0\nv1.1.0\r\n\nv2.0.0\n"), vec!["v1.0.0", "v1.1.0", "v2.0.0"]);
    assert_eq!(go::parse_versions("a\r"), vec!["a\r"]);
    assert_eq!(go::parse_versions("\r\n"), Vec::<String>::new());
    assert_eq!(go::parse_versions(""), Vec::<String>::new());
}

#[test]
fn maven_urls() {
    assert_eq!(
        maven::metadata_url("org.ops4j.pax.logging:pax-logging-log4j2"),
        "https://repo1.maven.org/maven2/org/ops4j/pax/logging/pax-logging-log4j2/maven-metadata.xml"
    );
}

#[test]
fn maven_metadata_versions() {
    let xml = "<?xml version=\"1.0\"?>\n<metadata><groupId>g</groupId><version>9.9</version>\
        <versioning><versions><version>1.8.0</version><version>1.8.1</version><version/></versions>\
        </versioning></metadata>";
    assert_eq!(maven::parse_versions(xml).unwrap(), vec!["9.9", "1.8.0", "1.8.1"]);
    let ns = "<m xmlns:x='urn:x'><x:version>2.0</x:version></m>";
    assert_eq!(maven::parse_versions(ns).unwrap(), vec!["2.0"]);
    assert!(maven::parse_versions("<metadata>").is_err());
}

#[test]
fn maven_nodes_selected() {
    let node = |e: bool, n: &str, t: Option<&str>| XmlNode {
        is_element: e,
        local_name: n.to_string(),
        text: t.map(String::from),
    };
    let nodes = vec![
        node(false, "", None),
        node(true, "version", Some("1.0")),
        node(false, "", Some("1.0")),
        node(true, "versions", Some("x")),
        node(true, "version", None),
        node(true, "version", Some("2.0")),
    ];
    assert_eq!(maven::versions_from_nodes(&nodes), vec!["1.0", "2.0"]);
}

#[test]
fn npm_reply_versions() {
    assert_eq!(npm::registry_url("lodash.template"), "https://registry.npmjs.org/lodash.template");
    let reply = r#"{"name": "x", "versions": {"2.1.0": {}, "2.0.0": null, "10.0.0": {"a": 1}}, "time": {}}"#;
    // serde_json's map keeps its keys sorted
    assert_eq!(npm::parse_versions(reply).unwrap(), vec!["10.0.0", "2.0.0", "2.1.0"]);
    let dup = r#"{"versions": {"1.0.0": 1, "1.0.0": 2}}"#;
    assert_eq!(npm::parse_versions(dup).unwrap(), vec!["1.0.0"]);
    assert_eq!(npm::parse_versions(r#"{"versions": []}"#).unwrap(), Vec::<String>::new());
    assert_eq!(npm::parse_versions("3").unwrap(), Vec::<String>::new());
    assert!(npm::parse_versions("{not json").is_err());
}

#[test]
fn crates_index() {
    assert_eq!(rust::index_url("sparse-merkle-tree"), "https://index.crates.io/sp/ar/sparse-merkle-tree");
    assert_eq!(rust::index_url("a"), "https://index.crates.io/1/a");
    assert_eq!(rust::index_url("ab"), "https://index.crates.io/2/ab");
    assert_eq!(rust::index_url("syn"), "https://index.crates.io/3/s/syn");
    assert_eq!(rust::index_url("abcd"), "https://index.crates.io/ab/cd/abcd");
    assert_eq!(rust::index_url("Inflector"), "https://index.crates.io/in/fl/inflector");
    let reply = "{\"name\":\"x\",\"vers\":\"0.1.0\",\"deps\":[]}\n\
                 not json\n\
                 \n\
                 {\"vers\":1}\r\n\
                 []\n\
                 {\"name\":\"x\",\"vers\":\"0.2.0-rc.1\"}\n";
    assert_eq!(rust::parse_versions(reply), vec!["0.1.0", "0.2.0-rc.1"]);
    assert_eq!(rust::version_of_entry("{\"vers\": \"1.2.3\"}"), Some("1.2.3".to_string()));
    assert_eq!(rust::version_of_entry("{\"vers\": null}"), None);
}

#[test]
fn range_restriction() {
    let found = PackageVersions::new(
        Ecosystem::Rust,
        "serde".to_string(),
        vec!["0.9.0".to_string(), "1.0.0".to_string(), "2.0.0".to_string()],
    );
    assert_eq!(found.ecosystem, "rust");
    let all = restrict_to_range(found.clone(), None);
    assert_eq!(all.versions, found.versions);
    let some = restrict_to_range(found, Some(">=1.0.0, <2.0.0".to_string()));
    assert_eq!(some.name, "serde");
    assert_eq!(some.versions, vec!["1.0.0"]);
}

#[test]
fn listings_join_at_line_breaks() {
    let a = "v1.0.0\n\nv1.1.0";
    let b = "v2.0.0\r\nv2.1.0\n";
    let joined = format!("{}\n{}", a, b);
    let mut both = go::parse_versions(a);
    both.extend(go::parse_versions(b));
    assert_eq!(go::parse_versions(&joined), both);
}

#[test]
fn object_keys_stay_distinct() {
    let mut o = JsonObject::new();
    o.insert("a".to_string(), "null".to_string());
    o.insert("b".to_string(), "1".to_string());
    o.insert("a".to_string(), "true".to_string());
    let members: Vec<(&str, &str)> = o.members_vec().iter().map(|(k, v)| (k.as_str(), v.as_str())).collect();
    assert_eq!(members, vec![("a", "true"), ("b", "1")]);
    let doc = Json::Object(o);
    assert_eq!(member(&doc, "b").map(|s| s.as_str()), Some("1"));
    assert_eq!(member(&doc, "c"), None);
    assert_eq!(member(&Json::Null, "a"), None);
}

#[test]
fn ecosystem_case_insensitive() {
    for name in ["go", "Go", "gO", "MAVEN", "Npm", "rUsT"] {
        assert_eq!(Ecosystem::from_name(name), Ecosystem::from_name(&name.to_lowercase()));
    }
}
