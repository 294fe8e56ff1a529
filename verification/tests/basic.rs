use libssg::metadata::Metadata;
use libssg::metadata::MetaValue;
use libssg::paths::extension_of;
use libssg::paths::is_absolute;
use libssg::paths::join_path;
use libssg::paths::resolve;
use libssg::paths::set_extension;
use libssg::paths::starts_with;
use libssg::paths::str_eq;
use libssg::paths::strip_prefix;
use libssg::uuid_from_path;

#[test]
fn it_works() {
    assert_eq!(2 + 2, 4);
}

#[test]
fn artifact_identity_is_deterministic() {
    let a = uuid_from_path("posts/a.md");
    let b = uuid_from_path("posts/a.md");
    assert_eq!(a, b);
    let c = uuid_from_path("posts/b.md");
    assert_ne!(a, c);
}

#[test]
fn artifact_identity_matches_the_name_based_scheme() {
    let ours = uuid_from_path("posts/a.md");
    let theirs =
        uuid::Uuid::new_v3(&uuid::Uuid::NAMESPACE_OID, "posts/a.md".as_bytes()).as_u128();
    assert_eq!(ours, theirs);
    assert_ne!(ours, 0);
}

#[test]
fn path_joining_and_resolution() {
    assert_eq!(join_path("a", "b"), "a/b");
    assert_eq!(join_path("/site", "posts/a.md"), "/site/posts/a.md");
    assert_eq!(resolve("/out", "b.html"), "/out/b.html");
    assert_eq!(resolve("/out", "/abs/b.html"), "/abs/b.html");
    assert!(is_absolute("/x"));
    assert!(!is_absolute("x/y"));
    assert!(!is_absolute(""));
}

#[test]
fn path_prefix_stripping() {
    assert_eq!(strip_prefix("/site/posts/a.md", "/site"), Some("posts/a.md".to_string()));
    assert_eq!(strip_prefix("/site", "/site"), Some(String::new()));
    assert_eq!(strip_prefix("/elsewhere/a.md", "/site"), None);
    assert_eq!(strip_prefix("/siteX/a.md", "/site"), None);
    assert!(starts_with("abc", "ab"));
    assert!(!starts_with("abc", "abd"));
    assert!(str_eq("abc", "abc"));
    assert!(!str_eq("abc", "abd"));
}

#[test]
fn extension_replacement() {
    assert_eq!(set_extension("posts/a.md", "html"), "posts/a.html");
    assert_eq!(set_extension("a", "html"), "a.html");
    assert_eq!(set_extension(".bashrc", "bak"), ".bashrc.bak");
    assert_eq!(set_extension("dir.v1/file", "txt"), "dir.v1/file.txt");
    assert_eq!(set_extension("a.tar.gz", "zip"), "a.tar.zip");
    assert_eq!(extension_of("posts/a.md"), Some("md".to_string()));
    assert_eq!(extension_of("posts/a"), None);
    assert_eq!(extension_of(".bashrc"), None);
    assert_eq!(extension_of("a.markdown"), Some("markdown".to_string()));
}

#[test]
fn metadata_insert_get_and_order() {
    let mut m = Metadata::new();
    assert_eq!(m.len(), 0);
    m.insert("title".to_string(), MetaValue::Str("one".to_string()));
    m.insert("body".to_string(), MetaValue::Str("text".to_string()));
    assert_eq!(m.len(), 2);
    assert!(m.contains_key("title"));
    assert!(!m.contains_key("date"));
    match m.get("title") {
        Some(MetaValue::Str(s)) => assert_eq!(s, "one"),
        _ => panic!("missing title"),
    }
    // replacing keeps the entry's position
    m.insert("title".to_string(), MetaValue::Str("two".to_string()));
    assert_eq!(m.len(), 2);
    assert_eq!(m.entry_at(0).0, "title");
    match &m.entry_at(0).1 {
        MetaValue::Str(s) => assert_eq!(s, "two"),
        _ => panic!("title is not a string"),
    }
    assert_eq!(m.entry_at(1).0, "body");
}

#[test]
fn metadata_extend_overrides_and_appends() {
    let mut a = Metadata::new();
    a.insert("x".to_string(), MetaValue::Int(1));
    a.insert("y".to_string(), MetaValue::Int(2));
    let mut b = Metadata::new();
    b.insert("y".to_string(), MetaValue::Int(20));
    b.insert("z".to_string(), MetaValue::Int(30));
    a.extend(b);
    assert_eq!(a.len(), 3);
    assert!(matches!(a.get("x"), Some(MetaValue::Int(1))));
    assert!(matches!(a.get("y"), Some(MetaValue::Int(20))));
    assert!(matches!(a.get("z"), Some(MetaValue::Int(30))));
}

#[test]
fn metadata_clone_keeps_keys() {
    let mut m = Metadata::new();
    m.insert("a".to_string(), MetaValue::Bool(true));
    m.insert("b".to_string(), MetaValue::Null);
    let c = m.clone();
    assert_eq!(c.len(), 2);
    assert_eq!(c.entry_at(0).0, "a");
    assert_eq!(c.entry_at(1).0, "b");
}

#[test]
fn stores_can_be_walked_in_order() {
    let config = libssg::Config {
        templates_dir: "/site/templates".to_string(),
        output_dir: "/site/_site".to_string(),
        output_dirname: "_site".to_string(),
        current_dir: "/site".to_string(),
        force_generate: true,
        verbosity: 0,
    };
    let mut s = libssg::State::new(config, minijinja::Environment::new());
    s.copy_page("a.css".to_string(), "a.css".to_string(), None, 1);
    s.copy_page("b.css".to_string(), "b.css".to_string(), None, 2);
    s.add_to_snapshot("styles".to_string(), uuid_from_path("a.css"));
    assert_eq!(s.artifacts().len(), 2);
    assert_eq!(s.artifacts().entry_at(0).resource, "a.css");
    assert_eq!(s.artifacts().entry_at(1).resource, "b.css");
    assert_eq!(s.snapshots().len(), 1);
    let entry = s.snapshots().entry_at(0);
    assert_eq!(entry.0, "styles");
    assert_eq!(entry.1.as_slice(), &[uuid_from_path("a.css")]);
}
