use j3sg::error::Error;
use j3sg::uri::Uri;
use j3sg::urimap::UriMap;

#[test]
fn create_new_root_uri() {
    let uri = Uri::new();
    assert_eq!(uri, Uri::new());
}

#[test]
fn push_segment_to_uri() {
    let uri = Uri::new();
    assert_eq!(uri, Uri::new());
}

#[test]
fn create_valid_pathbuf() {
    let buf = vec!["foo".to_string(), "bar".to_string(), "baz".to_string()];
    assert!(Uri::valid_path(&buf));
}

#[test]
fn invalid_pathbuf_absolute() {
    let buf = vec!["/".to_string(), "absolute".to_string(), "path".to_string()];
    assert!(!Uri::valid_path(&buf));
}

#[test]
fn invalid_pathbuf_non_alphanumeric() {
    let buf = vec!["@@@".to_string(), "$$$".to_string(), "###".to_string()];
    assert!(!Uri::valid_path(&buf));
}

#[test]
fn invalid_pathbuf_parent() {
    let buf = vec!["foo".to_string(), "..".to_string(), "bar".to_string()];
    assert!(!Uri::valid_path(&buf));
}

#[test]
fn join_valid_segments() {
    for s in ["a", "page1", "2021-post", "a_b-c.d", "A9", "..."] {
        let u = Uri::new().join(s).unwrap();
        assert_eq!(u.file_name(), s);
        assert!(!u.is_root());
    }
}

#[test]
fn join_invalid_segments() {
    for s in ["", ".", "..", "a/b", "a@b", "/", "sp ace", "ü"] {
        let r = Uri::new().join(s);
        match r {
            Err(Error::InvalidSegment(t)) => assert_eq!(t, s),
            _ => panic!("segment {:?} was not rejected", s),
        }
    }
}

#[test]
fn join_then_parent_round_trips() {
    let u = Uri::new().join("blog").unwrap();
    let v = u.join("2021-post").unwrap();
    assert_eq!(v.parent().unwrap(), u);
    assert_eq!(u.parent().unwrap(), Uri::new());
    assert!(Uri::new().parent().is_none());
}

#[test]
fn canonical_string_forms() {
    assert_eq!(Uri::new().canonical_string(), "/");
    let u = Uri::new().join("blog").unwrap().join("2021-post").unwrap();
    assert_eq!(u.canonical_string(), "/blog/2021-post");
    assert_eq!(u.file_name(), "2021-post");
    assert_eq!(Uri::new().file_name(), "");
}

#[test]
fn canonical_equality_determines_map_keys() {
    // Two identifiers built through different join sequences with the same
    // segment list are interchangeable as map keys.
    let a = Uri::new().join("tools").unwrap().join("pickaxe").unwrap();
    let mid = Uri::new().join("tools").unwrap();
    let b = mid.join("pickaxe").unwrap();
    assert_eq!(a, a);
    assert_eq!(a, b);
    assert_eq!(a.canonical_string(), b.canonical_string());

    let mut m: UriMap<String> = UriMap::new();
    m.insert(a, "value".to_string());
    assert!(m.contains_key(&b));
    assert_eq!(m.get(&b).unwrap().as_str(), "value");

    let c = Uri::new().join("tools").unwrap().join("shovel").unwrap();
    assert!(!m.contains_key(&c));
    assert!(m.get(&c).is_none());
}

#[test]
fn output_path_for_identifier() {
    let u = Uri::new().join("blog").unwrap().join("2021-post").unwrap();
    assert_eq!(u.out_path("public"), "public/blog/2021-post/index.html");
    assert_eq!(u.out_dir("public"), "public/blog/2021-post");
    assert_eq!(Uri::new().out_path("public"), "public/index.html");
    assert_eq!(Uri::new().out_dir("public"), "public");
}

#[test]
fn ancestors_are_the_proper_prefixes() {
    let u = Uri::new().join("a").unwrap().join("b").unwrap().join("c").unwrap();
    let anc = u.ancestors();
    let canon: Vec<String> = anc.iter().map(|x| x.canonical_string()).collect();
    assert_eq!(canon, vec!["/", "/a", "/a/b"]);
    assert!(Uri::new().ancestors().is_empty());
}

#[test]
fn error_messages() {
    assert_eq!(Error::MissingRootIndex.message(), "No root index file found");
    assert_eq!(
        Error::InvalidSegment("a@b".to_string()).message(),
        "invalid segment: a@b"
    );
    assert_eq!(
        Error::DanglingReference("/x".to_string()).message(),
        "dangling reference: /x"
    );
    assert_eq!(
        Error::ScanError("src/blog".to_string()).message(),
        "error reading directory: src/blog"
    );
}
