use j3sg::error::Error;
use j3sg::scan::{DirTree, FileEntry};
use j3sg::site::generate;
use j3sg::sitemap::{PageSource, SectionSource, SiteMap};
use j3sg::uri::Uri;
use j3sg::urimap::UriMap;

fn f(name: &str, text: &str) -> FileEntry {
    FileEntry { name: name.to_string(), text: text.to_string() }
}

fn d(name: &str, files: Vec<FileEntry>, dirs: Vec<DirTree>) -> DirTree {
    DirTree { name: name.to_string(), files, dirs }
}

fn uri(path: &[&str]) -> Uri {
    let mut u = Uri::new();
    for s in path {
        u = u.join(s).unwrap();
    }
    u
}

fn section_keys(m: &UriMap<SectionSource>) -> Vec<String> {
    let mut v: Vec<String> = (0..m.len()).map(|i| m.entry_at(i).0.canonical_string()).collect();
    v.sort();
    v
}

fn page_keys(m: &UriMap<PageSource>) -> Vec<String> {
    let mut v: Vec<String> = (0..m.len()).map(|i| m.entry_at(i).0.canonical_string()).collect();
    v.sort();
    v
}

fn child_list(m: &UriMap<Vec<Uri>>, key: &Uri) -> Vec<String> {
    let mut v: Vec<String> =
        m.get(key).unwrap().iter().map(|u| u.canonical_string()).collect();
    v.sort();
    v
}

#[test]
fn blog_fixture_classification() {
    // root/index.md, root/page1.md, root/blog/index.md,
    // root/blog/2021/2021-post.md — blog/2021 has no index file, so the post
    // attaches to /blog rather than to a phantom /blog/2021 section.
    let tree = d(
        "src",
        vec![f("index.md", "root"), f("page1.md", "one")],
        vec![d(
            "blog",
            vec![f("index.md", "blog home")],
            vec![d("2021", vec![f("2021-post.md", "post")], vec![])],
        )],
    );
    let map = SiteMap::new(&tree, "src").unwrap();

    assert_eq!(section_keys(&map.sections), vec!["/", "/blog"]);
    assert_eq!(child_list(&map.subsections, &Uri::new()), vec!["/blog"]);
    assert_eq!(page_keys(&map.pages), vec!["/blog/2021-post", "/page1"]);
    assert_eq!(child_list(&map.subpages, &uri(&["blog"])), vec!["/blog/2021-post"]);
    assert_eq!(child_list(&map.subpages, &Uri::new()), vec!["/page1"]);

    let post = map.pages.get(&uri(&["blog", "2021-post"])).unwrap();
    assert_eq!(post.path, "src/blog/2021/2021-post.md");
    assert_eq!(post.stem, "2021-post");
    assert_eq!(post.text, "post");

    let blog = map.sections.get(&uri(&["blog"])).unwrap();
    assert_eq!(blog.path, "src/blog");
    assert_eq!(blog.name, "blog");
    assert_eq!(blog.index_text, Some("blog home".to_string()));
}

#[test]
fn tools_fixture_sections_without_parent_index() {
    // tools/ has no index file, so it is not a section; pickaxe, shovel and
    // hoe become sections directly under the root.
    let tree = d(
        "src",
        vec![f("index.md", "root")],
        vec![d(
            "tools",
            vec![],
            vec![
                d("pickaxe", vec![f("index.md", "")], vec![]),
                d("shovel", vec![f("index.md", "")], vec![]),
                d("hoe", vec![f("index.md", "")], vec![]),
            ],
        )],
    );
    let map = SiteMap::new(&tree, "src").unwrap();

    assert!(!map.sections.contains_key(&uri(&["tools"])));
    let subs = child_list(&map.subsections, &Uri::new());
    assert!(subs.contains(&"/pickaxe".to_string()));
    assert!(subs.contains(&"/shovel".to_string()));
    assert!(subs.contains(&"/hoe".to_string()));
    assert_eq!(section_keys(&map.sections), vec!["/", "/hoe", "/pickaxe", "/shovel"]);
}

#[test]
fn deep_nesting_flattens_to_nearest_section() {
    // foo/ and foo/bar/ are transparent; the section at foo/bar/baz is
    // registered directly under the root, and pages of transparent
    // directories attach to the nearest ancestor section.
    let tree = d(
        "src",
        vec![f("index.md", "root")],
        vec![
            d(
                "foo",
                vec![],
                vec![d(
                    "bar",
                    vec![],
                    vec![d(
                        "baz",
                        vec![f("index.md", ""), f("foobarbaz.md", "deep")],
                        vec![],
                    )],
                )],
            ),
            d("no_index", vec![f("page4.md", ""), f("page5.md", "")], vec![]),
        ],
    );
    let map = SiteMap::new(&tree, "src").unwrap();

    assert_eq!(section_keys(&map.sections), vec!["/", "/baz"]);
    assert_eq!(child_list(&map.subpages, &uri(&["baz"])), vec!["/baz/foobarbaz"]);
    let root_pages = child_list(&map.subpages, &Uri::new());
    assert!(root_pages.contains(&"/page4".to_string()));
    assert!(root_pages.contains(&"/page5".to_string()));
    let baz = map.pages.get(&uri(&["baz", "foobarbaz"])).unwrap();
    assert_eq!(baz.path, "src/foo/bar/baz/foobarbaz.md");
}

#[test]
fn empty_directory_contributes_nothing() {
    let tree = d(
        "src",
        vec![f("index.md", "root")],
        vec![d("empty", vec![], vec![])],
    );
    let map = SiteMap::new(&tree, "src").unwrap();
    assert_eq!(section_keys(&map.sections), vec!["/"]);
    assert_eq!(map.pages.len(), 0);
    assert_eq!(child_list(&map.subsections, &Uri::new()), Vec::<String>::new());
    assert_eq!(child_list(&map.subpages, &Uri::new()), Vec::<String>::new());
}

#[test]
fn missing_root_index_fails_before_assembly() {
    let tree = d(
        "src",
        vec![f("page1.md", "one")],
        vec![d("blog", vec![f("index.md", "")], vec![])],
    );
    let r = generate(&tree, "src");
    assert!(matches!(r, Err(Error::MissingRootIndex)));
}

#[test]
fn illegal_file_name_aborts_the_walk() {
    let tree = d(
        "src",
        vec![f("index.md", "root"), f("bad name.md", "x")],
        vec![],
    );
    match SiteMap::new(&tree, "src") {
        Err(Error::InvalidSegment(s)) => assert_eq!(s, "bad name"),
        _ => panic!("an illegal stem must abort the walk"),
    }
}

#[test]
fn illegal_directory_name_aborts_the_walk() {
    let tree = d(
        "src",
        vec![f("index.md", "root")],
        vec![d("bad dir", vec![f("index.md", "")], vec![])],
    );
    match SiteMap::new(&tree, "src") {
        Err(Error::InvalidSegment(s)) => assert_eq!(s, "bad dir"),
        _ => panic!("an illegal directory name must abort the walk"),
    }
}

#[test]
fn dangling_reference_on_inconsistent_maps() {
    // A section queried against a traversal that never recorded its child
    // lists signals an internal defect rather than bad input.
    let empty = SiteMap {
        sections: UriMap::new(),
        subsections: UriMap::new(),
        pages: UriMap::new(),
        subpages: UriMap::new(),
    };
    let src = SectionSource {
        name: "x".to_string(),
        path: "src/x".to_string(),
        index_text: None,
    };
    let r = j3sg::section::Section::new(&empty, uri(&["x"]), &src);
    assert!(matches!(r, Err(Error::DanglingReference(_))));
}

#[test]
fn generate_assembles_pages_and_sections() {
    let tree = d(
        "src",
        vec![
            f("index.md", "---\ntitle: Index\ntemplate: base.html\n---\n# Hello"),
            f("page1.md", "---\ntitle: Page 1\n---\nWelcome."),
        ],
        vec![d(
            "blog",
            vec![f("index.md", "Blog home")],
            vec![d("2021", vec![f("2021-post.md", "# Post")], vec![])],
        )],
    );
    let site = generate(&tree, "src").unwrap();

    let page1 = site.pages.0.get(&uri(&["page1"])).unwrap();
    assert_eq!(page1.title, "Page 1");
    assert_eq!(page1.section.canonical_string(), "/");
    assert_eq!(page1.content, "<p>Welcome.</p>");

    let post = site.pages.0.get(&uri(&["blog", "2021-post"])).unwrap();
    assert_eq!(post.title, "2021-post");
    assert_eq!(post.section.canonical_string(), "/blog");
    assert_eq!(post.content, "<h1>Post</h1>");

    let root = site.sections.0.get(&Uri::new()).unwrap();
    assert_eq!(root.title, "Index");
    let root_index = root.index.as_ref().unwrap();
    assert_eq!(root_index.template, Some("base.html".to_string()));
    assert_eq!(root_index.title, "Index");
    assert_eq!(root_index.content, "<h1>Hello</h1>");

    let blog = site.sections.0.get(&uri(&["blog"])).unwrap();
    assert_eq!(blog.title, "blog");
    let blog_pages: Vec<String> =
        blog.pages.iter().map(|u| u.canonical_string()).collect();
    assert_eq!(blog_pages, vec!["/blog/2021-post"]);
    let blog_index = blog.index.as_ref().unwrap();
    assert_eq!(blog_index.title, "index");
    assert_eq!(blog_index.content, "<p>Blog home</p>");
}
