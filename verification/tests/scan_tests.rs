use j3sg::scan::{
    file_name, file_stem, files_with_extension, has_extension, has_file, index_text, DirTree,
    FileEntry,
};

fn f(name: &str, text: &str) -> FileEntry {
    FileEntry { name: name.to_string(), text: text.to_string() }
}

fn d(name: &str, files: Vec<FileEntry>, dirs: Vec<DirTree>) -> DirTree {
    DirTree { name: name.to_string(), files, dirs }
}

#[test]
fn stems_and_extensions() {
    assert_eq!(file_stem("2021-post.md"), "2021-post");
    assert_eq!(file_stem("index.md"), "index");
    assert_eq!(file_stem("archive.tar.gz"), "archive.tar");
    assert_eq!(file_stem(".bashrc"), ".bashrc");
    assert_eq!(file_stem("noext"), "noext");
    assert!(has_extension("a.md", "md"));
    assert!(has_extension("a.b.md", "md"));
    assert!(!has_extension("a.txt", "md"));
    assert!(!has_extension("md", "md"));
    assert!(!has_extension(".md", "md"));
}

#[test]
fn last_path_component() {
    assert_eq!(file_name("src/blog/x.md"), "x.md");
    assert_eq!(file_name("src"), "src");
    assert_eq!(file_name("a/b"), "b");
}

#[test]
fn directory_queries() {
    let dir = d(
        "blog",
        vec![f("index.md", "hello"), f("2021-post.md", "post"), f("notes.txt", "")],
        vec![],
    );
    assert!(has_file(&dir, "index.md"));
    assert!(has_file(&dir, "notes.txt"));
    assert!(!has_file(&dir, "missing.md"));
    assert_eq!(index_text(&dir), Some("hello".to_string()));
    let md = files_with_extension(&dir, "md");
    assert_eq!(md, vec!["index.md".to_string(), "2021-post.md".to_string()]);
    let txt = files_with_extension(&dir, "txt");
    assert_eq!(txt, vec!["notes.txt".to_string()]);
}

#[test]
fn index_text_absent() {
    let dir = d("plain", vec![f("a.md", "x")], vec![]);
    assert_eq!(index_text(&dir), None);
}
