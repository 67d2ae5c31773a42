use fussel::paths::{extension_of, join_path, parent_of};
use fussel::text::split_lines;
use fussel::tree::Metadata;
use fussel::walker::{Project, WalkEntry, WalkerBuilder};

fn entry(path: &str, is_file: bool, ignored: Option<bool>) -> WalkEntry {
    WalkEntry {
        path: String::from(path),
        meta: Metadata { is_dir: !is_file, is_file },
        ignored,
    }
}

#[test]
fn subtree_filter_fails_closed() {
    let p = Project::open(String::from("/repo"));
    assert!(p.prunes(&entry("/repo/target", false, Some(true))));
    assert!(!p.prunes(&entry("/repo/src", false, Some(false))));
    assert!(p.prunes(&entry("/repo/odd", false, None)));
}

#[test]
fn subtree_filter_obeys_respect_gitignore() {
    let mut p = Project::open(String::from("/repo"));
    p.respect_gitignore = false;
    assert!(!p.prunes(&entry("/repo/target", false, Some(true))));
}

#[test]
fn node_filter_keeps_files_outside_the_blacklist() {
    let mut p = Project::open(String::from("/repo"));
    p.extension_blacklist = vec![String::from("md")];
    assert!(p.keeps(&entry("/repo/src/main.rs", true, Some(false))));
    assert!(!p.keeps(&entry("/repo/README.md", true, Some(false))));
    assert!(!p.keeps(&entry("/repo/src", false, Some(false))));
    assert!(p.keeps(&entry("/repo/LICENSE", true, Some(false))));
}

#[test]
fn builder_composes() {
    let b = WalkerBuilder::new(String::from("/a"))
        .root(String::from("/b"))
        .respect_gitignore(false);
    assert_eq!(b.root, "/b");
    assert!(!b.respect_gitignore);
    assert!(!b.prunes(&entry("/b/x", false, None)));
    assert!(b.keeps(&entry("/b/f.rs", true, Some(false))));
    assert!(!b.keeps(&entry("/b/d", false, Some(false))));
}

#[test]
fn extensions_follow_the_file_name() {
    assert_eq!(extension_of("a/b/main.rs"), Some(String::from("rs")));
    assert_eq!(extension_of("archive.tar.gz"), Some(String::from("gz")));
    assert_eq!(extension_of("a/b/Makefile"), None);
    assert_eq!(extension_of(".gitignore"), None);
    assert_eq!(extension_of("dir.d/file"), None);
}

#[test]
fn parents_and_joins() {
    assert_eq!(parent_of("/a/b/c"), Some(String::from("/a/b")));
    assert_eq!(parent_of("/a"), Some(String::from("/")));
    assert_eq!(parent_of("/"), None);
    assert_eq!(parent_of("plain"), None);
    assert_eq!(join_path("/a/b", "Fussel.toml"), "/a/b/Fussel.toml");
    assert_eq!(join_path("/", "x"), "/x");
}

#[test]
fn lines_split_like_the_walker_reads_them() {
    let lines = split_lines("one\ntwo\r\nthree");
    assert_eq!(lines, vec![
        String::from("one"),
        String::from("two"),
        String::from("three"),
    ]);
    assert_eq!(split_lines(""), Vec::<String>::new());
    assert_eq!(split_lines("end\n"), vec![String::from("end")]);
    assert_eq!(split_lines("a\rb"), vec![String::from("a\rb")]);
    assert_eq!(split_lines("\n\n"), vec![String::from(""), String::from("")]);
}
