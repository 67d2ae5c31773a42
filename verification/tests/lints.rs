use fussel::fault::{Level, Quote};
use fussel::lint::incomplete_work::IncompleteWork;
use fussel::lint::trailing_whitespace::TrailingWhitespace;
use fussel::lint::{run_lint, run_lints, Check, Lint, SourceFile};
use fussel::tree::{Content, Metadata};

#[test]
fn test() {
    let lint = IncompleteWork::init(vec![
        String::from("TODO"),
        String::from("FIXME"),
        String::from("DEBUG"),
    ]);

    let path = "README.md";
    let content = "fn main() {\n    // TODO\n}\n";

    let faults = lint.review(path, content);

    assert_eq!(faults.len(), 1);

    let got = faults[0].render();
    let should_be = "warning: there should be no incomplete work\n --> README.md:2:7\n  |\n2 |     // TODO\n  |        ^^^^ keyword suggests incomplete work\n  |\n  = help: remove keyword after completing work\n";

    assert_eq!(got, should_be);
}

#[test]
fn incomplete_work_keyword_span() {
    let lint = IncompleteWork::init(vec![String::from("TODO")]);
    let faults = lint.review("a.rs", "x TODO y TODO\n");
    assert_eq!(faults.len(), 2);
    match &faults[0].quote {
        Quote::Excerpt { row, col_from, col_to, .. } => {
            assert_eq!(*row, 1);
            assert_eq!(*col_from, 2);
            assert_eq!(*col_to, 5);
        }
        _ => panic!("expected an excerpt"),
    }
    match &faults[1].quote {
        Quote::Excerpt { col_from, col_to, .. } => {
            assert_eq!(*col_from, 9);
            assert_eq!(*col_to, 12);
        }
        _ => panic!("expected an excerpt"),
    }
}

#[test]
fn incomplete_work_overlapping_matches_do_not_overlap() {
    let lint = IncompleteWork::init(vec![String::from("aa")]);
    let faults = lint.review("a.rs", "aaa\n");
    assert_eq!(faults.len(), 1);
}

#[test]
fn trailing_whitespace_counts_offending_lines() {
    let lint = TrailingWhitespace { extension_blacklist: vec![] };
    let content = "clean line\ndirty \nalso clean\nvery dirty\t\t\n";
    let faults = lint.review("src/lib.rs", content);
    assert_eq!(faults.len(), 2);
    match &faults[0].quote {
        Quote::Excerpt { row, col_from, col_to, txt, .. } => {
            assert_eq!(*row, 2);
            assert_eq!(txt, "dirty ");
            assert_eq!(*col_from, 5);
            assert_eq!(*col_to, 5);
        }
        _ => panic!("expected an excerpt"),
    }
    match &faults[1].quote {
        Quote::Excerpt { row, col_from, col_to, .. } => {
            assert_eq!(*row, 4);
            assert_eq!(*col_from, 10);
            assert_eq!(*col_to, 11);
        }
        _ => panic!("expected an excerpt"),
    }
}

#[test]
fn trailing_whitespace_mark_excludes_line_ending() {
    let lint = TrailingWhitespace { extension_blacklist: vec![] };
    let faults = lint.review("f", "x \r\n");
    assert_eq!(faults.len(), 1);
    match &faults[0].quote {
        Quote::Excerpt { col_from, col_to, txt, .. } => {
            assert_eq!(txt, "x ");
            assert_eq!(*col_from, 1);
            assert_eq!(*col_to, 1);
        }
        _ => panic!("expected an excerpt"),
    }
}

#[test]
fn trailing_whitespace_hint_lists_extensions() {
    let lint = TrailingWhitespace {
        extension_blacklist: vec![String::from("md"), String::from("rs"), String::from("txt")],
    };
    let faults = lint.review("f", "dirty \n");
    assert_eq!(faults.len(), 1);
    assert_eq!(faults[0].hints.len(), 1);
    assert_eq!(
        faults[0].hints[0].txt,
        "filenames ending with '.md', '.rs' or '.txt' are ignored"
    );
}

#[test]
fn trailing_whitespace_ignore_blacklisted_extension() {
    let lint = TrailingWhitespace { extension_blacklist: vec![String::from("md")] };
    let file_meta = Metadata { is_dir: false, is_file: true };
    let dir_meta = Metadata { is_dir: true, is_file: false };
    assert!(lint.ignore("README.md", &file_meta));
    assert!(!lint.ignore("main.rs", &file_meta));
    assert!(lint.ignore("src", &dir_meta));
}

#[test]
fn run_lint_skips_binary_and_ignored() {
    let lint = TrailingWhitespace { extension_blacklist: vec![String::from("md")] };
    let files = vec![
        SourceFile {
            path: String::from("a.rs"),
            meta: Metadata { is_dir: false, is_file: true },
            content: Content::Text(String::from("dirty \n")),
        },
        SourceFile {
            path: String::from("b.md"),
            meta: Metadata { is_dir: false, is_file: true },
            content: Content::Text(String::from("dirty \n")),
        },
        SourceFile {
            path: String::from("c.bin"),
            meta: Metadata { is_dir: false, is_file: true },
            content: Content::Binary(vec![0xff, 0xfe]),
        },
        SourceFile {
            path: String::from("d.rs"),
            meta: Metadata { is_dir: false, is_file: true },
            content: Content::Text(String::from("also dirty\t\n")),
        },
    ];
    let faults = run_lint(&lint, &files);
    assert_eq!(faults.len(), 2);
    match &faults[0].quote {
        Quote::Excerpt { path, .. } => assert_eq!(path, "a.rs"),
        _ => panic!("expected an excerpt"),
    }
    match &faults[1].quote {
        Quote::Excerpt { path, .. } => assert_eq!(path, "d.rs"),
        _ => panic!("expected an excerpt"),
    }
}

#[test]
fn run_lints_joins_checks_in_order() {
    let checks = vec![
        Check::TrailingWhitespace(TrailingWhitespace { extension_blacklist: vec![] }),
        Check::IncompleteWork(IncompleteWork::init(vec![String::from("TODO")])),
    ];
    let files = vec![SourceFile {
        path: String::from("a.rs"),
        meta: Metadata { is_dir: false, is_file: true },
        content: Content::Text(String::from("x TODO \n")),
    }];
    let faults = run_lints(&checks, &files);
    assert_eq!(faults.len(), 2);
    assert_eq!(faults[0].msg.lvl, Some(Level::Warning));
    assert_eq!(
        faults[0].msg.txt,
        "lines should not end with trailing whitespace, unless the file format requires"
    );
    assert_eq!(faults[1].msg.txt, "there should be no incomplete work");
}

#[test]
fn trailing_whitespace_hint_sorts_extensions() {
    let lint = TrailingWhitespace {
        extension_blacklist: vec![String::from("txt"), String::from("md")],
    };
    let faults = lint.review("f", "dirty \n");
    assert_eq!(faults.len(), 1);
    assert_eq!(
        faults[0].hints[0].txt,
        "filenames ending with '.md' or '.txt' are ignored"
    );
}

#[test]
fn trailing_whitespace_covers_unicode_blanks() {
    let lint = TrailingWhitespace { extension_blacklist: vec![] };
    let faults = lint.review("f", "x\u{a0}\n");
    assert_eq!(faults.len(), 1);
    match &faults[0].quote {
        Quote::Excerpt { col_from, col_to, .. } => {
            assert_eq!(*col_from, 1);
            assert_eq!(*col_to, 1);
        }
        _ => panic!("expected an excerpt"),
    }
}
