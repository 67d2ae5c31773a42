use fussel::tree::{ChildEntry, Content, LoadRequest, Metadata, Tree};
use fussel::visit::{render_tree, traverse, walk_events, Event, Printer, Recorder, VisitNode};

fn dir_meta() -> Metadata {
    Metadata { is_dir: true, is_file: false }
}

fn file_meta() -> Metadata {
    Metadata { is_dir: false, is_file: true }
}

fn listing() -> Vec<ChildEntry> {
    vec![
        ChildEntry { path: String::from("root/sub"), meta: dir_meta() },
        ChildEntry { path: String::from("root/a.rs"), meta: file_meta() },
        ChildEntry { path: String::from("root/b.rs"), meta: file_meta() },
    ]
}

/// Expands a directory the way a load driver would: one listing read
/// only when the node is still unexpanded.
fn expand_counted(tree: &mut Tree, id: usize, reads: &mut usize) {
    if !tree.dir_expanded(id) {
        *reads += 1;
        tree.expand_dir(id, listing());
    }
}

#[test]
fn expand_twice_reads_once() {
    let mut tree = Tree::new(String::from("root"), dir_meta());
    let mut reads: usize = 0;
    expand_counted(&mut tree, 0, &mut reads);
    expand_counted(&mut tree, 0, &mut reads);
    assert_eq!(reads, 1);
    assert_eq!(tree.node_count(), 4);
}

#[test]
fn collapse_allows_a_second_read() {
    let mut tree = Tree::new(String::from("root"), dir_meta());
    let mut reads: usize = 0;
    expand_counted(&mut tree, 0, &mut reads);
    tree.collapse_dir(0);
    expand_counted(&mut tree, 0, &mut reads);
    assert_eq!(reads, 2);
}

#[test]
fn expansion_partitions_directories_before_files() {
    let mut tree = Tree::new(String::from("root"), dir_meta());
    tree.expand_dir(0, listing());
    let (dirs, files) = tree.entries_of(0).unwrap();
    assert_eq!(dirs, vec![1]);
    assert_eq!(files, vec![2, 3]);
    assert_eq!(tree.path_of(1), "root/sub");
    assert_eq!(tree.path_of(2), "root/a.rs");
    assert_eq!(tree.path_of(3), "root/b.rs");
    assert!(!tree.dir_expanded(1));
    assert!(!tree.file_loaded(2));
}

#[test]
fn file_content_decodes_text_or_keeps_bytes() {
    let mut tree = Tree::new(String::from("root"), dir_meta());
    tree.expand_dir(0, listing());
    tree.expand_file(2, vec![104, 105]);
    match tree.content_at(2) {
        Some(Content::Text(t)) => assert_eq!(t, "hi"),
        _ => panic!("expected decoded text"),
    }
    tree.expand_file(3, vec![0xff, 0xfe, 0x00]);
    match tree.content_at(3) {
        Some(Content::Binary(b)) => assert_eq!(b, &vec![0xff, 0xfe, 0x00]),
        _ => panic!("expected binary content"),
    }
    tree.collapse_file(2);
    assert!(tree.content_at(2).is_none());
}

#[test]
fn load_protocol_visits_every_node_once() {
    let mut tree = Tree::new(String::from("root"), dir_meta());
    let mut lists: usize = 0;
    let mut reads: usize = 0;
    loop {
        match tree.next_load() {
            Some(LoadRequest::List { id, .. }) => {
                lists += 1;
                let children = if id == 0 { listing() } else { vec![] };
                tree.expand_dir(id, children);
            }
            Some(LoadRequest::Read { id, .. }) => {
                reads += 1;
                tree.expand_file(id, vec![]);
            }
            None => break,
        }
    }
    assert_eq!(lists, 2);
    assert_eq!(reads, 2);
}

#[test]
fn unexpanded_file_walks_as_one_truncated_pair() {
    let mut tree = Tree::new(String::from("root"), dir_meta());
    tree.expand_dir(
        0,
        vec![ChildEntry { path: String::from("root/a.rs"), meta: file_meta() }],
    );
    let events = walk_events(&tree);
    assert_eq!(
        events,
        vec![
            Event::Enter(VisitNode::Project),
            Event::Enter(VisitNode::Directory { id: 0 }),
            Event::Enter(VisitNode::File { id: 1 }),
            Event::Enter(VisitNode::Truncated),
            Event::Leave(VisitNode::Truncated),
            Event::Leave(VisitNode::File { id: 1 }),
            Event::Leave(VisitNode::Directory { id: 0 }),
            Event::Leave(VisitNode::Project),
        ]
    );
    let truncated_enters = events
        .iter()
        .filter(|e| matches!(e, Event::Enter(VisitNode::Truncated)))
        .count();
    assert_eq!(truncated_enters, 1);
}

#[test]
fn visitor_traversal_matches_walk_order() {
    let mut tree = Tree::new(String::from("root"), dir_meta());
    tree.expand_dir(0, listing());
    tree.expand_file(2, vec![104, 105]);
    let mut rec = Recorder::new();
    let proceed = traverse(&tree, &mut rec);
    assert!(proceed);
    assert_eq!(
        rec.entered,
        vec![
            VisitNode::Project,
            VisitNode::Directory { id: 0 },
            VisitNode::Directory { id: 1 },
            VisitNode::Truncated,
            VisitNode::File { id: 2 },
            VisitNode::Content { id: 2 },
            VisitNode::File { id: 3 },
            VisitNode::Truncated,
        ]
    );
}

#[test]
fn rendered_tree_lists_nodes_indented() {
    let mut tree = Tree::new(String::from("root"), dir_meta());
    tree.expand_dir(
        0,
        vec![ChildEntry { path: String::from("root/a.rs"), meta: file_meta() }],
    );
    let out = render_tree(&tree);
    let should_be = "Project\n    Directory: root\n        File: root/a.rs\n            Truncated\n";
    assert_eq!(out, should_be);
}

#[test]
fn printer_visitor_renders_like_render_tree() {
    let mut tree = Tree::new(String::from("root"), dir_meta());
    tree.expand_dir(
        0,
        vec![ChildEntry { path: String::from("root/a.rs"), meta: file_meta() }],
    );
    let mut printer = Printer::new();
    traverse(&tree, &mut printer);
    assert_eq!(printer.out, render_tree(&tree));
}
