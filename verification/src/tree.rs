//! The lazily-materialized project tree: an arena of directory and
//! file nodes addressed by stable indices, with an explicit "not yet
//! loaded" state. Listing a directory and reading a file are injected
//! collaborators: the tree takes their results as plain values, so
//! expansion itself performs no input or output.

use vstd::prelude::*;

use vstd::utf8::{decode_utf8, valid_utf8};

verus! {

/// What the filesystem reports about an entry.
#[derive(Clone, Copy, Debug, PartialEq, Eq, Structural)]
pub struct Metadata {
    pub is_dir: bool,
    pub is_file: bool,
}

/// The mathematical value of a `Content`.
pub enum ContentView {
    Binary(Seq<u8>),
    Text(Seq<char>),
}

/// A file's loaded content: its text if the bytes decode as UTF-8, and
/// the raw bytes otherwise. Text-oriented lints skip `Binary` content;
/// a failed decode is not an error.
#[derive(Clone, Debug)]
pub enum Content {
    Binary(Vec<u8>),
    Text(String),
}

impl View for Content {
    type V = ContentView;

    open spec fn view(&self) -> ContentView {
        match self {
            Content::Binary(b) => ContentView::Binary(b@),
            Content::Text(t) => ContentView::Text(t@),
        }
    }
}

/// Relies on `String::from_utf8`: bytes that are valid UTF-8 decode to
/// the text they encode, and on failure `into_bytes` on the error
/// returns the original bytes unchanged.
#[verifier::external_body]
fn decode_bytes(bytes: Vec<u8>) -> (r: Result<String, Vec<u8>>)
    ensures
        match r {
            Ok(s) => valid_utf8(bytes@) && s@ == decode_utf8(bytes@),
            Err(b) => !valid_utf8(bytes@) && b@ == bytes@,
        },
{
    match String::from_utf8(bytes) {
        Ok(s) => Ok(s),
        Err(e) => Err(e.into_bytes()),
    }
}

/// The content a file holds once its bytes are loaded: text when they
/// decode as UTF-8, the original bytes otherwise.
pub open spec fn content_of(bytes: Seq<u8>) -> ContentView {
    if valid_utf8(bytes) {
        ContentView::Text(decode_utf8(bytes))
    } else {
        ContentView::Binary(bytes)
    }
}

/// Turns loaded bytes into `Content`, matching `content_of`.
pub fn decode_content(bytes: Vec<u8>) -> (c: Content)
    ensures
        c@ == content_of(bytes@),
{
    match decode_bytes(bytes) {
        Ok(s) => Content::Text(s),
        Err(b) => Content::Binary(b),
    }
}

/// One immediate child reported by listing a directory.
#[derive(Clone, Debug)]
pub struct ChildEntry {
    pub path: String,
    pub meta: Metadata,
}

/// The sub-directories among a listing, in discovery order.
pub open spec fn child_dirs(listing: Seq<ChildEntry>) -> Seq<ChildEntry> {
    listing.filter(|c: ChildEntry| c.meta.is_dir)
}

/// The regular files among a listing, in discovery order.
pub open spec fn child_files(listing: Seq<ChildEntry>) -> Seq<ChildEntry> {
    listing.filter(|c: ChildEntry| !c.meta.is_dir && c.meta.is_file)
}

/// The children of an expanded directory: sub-directories apart from
/// files, each a node index into the arena.
#[derive(Debug)]
pub struct DirEntries {
    pub directories: Vec<usize>,
    pub files: Vec<usize>,
}

/// One node of the project tree. `entries`/`content` being `None`
/// means "not yet loaded", which is distinct from "empty".
#[derive(Debug)]
pub enum Node {
    Directory { path: String, meta: Metadata, entries: Option<DirEntries> },
    File { path: String, meta: Metadata, content: Option<Content> },
}

/// An unexpanded directory node for the given listing entry.
pub open spec fn fresh_dir(c: ChildEntry, n: Node) -> bool {
    match n {
        Node::Directory { path, meta, entries } => path@ == c.path@ && meta == c.meta && entries
            is None,
        _ => false,
    }
}

/// An unloaded file node for the given listing entry.
pub open spec fn fresh_file(c: ChildEntry, n: Node) -> bool {
    match n {
        Node::File { path, meta, content } => path@ == c.path@ && meta == c.meta && content
            is None,
        _ => false,
    }
}

/// An arena edit that replaces node `id` and appends only well-formed
/// nodes keeps the whole tree well formed.
proof fn lemma_wf_preserved(t0: Tree, t1: Tree, id: int)
    requires
        t0.wf(),
        0 <= id < t0.nodes@.len(),
        t1.nodes@.len() >= t0.nodes@.len(),
        forall|k: int| 0 <= k < t0.nodes@.len() && k != id ==> t1.nodes@[k] == t0.nodes@[k],
        t1.nodes@[id] is Directory <==> t0.nodes@[id] is Directory,
        t1.node_wf(id),
        forall|k: int| t0.nodes@.len() <= k < t1.nodes@.len() ==> #[trigger] t1.node_wf(k),
    ensures
        t1.wf(),
{
    let n0 = t0.nodes@.len() as int;
    assert(t1.nodes@[0] is Directory);
    assert forall|i: int| 0 <= i < t1.nodes@.len() implies #[trigger] t1.node_wf(i) by {
        if i < n0 && i != id {
            assert(t1.nodes@[i] == t0.nodes@[i]);
            assert(t0.node_wf(i));
            match t1.nodes@[i] {
                Node::Directory { entries: Some(e), .. } => {
                    assert forall|k: int| 0 <= k < e.directories@.len() implies i
                        < #[trigger] e.directories@[k] < t1.nodes@.len()
                        && t1.nodes@[e.directories@[k] as int] is Directory by {
                        let c = e.directories@[k] as int;
                        assert(i < c < n0 && t0.nodes@[c] is Directory);
                        if c != id {
                            assert(t1.nodes@[c] == t0.nodes@[c]);
                        }
                    }
                    assert forall|k: int| 0 <= k < e.files@.len() implies i < #[trigger] e.files@[k]
                        < t1.nodes@.len() && t1.nodes@[e.files@[k] as int] is File by {
                        let c = e.files@[k] as int;
                        assert(i < c < n0 && t0.nodes@[c] is File);
                        if c != id {
                            assert(t1.nodes@[c] == t0.nodes@[c]);
                        } else {
                            assert(t0.nodes@[id] is File);
                            assert(!(t0.nodes@[id] is Directory));
                            assert(t1.nodes@[id] is File || t1.nodes@[id] is Directory);
                        }
                    }
                },
                _ => {},
            }
        }
    }
}

/// A project: the arena of tree nodes, rooted at node 0. Nodes are
/// addressed by index; expansion appends children, so every child's
/// index is strictly greater than its parent's, and the tree can hold
/// no cycle.
#[derive(Debug)]
pub struct Tree {
    pub nodes: Vec<Node>,
}

impl Tree {
    /// Every child index of node `i` points past `i`, into the arena,
    /// and at a node of the right kind.
    pub open spec fn node_wf(self, i: int) -> bool {
        match self.nodes@[i] {
            Node::Directory { entries: Some(e), .. } => {
                &&& forall|k: int|
                    0 <= k < e.directories@.len() ==> i < #[trigger] e.directories@[k]
                        < self.nodes@.len() && self.nodes@[e.directories@[k] as int] is Directory
                &&& forall|k: int|
                    0 <= k < e.files@.len() ==> i < #[trigger] e.files@[k] < self.nodes@.len()
                        && self.nodes@[e.files@[k] as int] is File
            },
            _ => true,
        }
    }

    /// The tree invariant: a directory at the root, and every node's
    /// children behind it in the arena.
    pub open spec fn wf(self) -> bool {
        &&& self.nodes@.len() >= 1
        &&& self.nodes@[0] is Directory
        &&& forall|i: int| 0 <= i < self.nodes@.len() ==> #[trigger] self.node_wf(i)
    }

    /// Whether the directory node `i` has been expanded.
    pub open spec fn spec_dir_expanded(self, i: int) -> bool {
        match self.nodes@[i] {
            Node::Directory { entries, .. } => entries is Some,
            _ => false,
        }
    }

    /// Whether the file node `i` has loaded content.
    pub open spec fn spec_file_loaded(self, i: int) -> bool {
        match self.nodes@[i] {
            Node::File { content, .. } => content is Some,
            _ => false,
        }
    }

    /// The path of node `i`.
    pub open spec fn spec_path(self, i: int) -> Seq<char> {
        match self.nodes@[i] {
            Node::Directory { path, .. } => path@,
            Node::File { path, .. } => path@,
        }
    }

    /// A project tree of one unexpanded directory: the canonicalized
    /// root.
    pub fn new(path: String, meta: Metadata) -> (t: Tree)
        ensures
            t.wf(),
            t.nodes@.len() == 1,
            fresh_dir(ChildEntry { path, meta }, t.nodes@[0]),
    {
        let root = Node::Directory { path, meta, entries: None };
        let mut nodes = Vec::new();
        nodes.push(root);
        Tree { nodes }
    }

    /// How many nodes the arena holds.
    pub fn node_count(&self) -> (n: usize)
        ensures
            n == self.nodes@.len(),
    {
        self.nodes.len()
    }

    /// Whether node `id` is a directory.
    pub fn is_dir(&self, id: usize) -> (r: bool)
        requires
            id < self.nodes@.len(),
        ensures
            r == self.nodes@[id as int] is Directory,
    {
        match &self.nodes[id] {
            Node::Directory { .. } => true,
            Node::File { .. } => false,
        }
    }

    /// Whether directory node `id` is already expanded.
    pub fn dir_expanded(&self, id: usize) -> (r: bool)
        requires
            id < self.nodes@.len(),
        ensures
            r == self.spec_dir_expanded(id as int),
    {
        match &self.nodes[id] {
            Node::Directory { entries, .. } => entries.is_some(),
            Node::File { .. } => false,
        }
    }

    /// Whether file node `id` already holds content.
    pub fn file_loaded(&self, id: usize) -> (r: bool)
        requires
            id < self.nodes@.len(),
        ensures
            r == self.spec_file_loaded(id as int),
    {
        match &self.nodes[id] {
            Node::File { content, .. } => content.is_some(),
            Node::Directory { .. } => false,
        }
    }

    /// The path of node `id`.
    pub fn path_of(&self, id: usize) -> (p: String)
        requires
            id < self.nodes@.len(),
        ensures
            p@ == self.spec_path(id as int),
    {
        match &self.nodes[id] {
            Node::Directory { path, .. } => path.clone(),
            Node::File { path, .. } => path.clone(),
        }
    }

    /// The metadata of node `id`.
    pub fn meta_of(&self, id: usize) -> (m: Metadata)
        requires
            id < self.nodes@.len(),
        ensures
            match self.nodes@[id as int] {
                Node::Directory { meta, .. } => m == meta,
                Node::File { meta, .. } => m == meta,
            },
    {
        match &self.nodes[id] {
            Node::Directory { meta, .. } => *meta,
            Node::File { meta, .. } => *meta,
        }
    }

    /// The loaded content of file node `id`, if any.
    pub fn content_at(&self, id: usize) -> (c: Option<&Content>)
        requires
            id < self.nodes@.len(),
        ensures
            match self.nodes@[id as int] {
                Node::File { content: Some(inner), .. } => c matches Some(cc) && *cc == inner,
                _ => c is None,
            },
    {
        match &self.nodes[id] {
            Node::File { content: Some(c), .. } => Some(c),
            _ => None,
        }
    }

    /// The child node indices of directory `id`: sub-directories and
    /// files, each in discovery order, or `None` while unexpanded.
    pub fn entries_of(&self, id: usize) -> (e: Option<(Vec<usize>, Vec<usize>)>)
        requires
            id < self.nodes@.len(),
        ensures
            match self.nodes@[id as int] {
                Node::Directory { entries: Some(inner), .. } => e matches Some(ee)
                    && ee.0@ == inner.directories@ && ee.1@ == inner.files@,
                _ => e is None,
            },
    {
        match &self.nodes[id] {
            Node::Directory { entries: Some(e), .. } => Some(
                (e.directories.clone(), e.files.clone()),
            ),
            _ => None,
        }
    }

    /// Expands directory `id` with the listing of its immediate
    /// children. A second call without an intervening `collapse_dir`
    /// leaves the tree untouched, so the one filesystem read per
    /// expansion is never repeated; otherwise the listing is
    /// partitioned into sub-directories and files, each child stored
    /// as a fresh unexpanded node in discovery order.
    pub fn expand_dir(&mut self, id: usize, listing: Vec<ChildEntry>)
        requires
            old(self).wf(),
            id < old(self).nodes@.len(),
            old(self).nodes@[id as int] is Directory,
        ensures
            final(self).wf(),
            old(self).spec_dir_expanded(id as int) ==> *final(self) == *old(self),
            !old(self).spec_dir_expanded(id as int) ==> {
                let n0 = old(self).nodes@.len() as int;
                let d = child_dirs(listing@);
                let f = child_files(listing@);
                &&& final(self).nodes@.len() == n0 + d.len() + f.len()
                &&& forall|k: int|
                    0 <= k < n0 && k != id ==> final(self).nodes@[k] == old(self).nodes@[k]
                &&& forall|k: int|
                    0 <= k < d.len() ==> fresh_dir(d[k], #[trigger] final(self).nodes@[n0 + k])
                &&& forall|k: int|
                    0 <= k < f.len() ==> fresh_file(
                        f[k],
                        #[trigger] final(self).nodes@[n0 + d.len() + k],
                    )
                &&& match final(self).nodes@[id as int] {
                    Node::Directory { path, meta, entries } => {
                        &&& path@ == old(self).spec_path(id as int)
                        &&& match old(self).nodes@[id as int] {
                            Node::Directory { meta: m0, .. } => meta == m0,
                            _ => false,
                        }
                        &&& match entries {
                            Some(e) => {
                                &&& e.directories@.len() == d.len()
                                &&& forall|k: int|
                                    0 <= k < d.len() ==> #[trigger] e.directories@[k] == n0 + k
                                &&& e.files@.len() == f.len()
                                &&& forall|k: int|
                                    0 <= k < f.len() ==> #[trigger] e.files@[k] == n0 + d.len() + k
                            },
                            None => false,
                        }
                    },
                    _ => false,
                }
            },
    {
        let ghost t0 = *self;
        let (path0, meta0, already) = match &self.nodes[id] {
            Node::Directory { path, meta, entries } => (path.clone(), *meta, entries.is_some()),
            Node::File { .. } => (String::new(), Metadata { is_dir: false, is_file: false }, true),
        };
        if already {
            return ;
        }
        let ghost n0 = self.nodes@.len() as int;
        let ghost d = child_dirs(listing@);
        let ghost f = child_files(listing@);

        let mut directories: Vec<usize> = Vec::new();
        let n = listing.len();
        let mut i: usize = 0;
        while i < n
            invariant
                0 <= i <= n,
                n == listing@.len(),
                self.nodes@.len() == n0 + child_dirs(listing@.take(i as int)).len(),
                n0 == t0.nodes@.len(),
                forall|k: int| 0 <= k < n0 ==> self.nodes@[k] == t0.nodes@[k],
                directories@.len() == child_dirs(listing@.take(i as int)).len(),
                forall|k: int|
                    0 <= k < directories@.len() ==> #[trigger] directories@[k] == n0 + k,
                forall|k: int|
                    0 <= k < child_dirs(listing@.take(i as int)).len() ==> fresh_dir(
                        child_dirs(listing@.take(i as int))[k],
                        #[trigger] self.nodes@[n0 + k],
                    ),
            decreases n - i,
        {
            let ghost prefix = listing@.take(i as int);
            let c = &listing[i];
            if c.meta.is_dir {
                let idx = self.nodes.len();
                self.nodes.push(
                    Node::Directory { path: c.path.clone(), meta: c.meta, entries: None },
                );
                directories.push(idx);
            }
            i = i + 1;
            proof {
                reveal(Seq::filter);
                let t = listing@.take(i as int);
                assert(t.drop_last() =~= prefix);
                assert(t.last() == listing@[i - 1]);
                if listing@[i - 1].meta.is_dir {
                    assert(child_dirs(t) =~= child_dirs(prefix).push(listing@[i - 1]));
                } else {
                    assert(child_dirs(t) =~= child_dirs(prefix));
                }
                assert forall|k: int| 0 <= k < child_dirs(t).len() implies fresh_dir(
                    child_dirs(t)[k],
                    #[trigger] self.nodes@[n0 + k],
                ) by {
                    if k == child_dirs(prefix).len() {
                        assert(child_dirs(t)[k] == listing@[i - 1]);
                    }
                }
            }
        }
        proof {
            assert(listing@.take(n as int) =~= listing@);
        }

        let mut files: Vec<usize> = Vec::new();
        let ghost nd = self.nodes@.len() as int;
        let mut j: usize = 0;
        while j < n
            invariant
                0 <= j <= n,
                n == listing@.len(),
                n0 == t0.nodes@.len(),
                nd == n0 + d.len(),
                d == child_dirs(listing@),
                self.nodes@.len() == nd + child_files(listing@.take(j as int)).len(),
                forall|k: int| 0 <= k < n0 ==> self.nodes@[k] == t0.nodes@[k],
                forall|k: int|
                    0 <= k < d.len() ==> fresh_dir(d[k], #[trigger] self.nodes@[n0 + k]),
                files@.len() == child_files(listing@.take(j as int)).len(),
                forall|k: int| 0 <= k < files@.len() ==> #[trigger] files@[k] == nd + k,
                forall|k: int|
                    0 <= k < child_files(listing@.take(j as int)).len() ==> fresh_file(
                        child_files(listing@.take(j as int))[k],
                        #[trigger] self.nodes@[nd + k],
                    ),
            decreases n - j,
        {
            let ghost prefix = listing@.take(j as int);
            let ghost pre = self.nodes@;
            let c = &listing[j];
            if !c.meta.is_dir && c.meta.is_file {
                let idx = self.nodes.len();
                self.nodes.push(Node::File { path: c.path.clone(), meta: c.meta, content: None });
                files.push(idx);
            }
            j = j + 1;
            proof {
                assert(forall|k: int| 0 <= k < pre.len() ==> #[trigger] self.nodes@[k] == pre[k]);
                reveal(Seq::filter);
                let t = listing@.take(j as int);
                assert(t.drop_last() =~= prefix);
                assert(t.last() == listing@[j - 1]);
                if !listing@[j - 1].meta.is_dir && listing@[j - 1].meta.is_file {
                    assert(child_files(t) =~= child_files(prefix).push(listing@[j - 1]));
                } else {
                    assert(child_files(t) =~= child_files(prefix));
                }
                assert forall|k: int| 0 <= k < d.len() implies fresh_dir(
                    d[k],
                    #[trigger] self.nodes@[n0 + k],
                ) by {
                    assert(self.nodes@[n0 + k] == pre[n0 + k]);
                    assert(fresh_dir(d[k], pre[n0 + k]));
                }
                assert forall|k: int| 0 <= k < child_files(t).len() implies fresh_file(
                    child_files(t)[k],
                    #[trigger] self.nodes@[nd + k],
                ) by {
                    if k < child_files(prefix).len() {
                        assert(self.nodes@[nd + k] == pre[nd + k]);
                        assert(fresh_file(child_files(prefix)[k], pre[nd + k]));
                    } else {
                        assert(child_files(t)[k] == listing@[j - 1]);
                    }
                }
            }
        }
        proof {
            assert(listing@.take(n as int) =~= listing@);
        }

        let ghost loopend = self.nodes@;
        self.nodes[id] = Node::Directory {
            path: path0,
            meta: meta0,
            entries: Some(DirEntries { directories, files }),
        };
        proof {
            let t1 = *self;
            assert(forall|k: int|
                0 <= k < loopend.len() && k != id ==> #[trigger] t1.nodes@[k] == loopend[k]);
            assert forall|k: int| n0 <= k < t1.nodes@.len() implies #[trigger] t1.node_wf(k) by {
                if k < n0 + d.len() {
                    assert(t1.nodes@[k] == loopend[k]);
                    assert(loopend[n0 + (k - n0)] == loopend[k]);
                    assert(fresh_dir(d[k - n0], loopend[n0 + (k - n0)]));
                    assert(fresh_dir(d[k - n0], t1.nodes@[k]));
                } else {
                    assert(t1.nodes@[k] == loopend[k]);
                    assert(loopend[nd + (k - nd)] == loopend[k]);
                    assert(fresh_file(child_files(listing@)[k - nd], loopend[nd + (k - nd)]));
                    assert(fresh_file(f[k - (n0 + d.len())], t1.nodes@[k]));
                }
            }
            assert forall|k: int| 0 <= k < d.len() implies fresh_dir(
                d[k],
                #[trigger] t1.nodes@[n0 + k],
            ) by {
                assert(t1.nodes@[n0 + k] == loopend[n0 + k]);
                assert(fresh_dir(d[k], loopend[n0 + k]));
            }
            assert forall|k: int| 0 <= k < f.len() implies fresh_file(
                f[k],
                #[trigger] t1.nodes@[n0 + d.len() + k],
            ) by {
                assert(t1.nodes@[n0 + d.len() + k] == loopend[nd + k]);
                assert(fresh_file(child_files(listing@)[k], loopend[nd + k]));
            }
            assert(t1.node_wf(id as int)) by {
                match t1.nodes@[id as int] {
                    Node::Directory { entries: Some(e), .. } => {
                        assert forall|k: int| 0 <= k < e.directories@.len() implies id
                            < #[trigger] e.directories@[k] < t1.nodes@.len()
                            && t1.nodes@[e.directories@[k] as int] is Directory by {
                            assert(e.directories@[k] == n0 + k);
                            assert(fresh_dir(d[k], t1.nodes@[n0 + k]));
                        }
                        assert forall|k: int| 0 <= k < e.files@.len() implies id
                            < #[trigger] e.files@[k] < t1.nodes@.len()
                            && t1.nodes@[e.files@[k] as int] is File by {
                            assert(e.files@[k] == n0 + d.len() + k);
                            assert(fresh_file(f[k], t1.nodes@[n0 + d.len() + k]));
                        }
                    },
                    _ => {
                        assert(false);
                    },
                }
            }
            lemma_wf_preserved(t0, t1, id as int);
        }
    }

    /// Returns directory `id` to the unexpanded state, discarding its
    /// cached entry lists unconditionally. The nodes of the discarded
    /// subtree stay in the arena unreferenced; a later expansion
    /// appends fresh ones.
    pub fn collapse_dir(&mut self, id: usize)
        requires
            old(self).wf(),
            id < old(self).nodes@.len(),
            old(self).nodes@[id as int] is Directory,
        ensures
            final(self).wf(),
            final(self).nodes@.len() == old(self).nodes@.len(),
            forall|k: int|
                0 <= k < old(self).nodes@.len() && k != id ==> final(self).nodes@[k] == old(
                    self,
                ).nodes@[k],
            !final(self).spec_dir_expanded(id as int),
            final(self).spec_path(id as int) == old(self).spec_path(id as int),
            final(self).nodes@[id as int] is Directory,
            match (final(self).nodes@[id as int], old(self).nodes@[id as int]) {
                (Node::Directory { meta: m1, .. }, Node::Directory { meta: m0, .. }) => m1 == m0,
                _ => false,
            },
    {
        let (path0, meta0) = match &self.nodes[id] {
            Node::Directory { path, meta, .. } => (path.clone(), *meta),
            Node::File { .. } => (String::new(), Metadata { is_dir: false, is_file: false }),
        };
        let ghost t0 = *self;
        self.nodes[id] = Node::Directory { path: path0, meta: meta0, entries: None };
        proof {
            lemma_wf_preserved(t0, *self, id as int);
        }
    }

    /// Loads file `id` with the bytes read from it, decoding them as
    /// UTF-8 into text or keeping them as binary content. A second
    /// call without an intervening `collapse_file` leaves the tree
    /// untouched.
    pub fn expand_file(&mut self, id: usize, bytes: Vec<u8>)
        requires
            old(self).wf(),
            id < old(self).nodes@.len(),
            old(self).nodes@[id as int] is File,
        ensures
            final(self).wf(),
            old(self).spec_file_loaded(id as int) ==> *final(self) == *old(self),
            !old(self).spec_file_loaded(id as int) ==> {
                &&& final(self).nodes@.len() == old(self).nodes@.len()
                &&& forall|k: int|
                    0 <= k < old(self).nodes@.len() && k != id ==> final(self).nodes@[k] == old(
                        self,
                    ).nodes@[k]
                &&& match final(self).nodes@[id as int] {
                    Node::File { path, meta, content } => {
                        &&& path@ == old(self).spec_path(id as int)
                        &&& match old(self).nodes@[id as int] {
                            Node::File { meta: m0, .. } => meta == m0,
                            _ => false,
                        }
                        &&& content matches Some(c) && c@ == content_of(bytes@)
                    },
                    _ => false,
                }
            },
    {
        let (path0, meta0, already) = match &self.nodes[id] {
            Node::File { path, meta, content } => (path.clone(), *meta, content.is_some()),
            Node::Directory { .. } => (
                String::new(),
                Metadata { is_dir: false, is_file: false },
                true,
            ),
        };
        if already {
            return ;
        }
        let ghost t0 = *self;
        let content = decode_content(bytes);
        self.nodes[id] = Node::File { path: path0, meta: meta0, content: Some(content) };
        proof {
            lemma_wf_preserved(t0, *self, id as int);
        }
    }

    /// Returns file `id` to the unloaded state, reclaiming its cached
    /// content unconditionally.
    pub fn collapse_file(&mut self, id: usize)
        requires
            old(self).wf(),
            id < old(self).nodes@.len(),
            old(self).nodes@[id as int] is File,
        ensures
            final(self).wf(),
            final(self).nodes@.len() == old(self).nodes@.len(),
            forall|k: int|
                0 <= k < old(self).nodes@.len() && k != id ==> final(self).nodes@[k] == old(
                    self,
                ).nodes@[k],
            !final(self).spec_file_loaded(id as int),
            final(self).spec_path(id as int) == old(self).spec_path(id as int),
            final(self).nodes@[id as int] is File,
            match (final(self).nodes@[id as int], old(self).nodes@[id as int]) {
                (Node::File { meta: m1, .. }, Node::File { meta: m0, .. }) => m1 == m0,
                _ => false,
            },
    {
        let (path0, meta0) = match &self.nodes[id] {
            Node::File { path, meta, .. } => (path.clone(), *meta),
            Node::Directory { .. } => (String::new(), Metadata { is_dir: false, is_file: false }),
        };
        let ghost t0 = *self;
        self.nodes[id] = Node::File { path: path0, meta: meta0, content: None };
        proof {
            lemma_wf_preserved(t0, *self, id as int);
        }
    }
}

/// The one filesystem access a node still needs: listing a directory's
/// children, or reading a file's bytes.
#[derive(Clone, Debug)]
pub enum LoadRequest {
    List { id: usize, path: String },
    Read { id: usize, path: String },
}

impl Tree {
    /// The loading protocol: the next node that still needs its
    /// filesystem access, or `None` once every directory is expanded
    /// and every file is loaded. A load driver alternates this
    /// decision with the access it names and the matching
    /// `expand_dir`/`expand_file` call; the tree itself never touches
    /// the filesystem.
    pub fn next_load(&self) -> (r: Option<LoadRequest>)
        ensures
            match r {
                Some(LoadRequest::List { id, path }) => {
                    &&& id < self.nodes@.len()
                    &&& self.nodes@[id as int] is Directory
                    &&& !self.spec_dir_expanded(id as int)
                    &&& path@ == self.spec_path(id as int)
                },
                Some(LoadRequest::Read { id, path }) => {
                    &&& id < self.nodes@.len()
                    &&& self.nodes@[id as int] is File
                    &&& !self.spec_file_loaded(id as int)
                    &&& path@ == self.spec_path(id as int)
                },
                None => forall|k: int|
                    0 <= k < self.nodes@.len() ==> (#[trigger] self.spec_dir_expanded(k)
                        || self.spec_file_loaded(k)),
            },
    {
        let n = self.nodes.len();
        let mut i: usize = 0;
        while i < n
            invariant
                0 <= i <= n,
                n == self.nodes@.len(),
                forall|k: int|
                    0 <= k < i ==> (#[trigger] self.spec_dir_expanded(k)
                        || self.spec_file_loaded(k)),
            decreases n - i,
        {
            match &self.nodes[i] {
                Node::Directory { path, entries, .. } => {
                    if entries.is_none() {
                        return Some(LoadRequest::List { id: i, path: path.clone() });
                    }
                },
                Node::File { path, content, .. } => {
                    if content.is_none() {
                        return Some(LoadRequest::Read { id: i, path: path.clone() });
                    }
                },
            }
            i = i + 1;
        }
        None
    }
}

} // verus!
