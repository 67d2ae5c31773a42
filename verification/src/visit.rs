//! The traversal protocol over the project tree: a generic enter/leave
//! walk in fixed order (a directory's sub-directories before its files,
//! each in discovery order). Traversal never forces expansion: an
//! unexpanded node is reported as a single `Truncated` enter/leave
//! pair, so a visitor can react to missing data without the walk
//! itself performing any input or output.

use vstd::prelude::*;

use crate::text::{repeat_seq, repeat_str};
use crate::tree::{Node, Tree};

verus! {

/// The node a traversal hands to its visitor. `Truncated` stands for
/// a subtree that exists but is not yet loaded.
#[derive(Clone, Copy, Debug, PartialEq, Eq, Structural, Hash)]
pub enum VisitNode {
    Truncated,
    Project,
    Directory { id: usize },
    File { id: usize },
    Content { id: usize },
}

/// One step of a traversal.
#[derive(Clone, Copy, Debug, PartialEq, Eq, Structural, Hash)]
pub enum Event {
    Enter(VisitNode),
    Leave(VisitNode),
}

/// One call a traversal hands to its visitor, together with the
/// verdict the visitor returned: an element of the interaction trace.
#[derive(Clone, Copy, Debug, PartialEq, Eq, Structural, Hash)]
pub enum Step {
    Enter(VisitNode, bool),
    Leave(VisitNode, bool),
}

/// The event sequence of a full walk of node `id`: enter, the
/// children or content (or one `Truncated` pair where not yet
/// loaded), leave.
pub open spec fn walk_node(t: Tree, id: int) -> Seq<Event>
    decreases t.nodes@.len() - id, 1int, 0int,
        when t.wf() && 0 <= id < t.nodes@.len()
{
    match t.nodes@[id] {
        Node::Directory { entries, .. } => match entries {
            Some(e) => seq![Event::Enter(VisitNode::Directory { id: id as usize })] + walk_list(
                t,
                id,
                e.directories@,
            ) + walk_list(t, id, e.files@) + seq![
                Event::Leave(VisitNode::Directory { id: id as usize }),
            ],
            None => seq![
                Event::Enter(VisitNode::Directory { id: id as usize }),
                Event::Enter(VisitNode::Truncated),
                Event::Leave(VisitNode::Truncated),
                Event::Leave(VisitNode::Directory { id: id as usize }),
            ],
        },
        Node::File { content, .. } => match content {
            Some(_) => seq![
                Event::Enter(VisitNode::File { id: id as usize }),
                Event::Enter(VisitNode::Content { id: id as usize }),
                Event::Leave(VisitNode::Content { id: id as usize }),
                Event::Leave(VisitNode::File { id: id as usize }),
            ],
            None => seq![
                Event::Enter(VisitNode::File { id: id as usize }),
                Event::Enter(VisitNode::Truncated),
                Event::Leave(VisitNode::Truncated),
                Event::Leave(VisitNode::File { id: id as usize }),
            ],
        },
    }
}

/// The event sequences of the nodes in `ids`, joined in order. The
/// guard on each index never fails on a well-formed tree.
pub open spec fn walk_list(t: Tree, parent: int, ids: Seq<usize>) -> Seq<Event>
    decreases t.nodes@.len() - parent, 0int, ids.len(),
        when t.wf() && 0 <= parent < t.nodes@.len()
{
    if ids.len() == 0 {
        Seq::empty()
    } else if parent < ids[0] < t.nodes@.len() {
        walk_node(t, ids[0] as int) + walk_list(t, parent, ids.drop_first())
    } else {
        Seq::empty()
    }
}

/// The event sequence of a full walk of the whole project: the
/// project node, then its root directory.
pub open spec fn walk_tree(t: Tree) -> Seq<Event> {
    seq![Event::Enter(VisitNode::Project)] + walk_node(t, 0) + seq![
        Event::Leave(VisitNode::Project),
    ]
}

/// Walking an unexpanded file node yields exactly one `Truncated`
/// enter/leave pair between the file's own events, and no `Content`
/// event: nothing in the walk touches the file's bytes.
pub proof fn lemma_walk_unloaded_file(t: Tree, id: int)
    requires
        t.wf(),
        0 <= id < t.nodes@.len(),
        t.nodes@[id] is File,
        !t.spec_file_loaded(id),
    ensures
        walk_node(t, id) =~= seq![
            Event::Enter(VisitNode::File { id: id as usize }),
            Event::Enter(VisitNode::Truncated),
            Event::Leave(VisitNode::Truncated),
            Event::Leave(VisitNode::File { id: id as usize }),
        ],
{
}

/// Appends the full walk of node `id` to `out`.
fn walk_node_into(t: &Tree, id: usize, out: &mut Vec<Event>)
    requires
        t.wf(),
        id < t.nodes@.len(),
    ensures
        final(out)@ == old(out)@ + walk_node(*t, id as int),
    decreases t.nodes@.len() - id, 1int, 0int,
{
    let ghost base = out@;
    if t.is_dir(id) {
        match t.entries_of(id) {
            Some((dirs, files)) => {
                out.push(Event::Enter(VisitNode::Directory { id }));
                let ghost base1 = out@;
                proof {
                    assert(dirs@.skip(0) =~= dirs@);
                }
                let nd = dirs.len();
                let mut k: usize = 0;
                while k < nd
                    invariant
                        0 <= k <= nd,
                        t.wf(),
                        id < t.nodes@.len(),
                        nd == dirs@.len(),
                        match t.nodes@[id as int] {
                            Node::Directory { entries: Some(e), .. } => dirs@ == e.directories@,
                            _ => false,
                        },
                        out@ + walk_list(*t, id as int, dirs@.skip(k as int)) =~= base1
                            + walk_list(*t, id as int, dirs@),
                    decreases nd - k,
                {
                    proof {
                        assert(t.node_wf(id as int));
                        assert(id < dirs@[k as int] < t.nodes@.len());
                        assert(dirs@.skip(k as int).drop_first() =~= dirs@.skip(k + 1));
                        assert(dirs@.skip(k as int)[0] == dirs@[k as int]);
                        assert(walk_list(*t, id as int, dirs@.skip(k as int)) =~= walk_node(
                            *t,
                            dirs@[k as int] as int,
                        ) + walk_list(*t, id as int, dirs@.skip(k + 1)));
                    }
                    walk_node_into(t, dirs[k], out);
                    k = k + 1;
                }
                proof {
                    assert(dirs@.skip(nd as int).len() == 0);
                    assert(out@ =~= base1 + walk_list(*t, id as int, dirs@));
                    assert(files@.skip(0) =~= files@);
                }
                let ghost base2 = out@;
                let nf = files.len();
                let mut k2: usize = 0;
                while k2 < nf
                    invariant
                        0 <= k2 <= nf,
                        t.wf(),
                        id < t.nodes@.len(),
                        nf == files@.len(),
                        match t.nodes@[id as int] {
                            Node::Directory { entries: Some(e), .. } => files@ == e.files@,
                            _ => false,
                        },
                        out@ + walk_list(*t, id as int, files@.skip(k2 as int)) =~= base2
                            + walk_list(*t, id as int, files@),
                    decreases nf - k2,
                {
                    proof {
                        assert(t.node_wf(id as int));
                        assert(id < files@[k2 as int] < t.nodes@.len());
                        assert(files@.skip(k2 as int).drop_first() =~= files@.skip(k2 + 1));
                        assert(files@.skip(k2 as int)[0] == files@[k2 as int]);
                        assert(walk_list(*t, id as int, files@.skip(k2 as int)) =~= walk_node(
                            *t,
                            files@[k2 as int] as int,
                        ) + walk_list(*t, id as int, files@.skip(k2 + 1)));
                    }
                    walk_node_into(t, files[k2], out);
                    k2 = k2 + 1;
                }
                out.push(Event::Leave(VisitNode::Directory { id }));
                proof {
                    assert(files@.skip(nf as int).len() == 0);
                    assert(out@ =~= base + walk_node(*t, id as int));
                }
            },
            None => {
                out.push(Event::Enter(VisitNode::Directory { id }));
                out.push(Event::Enter(VisitNode::Truncated));
                out.push(Event::Leave(VisitNode::Truncated));
                out.push(Event::Leave(VisitNode::Directory { id }));
                proof {
                    assert(out@ =~= base + walk_node(*t, id as int));
                }
            },
        }
    } else {
        out.push(Event::Enter(VisitNode::File { id }));
        if t.file_loaded(id) {
            out.push(Event::Enter(VisitNode::Content { id }));
            out.push(Event::Leave(VisitNode::Content { id }));
        } else {
            out.push(Event::Enter(VisitNode::Truncated));
            out.push(Event::Leave(VisitNode::Truncated));
        }
        out.push(Event::Leave(VisitNode::File { id }));
        proof {
            assert(out@ =~= base + walk_node(*t, id as int));
        }
    }
}

/// The full walk of the project as a value: every node visited, in
/// traversal order, matching `walk_tree`.
pub fn walk_events(t: &Tree) -> (ev: Vec<Event>)
    requires
        t.wf(),
    ensures
        ev@ == walk_tree(*t),
{
    let mut out: Vec<Event> = Vec::new();
    out.push(Event::Enter(VisitNode::Project));
    walk_node_into(t, 0, &mut out);
    out.push(Event::Leave(VisitNode::Project));
    proof {
        assert(out@ =~= walk_tree(*t));
    }
    out
}

/// A visitor drives a traversal: `enter` returns whether to descend
/// into the node's children, `leave` whether to keep walking its
/// siblings. Each implementation names its interaction trace — the
/// calls received so far, with the verdicts it returned — the verdict
/// each call returns in the current state, and whatever else one call
/// guarantees, so a traversal's contract can fix exactly what the
/// visitor is shown.
pub trait Visitor: Sized {
    /// The calls this visitor has received so far, in order, each
    /// with the verdict it returned.
    spec fn seen(&self) -> Seq<Step>;

    /// The verdict `enter` returns in the current state.
    spec fn spec_enter(&self, tree: &Tree, node: VisitNode) -> bool;

    /// The verdict `leave` returns in the current state.
    spec fn spec_leave(&self, tree: &Tree, node: VisitNode) -> bool;

    /// What else one `enter` call guarantees of the successor state;
    /// chosen by the implementation.
    spec fn enter_post(&self, tree: &Tree, node: VisitNode, post: Self) -> bool;

    /// What else one `leave` call guarantees of the successor state;
    /// chosen by the implementation.
    spec fn leave_post(&self, tree: &Tree, node: VisitNode, post: Self) -> bool;

    /// Shows the visitor a node on the way down; true means descend
    /// into its children.
    fn enter(&mut self, tree: &Tree, node: VisitNode) -> (r: bool)
        ensures
            r == old(self).spec_enter(tree, node),
            final(self).seen() == old(self).seen().push(Step::Enter(node, r)),
            old(self).enter_post(tree, node, *final(self)),
    ;

    /// Shows the visitor a node on the way up; true means keep
    /// walking its siblings.
    fn leave(&mut self, tree: &Tree, node: VisitNode) -> (r: bool)
        ensures
            r == old(self).spec_leave(tree, node),
            final(self).seen() == old(self).seen().push(Step::Leave(node, r)),
            old(self).leave_post(tree, node, *final(self)),
    ;
}

/// Reads one leave call for `me` off the front of a trace: its
/// verdict and the remainder.
pub open spec fn eat_leave(me: VisitNode, delta: Seq<Step>) -> Option<(Seq<Step>, bool)> {
    if delta.len() == 0 {
        None
    } else {
        match delta[0] {
            Step::Leave(n, p) => if n == me {
                Some((delta.drop_first(), p))
            } else {
                None
            },
            _ => None,
        }
    }
}

/// Reads one enter/leave pair for `inner` off the front of a trace,
/// whatever its verdicts were.
pub open spec fn eat_pair(inner: VisitNode, delta: Seq<Step>) -> Option<Seq<Step>> {
    if delta.len() >= 2 && (delta[0] matches Step::Enter(n1, _) && n1 == inner) && (
    delta[1] matches Step::Leave(n2, _) && n2 == inner) {
        Some(delta.skip(2))
    } else {
        None
    }
}

/// Reads what a visitor is shown between entering and leaving
/// directory `id`: nothing when the enter verdict `r` was false, one
/// `Truncated` pair when the directory is unexpanded, and otherwise
/// the children's walks — sub-directories first, then files.
pub open spec fn eat_dir_inner(t: Tree, id: int, r: bool, delta: Seq<Step>) -> Option<Seq<Step>>
    decreases t.nodes@.len() - id, 1int, 0int,
        when t.wf() && 0 <= id < t.nodes@.len()
{
    if !r {
        Some(delta)
    } else {
        match t.nodes@[id] {
            Node::Directory { entries: Some(e), .. } => match eat_list(
                t,
                id,
                e.directories@,
                delta,
                true,
            ) {
                Some((r1, p1)) => match eat_list(t, id, e.files@, r1, p1) {
                    Some((r2, _)) => Some(r2),
                    None => None,
                },
                None => None,
            },
            _ => eat_pair(VisitNode::Truncated, delta),
        }
    }
}

/// Reads what a visitor is shown between entering and leaving file
/// `id`: nothing when the enter verdict `r` was false, one `Content`
/// pair when the file is loaded, and one `Truncated` pair otherwise.
pub open spec fn eat_file_inner(t: Tree, id: int, r: bool, delta: Seq<Step>) -> Option<Seq<Step>> {
    if !r {
        Some(delta)
    } else {
        match t.nodes@[id] {
            Node::File { content: Some(_), .. } => eat_pair(
                VisitNode::Content { id: id as usize },
                delta,
            ),
            _ => eat_pair(VisitNode::Truncated, delta),
        }
    }
}

/// Reads the walks of the nodes in `ids` off the front of a trace.
/// Once `proceed` is false the remaining nodes are not visited at
/// all: a false leave verdict ends the walk over the siblings.
pub open spec fn eat_list(
    t: Tree,
    parent: int,
    ids: Seq<usize>,
    delta: Seq<Step>,
    proceed: bool,
) -> Option<(Seq<Step>, bool)>
    decreases t.nodes@.len() - parent, 0int, ids.len(),
        when t.wf() && 0 <= parent < t.nodes@.len()
{
    if ids.len() == 0 {
        Some((delta, proceed))
    } else if !proceed {
        Some((delta, false))
    } else if parent < ids[0] < t.nodes@.len() {
        match eat_node(t, ids[0] as int, delta) {
            Some((rest, p)) => eat_list(t, parent, ids.drop_first(), rest, p),
            None => None,
        }
    } else {
        Some((delta, proceed))
    }
}

/// Reads one whole visitor-controlled walk of node `id` off the front
/// of a trace: the enter call with its verdict, the inner part that
/// verdict allows, and the leave call, whose verdict is the walk's
/// result. `traverse_node` delivers exactly such a trace.
pub open spec fn eat_node(t: Tree, id: int, delta: Seq<Step>) -> Option<(Seq<Step>, bool)>
    decreases t.nodes@.len() - id, 2int, 0int,
        when t.wf() && 0 <= id < t.nodes@.len()
{
    match t.nodes@[id] {
        Node::Directory { .. } => {
            let me = VisitNode::Directory { id: id as usize };
            if delta.len() == 0 {
                None
            } else {
                match delta[0] {
                    Step::Enter(n, r) => if n == me {
                        match eat_dir_inner(t, id, r, delta.drop_first()) {
                            Some(r2) => eat_leave(me, r2),
                            None => None,
                        }
                    } else {
                        None
                    },
                    _ => None,
                }
            }
        },
        Node::File { .. } => {
            let me = VisitNode::File { id: id as usize };
            if delta.len() == 0 {
                None
            } else {
                match delta[0] {
                    Step::Enter(n, r) => if n == me {
                        match eat_file_inner(t, id, r, delta.drop_first()) {
                            Some(r2) => eat_leave(me, r2),
                            None => None,
                        }
                    } else {
                        None
                    },
                    _ => None,
                }
            }
        },
    }
}

/// Reads one whole visitor-controlled walk of the project off the
/// front of a trace: the project node first, then its root directory,
/// the final leave verdict becoming the result. `traverse` delivers
/// exactly such a trace.
pub open spec fn eat_tree(t: Tree, delta: Seq<Step>) -> Option<(Seq<Step>, bool)> {
    if delta.len() == 0 {
        None
    } else {
        match delta[0] {
            Step::Enter(n, r) => if n == VisitNode::Project {
                let inner = if !r {
                    Some(delta.drop_first())
                } else {
                    match eat_node(t, 0, delta.drop_first()) {
                        Some((r1, _)) => Some(r1),
                        None => None,
                    }
                };
                match inner {
                    Some(r2) => eat_leave(VisitNode::Project, r2),
                    None => None,
                }
            } else {
                None
            },
            _ => None,
        }
    }
}

/// A prefix of a prefix is a prefix.
proof fn lemma_prefix_trans(a: Seq<Step>, b: Seq<Step>, c: Seq<Step>)
    requires
        a.is_prefix_of(b),
        b.is_prefix_of(c),
    ensures
        a.is_prefix_of(c),
{
    assert forall|i: int| 0 <= i < a.len() implies a[i] == c.subrange(0, a.len() as int)[i] by {
        assert(a[i] == b.subrange(0, a.len() as int)[i]);
        assert(b[i] == c.subrange(0, b.len() as int)[i]);
    }
    assert(a =~= c.subrange(0, a.len() as int));
}

/// A sequence is its prefix plus what follows it.
proof fn lemma_prefix_split(a: Seq<Step>, b: Seq<Step>)
    requires
        a.is_prefix_of(b),
    ensures
        b =~= a + b.skip(a.len() as int),
{
    assert forall|i: int| 0 <= i < a.len() implies b[i] == a[i] by {
        assert(a[i] == b.subrange(0, a.len() as int)[i]);
    }
}

/// Walks node `id` under the visitor's control, without forcing
/// expansion: an unexpanded node is reported as one `Truncated`
/// enter/leave pair instead of its children. The calls delivered to
/// the visitor are exactly what `eat_node` reads back: enter first,
/// the inner part its verdict allows — sub-directories before files,
/// in discovery order, cut after the first false leave verdict — and
/// leave last, its verdict returned.
#[verifier::rlimit(100)]
pub fn traverse_node<V: Visitor>(t: &Tree, id: usize, v: &mut V) -> (proceed: bool)
    requires
        t.wf(),
        id < t.nodes@.len(),
    ensures
        old(v).seen().is_prefix_of(final(v).seen()),
        forall|rest: Seq<Step>|
            #[trigger] eat_node(
                *t,
                id as int,
                final(v).seen().skip(old(v).seen().len() as int) + rest,
            ) == Some((rest, proceed)),
    decreases t.nodes@.len() - id,
{
    let ghost s0 = v.seen();
    if t.is_dir(id) {
        let me = VisitNode::Directory { id };
        let r = v.enter(t, me);
        let ghost s1 = v.seen();
        if r {
            match t.entries_of(id) {
                Some((dirs, files)) => {
                    let mut proceed = true;
                    let ghost based = v.seen();
                    proof {
                        assert(based.skip(based.len() as int) =~= Seq::<Step>::empty());
                        assert(dirs@.skip(0) =~= dirs@);
                        assert(based.is_prefix_of(based));
                        assert forall|rest: Seq<Step>|
                            #[trigger] eat_list(
                                *t,
                                id as int,
                                dirs@,
                                v.seen().skip(based.len() as int) + rest,
                                true,
                            ) == eat_list(*t, id as int, dirs@.skip(0), rest, true) by {
                            assert(v.seen().skip(based.len() as int) + rest =~= rest);
                        }
                    }
                    let nd = dirs.len();
                    let mut k: usize = 0;
                    while proceed && k < nd
                        invariant
                            0 <= k <= nd,
                            t.wf(),
                            id < t.nodes@.len(),
                            nd == dirs@.len(),
                            match t.nodes@[id as int] {
                                Node::Directory { entries: Some(e), .. } => dirs@
                                    == e.directories@,
                                _ => false,
                            },
                            based.is_prefix_of(v.seen()),
                            forall|rest: Seq<Step>|
                                #[trigger] eat_list(
                                    *t,
                                    id as int,
                                    dirs@,
                                    v.seen().skip(based.len() as int) + rest,
                                    true,
                                ) == eat_list(*t, id as int, dirs@.skip(k as int), rest, proceed),
                        decreases nd - k,
                    {
                        proof {
                            assert(t.node_wf(id as int));
                            assert(id < dirs@[k as int] < t.nodes@.len());
                        }
                        let ghost sc = v.seen();
                        proceed = traverse_node(t, dirs[k], v);
                        k = k + 1;
                        proof {
                            let snew = v.seen();
                            let dv = snew.skip(sc.len() as int);
                            lemma_prefix_trans(based, sc, snew);
                            lemma_prefix_split(sc, snew);
                            assert forall|rest: Seq<Step>|
                                #[trigger] eat_list(
                                    *t,
                                    id as int,
                                    dirs@,
                                    snew.skip(based.len() as int) + rest,
                                    true,
                                ) == eat_list(
                                *t,
                                id as int,
                                dirs@.skip(k as int),
                                rest,
                                proceed,
                            ) by {
                                assert(snew.skip(based.len() as int) =~= sc.skip(
                                    based.len() as int,
                                ) + dv);
                                assert(snew.skip(based.len() as int) + rest =~= sc.skip(
                                    based.len() as int,
                                ) + (dv + rest));
                                assert(eat_list(
                                    *t,
                                    id as int,
                                    dirs@,
                                    sc.skip(based.len() as int) + (dv + rest),
                                    true,
                                ) == eat_list(*t, id as int, dirs@.skip(k - 1), dv + rest, true));
                                assert(dirs@.skip(k - 1)[0] == dirs@[k - 1]);
                                assert(dirs@.skip(k - 1).drop_first() =~= dirs@.skip(k as int));
                                assert(eat_node(*t, dirs@[k - 1] as int, dv + rest) == Some(
                                    (rest, proceed),
                                ));
                            }
                        }
                    }
                    let ghost ld = v.seen().skip(based.len() as int);
                    let ghost pd = proceed;
                    proof {
                        assert forall|rest: Seq<Step>|
                            #[trigger] eat_list(*t, id as int, dirs@, ld + rest, true) == Some(
                                (rest, pd),
                            ) by {
                            assert(eat_list(*t, id as int, dirs@, ld + rest, true) == eat_list(
                                *t,
                                id as int,
                                dirs@.skip(k as int),
                                rest,
                                pd,
                            ));
                            if k == nd {
                                assert(dirs@.skip(k as int).len() == 0);
                            }
                        }
                        assert(files@.skip(0) =~= files@);
                    }
                    let ghost basef = v.seen();
                    proof {
                        assert(basef.is_prefix_of(basef));
                        assert forall|rest: Seq<Step>|
                            #[trigger] eat_list(
                                *t,
                                id as int,
                                files@,
                                v.seen().skip(basef.len() as int) + rest,
                                pd,
                            ) == eat_list(*t, id as int, files@.skip(0), rest, proceed) by {
                            assert(v.seen().skip(basef.len() as int) + rest =~= rest);
                        }
                    }
                    let nf = files.len();
                    let mut k2: usize = 0;
                    while proceed && k2 < nf
                        invariant
                            0 <= k2 <= nf,
                            t.wf(),
                            id < t.nodes@.len(),
                            nf == files@.len(),
                            match t.nodes@[id as int] {
                                Node::Directory { entries: Some(e), .. } => files@ == e.files@,
                                _ => false,
                            },
                            basef.is_prefix_of(v.seen()),
                            forall|rest: Seq<Step>|
                                #[trigger] eat_list(
                                    *t,
                                    id as int,
                                    files@,
                                    v.seen().skip(basef.len() as int) + rest,
                                    pd,
                                ) == eat_list(
                                    *t,
                                    id as int,
                                    files@.skip(k2 as int),
                                    rest,
                                    proceed,
                                ),
                        decreases nf - k2,
                    {
                        proof {
                            assert(t.node_wf(id as int));
                            assert(id < files@[k2 as int] < t.nodes@.len());
                        }
                        let ghost sc = v.seen();
                        proceed = traverse_node(t, files[k2], v);
                        k2 = k2 + 1;
                        proof {
                            let snew = v.seen();
                            let dv = snew.skip(sc.len() as int);
                            lemma_prefix_trans(basef, sc, snew);
                            lemma_prefix_split(sc, snew);
                            assert forall|rest: Seq<Step>|
                                #[trigger] eat_list(
                                    *t,
                                    id as int,
                                    files@,
                                    snew.skip(basef.len() as int) + rest,
                                    pd,
                                ) == eat_list(
                                *t,
                                id as int,
                                files@.skip(k2 as int),
                                rest,
                                proceed,
                            ) by {
                                assert(snew.skip(basef.len() as int) =~= sc.skip(
                                    basef.len() as int,
                                ) + dv);
                                assert(snew.skip(basef.len() as int) + rest =~= sc.skip(
                                    basef.len() as int,
                                ) + (dv + rest));
                                assert(eat_list(
                                    *t,
                                    id as int,
                                    files@,
                                    sc.skip(basef.len() as int) + (dv + rest),
                                    pd,
                                ) == eat_list(
                                    *t,
                                    id as int,
                                    files@.skip(k2 - 1),
                                    dv + rest,
                                    true,
                                ));
                                assert(files@.skip(k2 - 1)[0] == files@[k2 - 1]);
                                assert(files@.skip(k2 - 1).drop_first() =~= files@.skip(
                                    k2 as int,
                                ));
                                assert(eat_node(*t, files@[k2 - 1] as int, dv + rest) == Some(
                                    (rest, proceed),
                                ));
                            }
                        }
                    }
                    let ghost lf = v.seen().skip(basef.len() as int);
                    let ghost pf = proceed;
                    proof {
                        assert forall|rest: Seq<Step>|
                            #[trigger] eat_list(*t, id as int, files@, lf + rest, pd) == Some(
                                (rest, pf),
                            ) by {
                            assert(eat_list(*t, id as int, files@, lf + rest, pd) == eat_list(
                                *t,
                                id as int,
                                files@.skip(k2 as int),
                                rest,
                                pf,
                            ));
                            if k2 == nf {
                                assert(files@.skip(k2 as int).len() == 0);
                            }
                        }
                        // the inner trace between enter and leave
                        lemma_prefix_trans(based, basef, v.seen());
                        lemma_prefix_split(based, basef);
                        lemma_prefix_split(basef, v.seen());
                        assert(s1.is_prefix_of(v.seen()));
                        assert forall|rest: Seq<Step>|
                            #[trigger] eat_dir_inner(
                                *t,
                                id as int,
                                r,
                                v.seen().skip(s1.len() as int) + rest,
                            ) == Some(rest) by {
                            assert(v.seen().skip(s1.len() as int) =~= ld + lf);
                            assert((ld + lf) + rest =~= ld + (lf + rest));
                            assert(eat_list(*t, id as int, dirs@, ld + (lf + rest), true) == Some(
                                (lf + rest, pd),
                            ));
                            assert(eat_list(*t, id as int, files@, lf + rest, pd) == Some(
                                (rest, pf),
                            ));
                        }
                    }
                },
                None => {
                    let tv = v.enter(t, VisitNode::Truncated);
                    let lv = v.leave(t, VisitNode::Truncated);
                    proof {
                        assert(s1.is_prefix_of(v.seen()));
                        assert forall|rest: Seq<Step>|
                            #[trigger] eat_dir_inner(
                                *t,
                                id as int,
                                r,
                                v.seen().skip(s1.len() as int) + rest,
                            ) == Some(rest) by {
                            let d2 = v.seen().skip(s1.len() as int);
                            assert(d2 =~= seq![
                                Step::Enter(VisitNode::Truncated, tv),
                                Step::Leave(VisitNode::Truncated, lv),
                            ]);
                            assert((d2 + rest)[0] == Step::Enter(VisitNode::Truncated, tv));
                            assert((d2 + rest)[1] == Step::Leave(VisitNode::Truncated, lv));
                            assert((d2 + rest).skip(2) =~= rest);
                        }
                    }
                },
            }
        }
        proof {
            if !r {
                assert(s1.is_prefix_of(v.seen()));
                assert forall|rest: Seq<Step>|
                    #[trigger] eat_dir_inner(
                        *t,
                        id as int,
                        r,
                        v.seen().skip(s1.len() as int) + rest,
                    ) == Some(rest) by {
                    assert(v.seen().skip(s1.len() as int) + rest =~= rest);
                }
            }
        }
        let ghost smid = v.seen();
        let p = v.leave(t, me);
        proof {
            let send = v.seen();
            assert(s0.is_prefix_of(s1));
            lemma_prefix_trans(s0, s1, smid);
            assert(smid.is_prefix_of(send));
            lemma_prefix_trans(s0, smid, send);
            lemma_prefix_split(s1, smid);
            let inner = smid.skip(s1.len() as int);
            let delta = send.skip(s0.len() as int);
            assert(delta =~= seq![Step::Enter(me, r)] + (inner + seq![Step::Leave(me, p)]));
            assert forall|rest: Seq<Step>|
                #[trigger] eat_node(*t, id as int, delta + rest) == Some((rest, p)) by {
                assert(delta + rest =~= seq![Step::Enter(me, r)] + (inner + (seq![
                    Step::Leave(me, p),
                ] + rest)));
                assert((delta + rest)[0] == Step::Enter(me, r));
                assert((delta + rest).drop_first() =~= inner + (seq![Step::Leave(me, p)] + rest));
                assert(eat_dir_inner(*t, id as int, r, inner + (seq![Step::Leave(me, p)] + rest))
                    == Some(seq![Step::Leave(me, p)] + rest));
                assert((seq![Step::Leave(me, p)] + rest)[0] == Step::Leave(me, p));
                assert((seq![Step::Leave(me, p)] + rest).drop_first() =~= rest);
            }
        }
        p
    } else {
        let me = VisitNode::File { id };
        let r = v.enter(t, me);
        let ghost s1 = v.seen();
        if r {
            if t.file_loaded(id) {
                let tv = v.enter(t, VisitNode::Content { id });
                let lv = v.leave(t, VisitNode::Content { id });
                proof {
                    assert(s1.is_prefix_of(v.seen()));
                    assert forall|rest: Seq<Step>|
                        #[trigger] eat_file_inner(
                            *t,
                            id as int,
                            r,
                            v.seen().skip(s1.len() as int) + rest,
                        ) == Some(rest) by {
                        let d2 = v.seen().skip(s1.len() as int);
                        assert(d2 =~= seq![
                            Step::Enter(VisitNode::Content { id }, tv),
                            Step::Leave(VisitNode::Content { id }, lv),
                        ]);
                        assert((d2 + rest)[0] == Step::Enter(VisitNode::Content { id }, tv));
                        assert((d2 + rest)[1] == Step::Leave(VisitNode::Content { id }, lv));
                        assert((d2 + rest).skip(2) =~= rest);
                    }
                }
            } else {
                let tv = v.enter(t, VisitNode::Truncated);
                let lv = v.leave(t, VisitNode::Truncated);
                proof {
                    assert(s1.is_prefix_of(v.seen()));
                    assert forall|rest: Seq<Step>|
                        #[trigger] eat_file_inner(
                            *t,
                            id as int,
                            r,
                            v.seen().skip(s1.len() as int) + rest,
                        ) == Some(rest) by {
                        let d2 = v.seen().skip(s1.len() as int);
                        assert(d2 =~= seq![
                            Step::Enter(VisitNode::Truncated, tv),
                            Step::Leave(VisitNode::Truncated, lv),
                        ]);
                        assert((d2 + rest)[0] == Step::Enter(VisitNode::Truncated, tv));
                        assert((d2 + rest)[1] == Step::Leave(VisitNode::Truncated, lv));
                        assert((d2 + rest).skip(2) =~= rest);
                    }
                }
            }
        }
        proof {
            if !r {
                assert(s1.is_prefix_of(v.seen()));
                assert forall|rest: Seq<Step>|
                    #[trigger] eat_file_inner(
                        *t,
                        id as int,
                        r,
                        v.seen().skip(s1.len() as int) + rest,
                    ) == Some(rest) by {
                    assert(v.seen().skip(s1.len() as int) + rest =~= rest);
                }
            }
        }
        let ghost smid = v.seen();
        let p = v.leave(t, me);
        proof {
            let send = v.seen();
            assert(s0.is_prefix_of(s1));
            lemma_prefix_trans(s0, s1, smid);
            assert(smid.is_prefix_of(send));
            lemma_prefix_trans(s0, smid, send);
            lemma_prefix_split(s1, smid);
            let inner = smid.skip(s1.len() as int);
            let delta = send.skip(s0.len() as int);
            assert(delta =~= seq![Step::Enter(me, r)] + (inner + seq![Step::Leave(me, p)]));
            assert forall|rest: Seq<Step>|
                #[trigger] eat_node(*t, id as int, delta + rest) == Some((rest, p)) by {
                assert(delta + rest =~= seq![Step::Enter(me, r)] + (inner + (seq![
                    Step::Leave(me, p),
                ] + rest)));
                assert((delta + rest)[0] == Step::Enter(me, r));
                assert((delta + rest).drop_first() =~= inner + (seq![Step::Leave(me, p)] + rest));
                assert(eat_file_inner(*t, id as int, r, inner + (seq![Step::Leave(me, p)] + rest))
                    == Some(seq![Step::Leave(me, p)] + rest));
                assert((seq![Step::Leave(me, p)] + rest)[0] == Step::Leave(me, p));
                assert((seq![Step::Leave(me, p)] + rest).drop_first() =~= rest);
            }
        }
        p
    }
}

/// Walks the whole project under the visitor's control: the project
/// node first, then — if the visitor descends — its root directory.
/// The calls delivered are exactly what `eat_tree` reads back, and
/// the final leave verdict is returned.
pub fn traverse<V: Visitor>(t: &Tree, v: &mut V) -> (proceed: bool)
    requires
        t.wf(),
    ensures
        old(v).seen().is_prefix_of(final(v).seen()),
        forall|rest: Seq<Step>|
            #[trigger] eat_tree(*t, final(v).seen().skip(old(v).seen().len() as int) + rest)
                == Some((rest, proceed)),
{
    let ghost s0 = v.seen();
    let r = v.enter(t, VisitNode::Project);
    let ghost s1 = v.seen();
    let ghost mut proot: bool = true;
    if r {
        let pr = traverse_node(t, 0, v);
        proof {
            proot = pr;
            assert(s1.is_prefix_of(v.seen()));
        }
    }
    let ghost smid = v.seen();
    let p = v.leave(t, VisitNode::Project);
    proof {
        let send = v.seen();
        let me = VisitNode::Project;
        assert(s0.is_prefix_of(s1));
        if !r {
            assert(s1.is_prefix_of(smid));
        }
        lemma_prefix_trans(s0, s1, smid);
        assert(smid.is_prefix_of(send));
        lemma_prefix_trans(s0, smid, send);
        lemma_prefix_split(s1, smid);
        let inner = smid.skip(s1.len() as int);
        let delta = send.skip(s0.len() as int);
        assert(delta =~= seq![Step::Enter(me, r)] + (inner + seq![Step::Leave(me, p)]));
        assert forall|rest: Seq<Step>|
            #[trigger] eat_tree(*t, delta + rest) == Some((rest, p)) by {
            assert(delta + rest =~= seq![Step::Enter(me, r)] + (inner + (seq![
                Step::Leave(me, p),
            ] + rest)));
            assert((delta + rest)[0] == Step::Enter(me, r));
            assert((delta + rest).drop_first() =~= inner + (seq![Step::Leave(me, p)] + rest));
            if r {
                assert(eat_node(*t, 0, inner + (seq![Step::Leave(me, p)] + rest)) == Some(
                    (seq![Step::Leave(me, p)] + rest, proot),
                ));
            } else {
                assert(inner + (seq![Step::Leave(me, p)] + rest) =~= seq![Step::Leave(me, p)]
                    + rest);
            }
            assert((seq![Step::Leave(me, p)] + rest)[0] == Step::Leave(me, p));
            assert((seq![Step::Leave(me, p)] + rest).drop_first() =~= rest);
        }
    }
    p
}

/// The printed line for node `id` at `depth`, plus its subtree.
pub open spec fn print_node(t: Tree, id: int, depth: nat) -> Seq<char>
    decreases t.nodes@.len() - id, 1int, 0int,
        when t.wf() && 0 <= id < t.nodes@.len()
{
    match t.nodes@[id] {
        Node::Directory { path, entries, .. } => {
            let line = repeat_seq("    "@, depth) + "Directory: "@ + path@ + seq!['\n'];
            match entries {
                Some(e) => line + print_list(t, id, e.directories@, depth + 1) + print_list(
                    t,
                    id,
                    e.files@,
                    depth + 1,
                ),
                None => line + repeat_seq("    "@, depth + 1) + "Truncated"@ + seq!['\n'],
            }
        },
        Node::File { path, content, .. } => {
            let line = repeat_seq("    "@, depth) + "File: "@ + path@ + seq!['\n'];
            match content {
                Some(_) => line + repeat_seq("    "@, depth + 1) + "Content"@ + seq!['\n'],
                None => line + repeat_seq("    "@, depth + 1) + "Truncated"@ + seq!['\n'],
            }
        },
    }
}

/// The printed subtrees of the nodes in `ids`, joined in order.
pub open spec fn print_list(t: Tree, parent: int, ids: Seq<usize>, depth: nat) -> Seq<char>
    decreases t.nodes@.len() - parent, 0int, ids.len(),
        when t.wf() && 0 <= parent < t.nodes@.len()
{
    if ids.len() == 0 {
        Seq::empty()
    } else if parent < ids[0] < t.nodes@.len() {
        print_node(t, ids[0] as int, depth) + print_list(t, parent, ids.drop_first(), depth)
    } else {
        Seq::empty()
    }
}

/// The whole project printed: one line per visited node, indented
/// four spaces per level.
pub open spec fn print_tree(t: Tree) -> Seq<char> {
    "Project"@ + seq!['\n'] + print_node(t, 0, 1)
}

/// Appends the printed subtree of node `id` to `out`. The caller
/// hands the indentation for this depth along, so no width is ever
/// recomputed.
fn print_node_into(t: &Tree, id: usize, indent: &str, Ghost(depth): Ghost<nat>, out: &mut String)
    requires
        t.wf(),
        id < t.nodes@.len(),
        indent@ == repeat_seq("    "@, depth),
    ensures
        final(out)@ == old(out)@ + print_node(*t, id as int, depth),
    decreases t.nodes@.len() - id, 1int, 0int,
{
    proof {
        reveal_strlit("    ");
        reveal_strlit("Directory: ");
        reveal_strlit("File: ");
        reveal_strlit("Truncated");
        reveal_strlit("Content");
        reveal_strlit("\n");
    }
    let ghost base = out@;
    let deeper = String::from_str(indent).concat("    ");
    proof {
        assert(deeper@ =~= repeat_seq("    "@, depth + 1));
    }
    if t.is_dir(id) {
        out.append(indent);
        out.append("Directory: ");
        let p = t.path_of(id);
        out.append(p.as_str());
        out.append("\n");
        match t.entries_of(id) {
            Some((dirs, files)) => {
                let ghost base1 = out@;
                proof {
                    assert(dirs@.skip(0) =~= dirs@);
                }
                let nd = dirs.len();
                let mut k: usize = 0;
                while k < nd
                    invariant
                        0 <= k <= nd,
                        t.wf(),
                        id < t.nodes@.len(),
                        nd == dirs@.len(),
                        deeper@ == repeat_seq("    "@, depth + 1),
                        match t.nodes@[id as int] {
                            Node::Directory { entries: Some(e), .. } => dirs@ == e.directories@,
                            _ => false,
                        },
                        out@ + print_list(*t, id as int, dirs@.skip(k as int), (depth + 1) as nat)
                            =~= base1 + print_list(*t, id as int, dirs@, (depth + 1) as nat),
                    decreases nd - k,
                {
                    proof {
                        assert(t.node_wf(id as int));
                        assert(id < dirs@[k as int] < t.nodes@.len());
                        assert(dirs@.skip(k as int).drop_first() =~= dirs@.skip(k + 1));
                        assert(dirs@.skip(k as int)[0] == dirs@[k as int]);
                        assert(print_list(*t, id as int, dirs@.skip(k as int), (depth + 1) as nat)
                            =~= print_node(*t, dirs@[k as int] as int, (depth + 1) as nat)
                            + print_list(*t, id as int, dirs@.skip(k + 1), (depth + 1) as nat));
                    }
                    print_node_into(t, dirs[k], deeper.as_str(), Ghost((depth + 1) as nat), out);
                    k = k + 1;
                }
                proof {
                    assert(dirs@.skip(nd as int).len() == 0);
                    assert(out@ =~= base1 + print_list(*t, id as int, dirs@, (depth + 1) as nat));
                    assert(files@.skip(0) =~= files@);
                }
                let ghost base2 = out@;
                let nf = files.len();
                let mut k2: usize = 0;
                while k2 < nf
                    invariant
                        0 <= k2 <= nf,
                        t.wf(),
                        id < t.nodes@.len(),
                        nf == files@.len(),
                        deeper@ == repeat_seq("    "@, depth + 1),
                        match t.nodes@[id as int] {
                            Node::Directory { entries: Some(e), .. } => files@ == e.files@,
                            _ => false,
                        },
                        out@ + print_list(*t, id as int, files@.skip(k2 as int), (depth + 1) as nat)
                            =~= base2 + print_list(*t, id as int, files@, (depth + 1) as nat),
                    decreases nf - k2,
                {
                    proof {
                        assert(t.node_wf(id as int));
                        assert(id < files@[k2 as int] < t.nodes@.len());
                        assert(files@.skip(k2 as int).drop_first() =~= files@.skip(k2 + 1));
                        assert(files@.skip(k2 as int)[0] == files@[k2 as int]);
                        assert(print_list(*t, id as int, files@.skip(k2 as int), (depth + 1) as nat)
                            =~= print_node(*t, files@[k2 as int] as int, (depth + 1) as nat)
                            + print_list(*t, id as int, files@.skip(k2 + 1), (depth + 1) as nat));
                    }
                    print_node_into(t, files[k2], deeper.as_str(), Ghost((depth + 1) as nat), out);
                    k2 = k2 + 1;
                }
                proof {
                    assert(files@.skip(nf as int).len() == 0);
                    assert(out@ =~= base + print_node(*t, id as int, depth));
                }
            },
            None => {
                out.append(deeper.as_str());
                out.append("Truncated");
                out.append("\n");
                proof {
                    assert(out@ =~= base + print_node(*t, id as int, depth));
                }
            },
        }
    } else {
        out.append(indent);
        out.append("File: ");
        let p = t.path_of(id);
        out.append(p.as_str());
        out.append("\n");
        out.append(deeper.as_str());
        if t.file_loaded(id) {
            out.append("Content");
        } else {
            out.append("Truncated");
        }
        out.append("\n");
        proof {
            assert(out@ =~= base + print_node(*t, id as int, depth));
        }
    }
}

/// Prints the whole project tree, matching `print_tree`: the walk a
/// printing visitor performs, as one string.
pub fn render_tree(t: &Tree) -> (s: String)
    requires
        t.wf(),
    ensures
        s@ == print_tree(*t),
{
    proof {
        reveal_strlit("Project");
        reveal_strlit("\n");
    }
    let mut out = String::new();
    out.append("Project");
    out.append("\n");
    let indent = repeat_str("    ", 1);
    print_node_into(t, 0, indent.as_str(), Ghost(1nat), &mut out);
    proof {
        assert(out@ =~= print_tree(*t));
    }
    out
}

/// The one line the printing visitor emits for a node: its label,
/// with the path where the tree holds one for the index.
pub open spec fn print_label(t: &Tree, node: VisitNode) -> Seq<char> {
    match node {
        VisitNode::Truncated => "Truncated"@,
        VisitNode::Project => "Project"@,
        VisitNode::Directory { id } => "Directory: "@ + if (id as int) < t.nodes@.len() {
            t.spec_path(id as int)
        } else {
            Seq::<char>::empty()
        },
        VisitNode::File { id } => "File: "@ + if (id as int) < t.nodes@.len() {
            t.spec_path(id as int)
        } else {
            Seq::<char>::empty()
        },
        VisitNode::Content { .. } => "Content"@,
    }
}

/// A visitor that renders each visited node as one indented line:
/// on entering, exactly one line of four spaces per level followed by
/// the node's label; the level climbs on enter and falls on leave,
/// so it always equals the traversal depth. The lines it accumulates
/// over a full walk match `render_tree`.
pub struct Printer {
    pub level: usize,
    pub out: String,
    pub trace: Ghost<Seq<Step>>,
}

impl Printer {
    pub fn new() -> (p: Printer)
        ensures
            p.level == 0,
            p.out@ == Seq::<char>::empty(),
            p.seen() == Seq::<Step>::empty(),
    {
        Printer { level: 0, out: String::new(), trace: Ghost(Seq::empty()) }
    }
}

impl Visitor for Printer {
    open spec fn seen(&self) -> Seq<Step> {
        self.trace@
    }

    open spec fn spec_enter(&self, tree: &Tree, node: VisitNode) -> bool {
        true
    }

    open spec fn spec_leave(&self, tree: &Tree, node: VisitNode) -> bool {
        true
    }

    /// One indented label line is emitted and the level climbs.
    open spec fn enter_post(&self, tree: &Tree, node: VisitNode, post: Self) -> bool {
        &&& post.out@ == self.out@ + repeat_seq("    "@, self.level as nat) + print_label(
            tree,
            node,
        ) + seq!['\n']
        &&& post.level == (if self.level < usize::MAX {
            (self.level + 1) as usize
        } else {
            self.level
        })
    }

    /// Nothing is emitted and the level falls back.
    open spec fn leave_post(&self, tree: &Tree, node: VisitNode, post: Self) -> bool {
        &&& post.out@ == self.out@
        &&& post.level == (if self.level > 0 {
            (self.level - 1) as usize
        } else {
            0
        })
    }

    fn enter(&mut self, tree: &Tree, node: VisitNode) -> (r: bool)
        ensures
            r == old(self).spec_enter(tree, node),
            final(self).seen() == old(self).seen().push(Step::Enter(node, r)),
            old(self).enter_post(tree, node, *final(self)),
    {
        proof {
            reveal_strlit("Truncated");
            reveal_strlit("Project");
            reveal_strlit("Directory: ");
            reveal_strlit("File: ");
            reveal_strlit("Content");
            reveal_strlit("\n");
        }
        let ghost pre = *self;
        let indent = repeat_str("    ", self.level);
        self.out.append(indent.as_str());
        match node {
            VisitNode::Truncated => self.out.append("Truncated"),
            VisitNode::Project => self.out.append("Project"),
            VisitNode::Directory { id } => {
                self.out.append("Directory: ");
                if id < tree.node_count() {
                    let p = tree.path_of(id);
                    self.out.append(p.as_str());
                }
            },
            VisitNode::File { id } => {
                self.out.append("File: ");
                if id < tree.node_count() {
                    let p = tree.path_of(id);
                    self.out.append(p.as_str());
                }
            },
            VisitNode::Content { .. } => self.out.append("Content"),
        }
        self.out.append("\n");
        if self.level < usize::MAX {
            self.level = self.level + 1;
        }
        self.trace = Ghost(self.trace@.push(Step::Enter(node, true)));
        proof {
            assert(self.out@ =~= pre.out@ + repeat_seq("    "@, pre.level as nat) + print_label(
                tree,
                node,
            ) + seq!['\n']);
        }
        true
    }

    fn leave(&mut self, tree: &Tree, node: VisitNode) -> (r: bool)
        ensures
            r == old(self).spec_leave(tree, node),
            final(self).seen() == old(self).seen().push(Step::Leave(node, r)),
            old(self).leave_post(tree, node, *final(self)),
    {
        if self.level > 0 {
            self.level = self.level - 1;
        }
        self.trace = Ghost(self.trace@.push(Step::Leave(node, true)));
        true
    }
}

/// A visitor that records each node it enters, in order, and always
/// keeps walking: the read-only inspection driver.
pub struct Recorder {
    pub entered: Vec<VisitNode>,
    pub trace: Ghost<Seq<Step>>,
}

impl Recorder {
    pub fn new() -> (r: Recorder)
        ensures
            r.entered@ == Seq::<VisitNode>::empty(),
            r.seen() == Seq::<Step>::empty(),
    {
        Recorder { entered: Vec::new(), trace: Ghost(Seq::empty()) }
    }
}

impl Visitor for Recorder {
    open spec fn seen(&self) -> Seq<Step> {
        self.trace@
    }

    open spec fn spec_enter(&self, tree: &Tree, node: VisitNode) -> bool {
        true
    }

    open spec fn spec_leave(&self, tree: &Tree, node: VisitNode) -> bool {
        true
    }

    /// The entered node is appended to the record.
    open spec fn enter_post(&self, tree: &Tree, node: VisitNode, post: Self) -> bool {
        post.entered@ == self.entered@.push(node)
    }

    /// The record keeps its entries.
    open spec fn leave_post(&self, tree: &Tree, node: VisitNode, post: Self) -> bool {
        post.entered@ == self.entered@
    }

    fn enter(&mut self, tree: &Tree, node: VisitNode) -> (r: bool)
        ensures
            r == old(self).spec_enter(tree, node),
            final(self).seen() == old(self).seen().push(Step::Enter(node, r)),
            old(self).enter_post(tree, node, *final(self)),
    {
        self.entered.push(node);
        self.trace = Ghost(self.trace@.push(Step::Enter(node, true)));
        true
    }

    fn leave(&mut self, tree: &Tree, node: VisitNode) -> (r: bool)
        ensures
            r == old(self).spec_leave(tree, node),
            final(self).seen() == old(self).seen().push(Step::Leave(node, r)),
            old(self).leave_post(tree, node, *final(self)),
    {
        self.trace = Ghost(self.trace@.push(Step::Leave(node, true)));
        true
    }
}

} // verus!
