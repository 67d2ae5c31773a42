//! The Lint contract: the capability interface every check
//! implements, and the engine that runs one check over a set of
//! candidate files. Each implementation carries spec functions that
//! pin down exactly which entries it skips and which faults it
//! reports.

pub mod incomplete_work;
pub mod trailing_whitespace;

use vstd::prelude::*;

use crate::fault::{fault_wf, Fault, FaultView};
use crate::lint::incomplete_work::IncompleteWork;
use crate::lint::trailing_whitespace::TrailingWhitespace;
use crate::tree::{Content, ContentView, Metadata};

verus! {

/// The views of a vector of faults.
pub open spec fn fault_views(faults: Seq<Fault>) -> Seq<FaultView> {
    faults.map_values(|f: Fault| f@)
}

/// A pluggable check: `ignore` skips entries before their content is
/// read, `review` scans one file's decoded text and reports faults.
/// A check holds no reference to `path` or `content` beyond the call,
/// and what it reports is a function of its configuration and the
/// arguments alone.
pub trait Lint {
    /// Which entries the check skips.
    spec fn spec_ignore(&self, path: Seq<char>, meta: Metadata) -> bool;

    /// Exactly the faults the check reports for one file, in order.
    spec fn spec_review(&self, path: Seq<char>, content: Seq<char>) -> Seq<FaultView>;

    /// Whether to skip the entry at `path`; decided before any
    /// content is read.
    fn ignore(&self, path: &str, meta: &Metadata) -> (r: bool)
        ensures
            r == self.spec_ignore(path@, *meta),
    ;

    /// Reviews one file's full decoded text, reporting each fault of
    /// `spec_review`, every one renderable.
    fn review(&self, path: &str, content: &str) -> (faults: Vec<Fault>)
        ensures
            fault_views(faults@) == self.spec_review(path@, content@),
            forall|k: int| 0 <= k < faults@.len() ==> fault_wf(#[trigger] faults@[k]@),
    ;
}

/// One candidate file: its path, what the filesystem reported about
/// it, and its loaded content.
#[derive(Debug)]
pub struct SourceFile {
    pub path: String,
    pub meta: Metadata,
    pub content: Content,
}

/// The faults one check reports for one candidate: none when the
/// check skips the entry, and none for binary content, which
/// text-oriented checks never see.
pub open spec fn lint_file_spec<L: Lint>(
    lint: L,
    path: Seq<char>,
    meta: Metadata,
    content: ContentView,
) -> Seq<FaultView> {
    if lint.spec_ignore(path, meta) {
        Seq::empty()
    } else {
        match content {
            ContentView::Text(text) => lint.spec_review(path, text),
            ContentView::Binary(_) => Seq::empty(),
        }
    }
}

/// The faults one check reports over the candidates from index `i`
/// on, joined in file order.
pub open spec fn run_lint_spec<L: Lint>(lint: L, files: Seq<SourceFile>, i: int) -> Seq<FaultView>
    decreases files.len() - i,
{
    if i < 0 || i >= files.len() {
        Seq::empty()
    } else {
        lint_file_spec(lint, files[i].path@, files[i].meta, files[i].content@) + run_lint_spec(
            lint,
            files,
            i + 1,
        )
    }
}

/// Runs one check over the candidate files: each non-ignored file
/// with text content is reviewed exactly once, in order, and the
/// reported faults keep that order.
pub fn run_lint<L: Lint>(lint: &L, files: &Vec<SourceFile>) -> (faults: Vec<Fault>)
    ensures
        fault_views(faults@) == run_lint_spec(*lint, files@, 0),
        forall|k: int| 0 <= k < faults@.len() ==> fault_wf(#[trigger] faults@[k]@),
{
    let mut faults: Vec<Fault> = Vec::new();
    let n = files.len();
    let mut i: usize = 0;
    proof {
        assert(fault_views(faults@) =~= Seq::<FaultView>::empty());
    }
    while i < n
        invariant
            0 <= i <= n,
            n == files@.len(),
            run_lint_spec(*lint, files@, 0) =~= fault_views(faults@) + run_lint_spec(
                *lint,
                files@,
                i as int,
            ),
            forall|k: int| 0 <= k < faults@.len() ==> fault_wf(#[trigger] faults@[k]@),
        decreases n - i,
    {
        let ghost faults0 = faults@;
        let file = &files[i];
        if !lint.ignore(file.path.as_str(), &file.meta) {
            match &file.content {
                Content::Text(text) => {
                    let mut found = lint.review(file.path.as_str(), text.as_str());
                    faults.append(&mut found);
                },
                Content::Binary(_) => {},
            }
        }
        i = i + 1;
        proof {
            assert(fault_views(faults@) =~= fault_views(faults0) + lint_file_spec(
                *lint,
                files@[i - 1].path@,
                files@[i - 1].meta,
                files@[i - 1].content@,
            ));
            assert(run_lint_spec(*lint, files@, 0) =~= fault_views(faults@) + run_lint_spec(
                *lint,
                files@,
                i as int,
            ));
        }
    }
    proof {
        assert(fault_views(faults@) =~= run_lint_spec(*lint, files@, 0));
    }
    faults
}

/// The checks this engine ships, as one closed set behind the `Lint`
/// interface: the list to run is built at startup, with no dynamic
/// plugin loading.
pub enum Check {
    TrailingWhitespace(TrailingWhitespace),
    IncompleteWork(IncompleteWork),
}

impl Lint for Check {
    open spec fn spec_ignore(&self, path: Seq<char>, meta: Metadata) -> bool {
        match self {
            Check::TrailingWhitespace(l) => l.spec_ignore(path, meta),
            Check::IncompleteWork(l) => l.spec_ignore(path, meta),
        }
    }

    open spec fn spec_review(&self, path: Seq<char>, content: Seq<char>) -> Seq<FaultView> {
        match self {
            Check::TrailingWhitespace(l) => l.spec_review(path, content),
            Check::IncompleteWork(l) => l.spec_review(path, content),
        }
    }

    fn ignore(&self, path: &str, meta: &Metadata) -> (r: bool)
        ensures
            r == self.spec_ignore(path@, *meta),
    {
        match self {
            Check::TrailingWhitespace(l) => l.ignore(path, meta),
            Check::IncompleteWork(l) => l.ignore(path, meta),
        }
    }

    fn review(&self, path: &str, content: &str) -> (faults: Vec<Fault>)
        ensures
            fault_views(faults@) == self.spec_review(path@, content@),
            forall|k: int| 0 <= k < faults@.len() ==> fault_wf(#[trigger] faults@[k]@),
    {
        match self {
            Check::TrailingWhitespace(l) => l.review(path, content),
            Check::IncompleteWork(l) => l.review(path, content),
        }
    }
}

/// The faults of the checks from index `i` on, each run over all the
/// candidates, joined in check order.
pub open spec fn run_lints_spec(checks: Seq<Check>, files: Seq<SourceFile>, i: int) -> Seq<
    FaultView,
>
    decreases checks.len() - i,
{
    if i < 0 || i >= checks.len() {
        Seq::empty()
    } else {
        run_lint_spec(checks[i], files, 0) + run_lints_spec(checks, files, i + 1)
    }
}

/// Runs every configured check over the candidate files, in check
/// order: one ordered fault stream for the whole run.
pub fn run_lints(checks: &Vec<Check>, files: &Vec<SourceFile>) -> (faults: Vec<Fault>)
    ensures
        fault_views(faults@) == run_lints_spec(checks@, files@, 0),
        forall|k: int| 0 <= k < faults@.len() ==> fault_wf(#[trigger] faults@[k]@),
{
    let mut faults: Vec<Fault> = Vec::new();
    let n = checks.len();
    let mut i: usize = 0;
    proof {
        assert(fault_views(faults@) =~= Seq::<FaultView>::empty());
    }
    while i < n
        invariant
            0 <= i <= n,
            n == checks@.len(),
            run_lints_spec(checks@, files@, 0) =~= fault_views(faults@) + run_lints_spec(
                checks@,
                files@,
                i as int,
            ),
            forall|k: int| 0 <= k < faults@.len() ==> fault_wf(#[trigger] faults@[k]@),
        decreases n - i,
    {
        let ghost faults0 = faults@;
        let mut found = run_lint(&checks[i], files);
        faults.append(&mut found);
        i = i + 1;
        proof {
            assert(fault_views(faults@) =~= fault_views(faults0) + run_lint_spec(
                checks@[i - 1],
                files@,
                0,
            ));
            assert(run_lints_spec(checks@, files@, 0) =~= fault_views(faults@) + run_lints_spec(
                checks@,
                files@,
                i as int,
            ));
        }
    }
    proof {
        assert(fault_views(faults@) =~= run_lints_spec(checks@, files@, 0));
    }
    faults
}

} // verus!
