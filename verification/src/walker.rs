//! The flat walker's decisions: two ordered predicate chains over the
//! entries a recursive directory walk encounters. A subtree filter
//! prunes a whole directory without descending; a node filter rejects
//! a single entry without affecting its siblings. The walk itself,
//! and the ignore resolver it consults, live with the host
//! environment; the library only decides.

use vstd::prelude::*;

use crate::paths::{extension_of, extension_of_spec};
use crate::text::views_of;
use crate::tree::Metadata;
use crate::util::contains_string;

verus! {

/// One entry a walk encounters: its path, what the filesystem
/// reported, and the ignore resolver's verdict — `None` when the
/// resolver itself failed.
#[derive(Clone, Debug)]
pub struct WalkEntry {
    pub path: String,
    pub meta: Metadata,
    pub ignored: Option<bool>,
}

/// A project to walk flat: the root to start from, whether
/// version-control ignore rules apply, and which file extensions are
/// rejected.
#[derive(Debug)]
pub struct Project {
    pub root: String,
    pub respect_gitignore: bool,
    pub extension_blacklist: Vec<String>,
}

impl Project {
    /// Whether the walk prunes this entry's whole subtree: ignore
    /// rules apply and the resolver called the entry ignored — or
    /// failed, which counts as ignored (fail closed).
    pub open spec fn spec_prunes(self, e: WalkEntry) -> bool {
        self.respect_gitignore && (e.ignored is None || e.ignored == Some(true))
    }

    /// Whether the walk yields this entry as a candidate: a regular
    /// file whose extension does not stand in the blacklist.
    pub open spec fn spec_keeps(self, e: WalkEntry) -> bool {
        e.meta.is_file && match extension_of_spec(e.path@) {
            Some(x) => !views_of(self.extension_blacklist@).contains(x),
            None => true,
        }
    }

    /// A flat walk over `root`, respecting ignore rules, with no
    /// extension rejected.
    pub fn open(root: String) -> (p: Project)
        ensures
            p.root@ == root@,
            p.respect_gitignore,
            p.extension_blacklist@.len() == 0,
    {
        Project { root, respect_gitignore: true, extension_blacklist: Vec::new() }
    }

    /// The subtree filter, matching `spec_prunes`.
    pub fn prunes(&self, e: &WalkEntry) -> (r: bool)
        ensures
            r == self.spec_prunes(*e),
    {
        self.respect_gitignore && match e.ignored {
            Some(v) => v,
            None => true,
        }
    }

    /// The node filter, matching `spec_keeps`.
    pub fn keeps(&self, e: &WalkEntry) -> (r: bool)
        ensures
            r == self.spec_keeps(*e),
    {
        if !e.meta.is_file {
            return false;
        }
        match extension_of(e.path.as_str()) {
            Some(x) => !contains_string(&self.extension_blacklist, x.as_str()),
            None => true,
        }
    }
}

/// Builds the flat walker's configuration step by step. Where the
/// root comes from — the current directory, or a version-control
/// working directory — is the host environment's business.
#[derive(Debug)]
pub struct WalkerBuilder {
    pub root: String,
    pub respect_gitignore: bool,
}

impl WalkerBuilder {
    /// A builder rooted at the given path, respecting ignore rules.
    pub fn new(root: String) -> (b: WalkerBuilder)
        ensures
            b.root@ == root@,
            b.respect_gitignore,
    {
        WalkerBuilder { root, respect_gitignore: true }
    }

    /// Replaces the root.
    pub fn root(self, root: String) -> (b: WalkerBuilder)
        ensures
            b.root@ == root@,
            b.respect_gitignore == self.respect_gitignore,
    {
        WalkerBuilder { root, respect_gitignore: self.respect_gitignore }
    }

    /// Chooses whether ignore rules apply.
    pub fn respect_gitignore(self, yes: bool) -> (b: WalkerBuilder)
        ensures
            b.root@ == self.root@,
            b.respect_gitignore == yes,
    {
        WalkerBuilder { root: self.root, respect_gitignore: yes }
    }

    /// Whether the built walk prunes this entry's whole subtree,
    /// failing closed on a resolver error.
    pub open spec fn spec_prunes(self, e: WalkEntry) -> bool {
        self.respect_gitignore && (e.ignored is None || e.ignored == Some(true))
    }

    /// The built walk's subtree filter, matching `spec_prunes`.
    pub fn prunes(&self, e: &WalkEntry) -> (r: bool)
        ensures
            r == self.spec_prunes(*e),
    {
        self.respect_gitignore && match e.ignored {
            Some(v) => v,
            None => true,
        }
    }

    /// The built walk's node filter: only regular files are yielded.
    pub fn keeps(&self, e: &WalkEntry) -> (r: bool)
        ensures
            r == e.meta.is_file,
    {
        e.meta.is_file
    }
}

} // verus!
