//! Positions and spans inside a source file, and their nesting order.

use vstd::prelude::*;

verus! {

/// A point inside a file: a row and a column, both counted from the
/// caller's chosen origin. Positions are ordered lexicographically by
/// `(row, col)`.
#[derive(Clone, Copy, Debug, PartialEq, Eq, Structural, Hash)]
pub struct Position {
    pub row: usize,
    pub col: usize,
}

impl Position {
    /// Lexicographic order on `(row, col)`.
    pub open spec fn spec_le(self, other: Position) -> bool {
        self.row < other.row || (self.row == other.row && self.col <= other.col)
    }

    pub fn new(row: usize, col: usize) -> (p: Position)
        ensures
            p.row == row,
            p.col == col,
    {
        Position { row, col }
    }

    /// Decides the lexicographic order on `(row, col)`.
    pub fn le(&self, other: &Position) -> (r: bool)
        ensures
            r == self.spec_le(*other),
    {
        self.row < other.row || (self.row == other.row && self.col <= other.col)
    }
}

/// The order on positions is total: of any two positions, at least one
/// precedes the other, and mutual precedence means equality.
pub proof fn lemma_position_order_total(a: Position, b: Position)
    ensures
        a.spec_le(b) || b.spec_le(a),
        a.spec_le(b) && b.spec_le(a) ==> a == b,
{
}

/// A span between two positions, normalized so that `lb <= ub`.
#[derive(Clone, Copy, Debug, PartialEq, Eq, Structural, Hash)]
pub struct Range {
    pub lb: Position,
    pub ub: Position,
}

/// The normalized range over an unordered pair of positions.
pub open spec fn range_of(a: Position, b: Position) -> Range {
    if a.spec_le(b) {
        Range { lb: a, ub: b }
    } else {
        Range { lb: b, ub: a }
    }
}

impl Range {
    /// A range is well formed when its bounds are in order. `Range::new`
    /// establishes this for any pair of positions.
    pub open spec fn wf(self) -> bool {
        self.lb.spec_le(self.ub)
    }

    /// Builds the range over an unordered pair of positions: the two
    /// arguments may come in either order and name the same range.
    pub fn new(a: Position, b: Position) -> (r: Range)
        ensures
            r == range_of(a, b),
            r.wf(),
    {
        if a.le(&b) {
            Range { lb: a, ub: b }
        } else {
            Range { lb: b, ub: a }
        }
    }

    /// `self` contains `other` when `other` nests inside `self`.
    pub open spec fn spec_contains(self, other: Range) -> bool {
        self.lb.spec_le(other.lb) && other.ub.spec_le(self.ub)
    }

    /// Decides whether `other` nests inside `self`.
    pub fn contains(&self, other: &Range) -> (r: bool)
        ensures
            r == self.spec_contains(*other),
    {
        self.lb.le(&other.lb) && other.ub.le(&self.ub)
    }
}

/// Normalization is symmetric: the two positions of a pair may come in
/// either order and still name the same range.
pub proof fn lemma_range_symmetric(p1: Position, p2: Position)
    ensures
        range_of(p1, p2) == range_of(p2, p1),
{
}

/// Containment is reflexive: every range contains itself.
pub proof fn lemma_contains_reflexive(r: Range)
    ensures
        r.spec_contains(r),
{
}

/// Containment is transitive: if `a` contains `b` and `b` contains `c`,
/// then `a` contains `c`.
pub proof fn lemma_contains_transitive(a: Range, b: Range, c: Range)
    requires
        a.spec_contains(b),
        b.spec_contains(c),
    ensures
        a.spec_contains(c),
{
}

/// Containment restricted to well-formed ranges is antisymmetric, so it
/// is a partial order on nested spans.
pub proof fn lemma_contains_antisymmetric(a: Range, b: Range)
    requires
        a.wf(),
        b.wf(),
        a.spec_contains(b),
        b.spec_contains(a),
    ensures
        a == b,
{
}

/// A position tied to the file it points into.
#[derive(Clone, Debug)]
pub struct Spot {
    pub path: String,
    pub pos: Position,
}

impl Spot {
    pub fn new(path: String, pos: Position) -> (s: Spot)
        ensures
            s.path@ == path@,
            s.pos == pos,
    {
        Spot { path, pos }
    }
}

/// A range tied to the file it spans.
#[derive(Clone, Debug)]
pub struct Scope {
    pub path: String,
    pub range: Range,
}

impl Scope {
    pub fn new(path: String, range: Range) -> (s: Scope)
        ensures
            s.path@ == path@,
            s.range == range,
    {
        Scope { path, range }
    }

    /// `self` contains `other` when both lie in the same file and the
    /// ranges nest.
    pub open spec fn spec_contains(self, other: Scope) -> bool {
        self.path@ == other.path@ && self.range.spec_contains(other.range)
    }

    /// Decides containment: equal paths first, then range nesting.
    pub fn contains(&self, other: &Scope) -> (r: bool)
        ensures
            r == self.spec_contains(*other),
    {
        self.path == other.path && self.range.contains(&other.range)
    }
}

/// Scope containment inherits reflexivity from ranges.
pub proof fn lemma_scope_contains_reflexive(s: Scope)
    ensures
        s.spec_contains(s),
{
}

/// Scope containment inherits transitivity from ranges: the paths
/// agree along the chain.
pub proof fn lemma_scope_contains_transitive(a: Scope, b: Scope, c: Scope)
    requires
        a.spec_contains(b),
        b.spec_contains(c),
    ensures
        a.spec_contains(c),
{
}

} // verus!
