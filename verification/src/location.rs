//! Stable, totally ordered identifiers for points in the compiled output.
//!
//! A location is an ordered path of small integers (one per nesting level of
//! the compiled tree) plus a disambiguator that distinguishes repeated
//! compilation of the same content.  Locations are ordered lexicographically
//! by path, then by disambiguator; equal locations denote the same compiled
//! position.  Locations are produced exclusively by the layout engine during
//! a pass; this core never invents them.

use vstd::prelude::*;

verus! {

/// A point in the compiled output.
pub struct Location {
    /// One index per nesting level of the compiled tree.
    pub path: Vec<u32>,
    /// Distinguishes repeated compilation of the same content.
    pub disambiguator: u32,
}

/// Mathematical model of a location: the path as a sequence plus the
/// disambiguator.
pub struct LocModel {
    pub path: Seq<u32>,
    pub disambiguator: u32,
}

impl Location {
    pub open spec fn model(&self) -> LocModel {
        LocModel { path: self.path@, disambiguator: self.disambiguator }
    }

    /// An exact copy of this location.
    pub fn duplicate(&self) -> (r: Location)
        ensures
            r.model() == self.model(),
    {
        let mut path: Vec<u32> = Vec::new();
        let mut i: usize = 0;
        while i < self.path.len()
            invariant
                i <= self.path.len(),
                path@ == self.path@.subrange(0, i as int),
            decreases self.path.len() - i,
        {
            path.push(self.path[i]);
            i += 1;
        }
        proof {
            assert(path@ =~= self.path@);
        }
        let r = Location { path, disambiguator: self.disambiguator };
        proof {
            assert(r.model() =~= self.model());
        }
        r
    }
}

/// Strict lexicographic order on paths.
pub open spec fn lex_lt(a: Seq<u32>, b: Seq<u32>) -> bool
    decreases a.len(),
{
    if b.len() == 0 {
        false
    } else if a.len() == 0 {
        true
    } else if a[0] < b[0] {
        true
    } else if a[0] > b[0] {
        false
    } else {
        lex_lt(a.drop_first(), b.drop_first())
    }
}

/// `a` comes strictly before `b` in the compiled output.
pub open spec fn loc_lt(a: LocModel, b: LocModel) -> bool {
    lex_lt(a.path, b.path) || (a.path == b.path && a.disambiguator < b.disambiguator)
}

/// `a` and `b` denote the same compiled position.
pub open spec fn loc_eq(a: LocModel, b: LocModel) -> bool {
    a.path == b.path && a.disambiguator == b.disambiguator
}

/// `a` comes no later than `b`.
pub open spec fn loc_le(a: LocModel, b: LocModel) -> bool {
    loc_lt(a, b) || loc_eq(a, b)
}

proof fn lemma_lex_lt_asymmetric(a: Seq<u32>, b: Seq<u32>)
    ensures
        !(lex_lt(a, b) && lex_lt(b, a)),
        !lex_lt(a, b) && !lex_lt(b, a) ==> a == b,
    decreases a.len(),
{
    if b.len() == 0 || a.len() == 0 {
        if !lex_lt(a, b) && !lex_lt(b, a) {
            assert(a.len() == 0 && b.len() == 0);
            assert(a =~= b);
        }
    } else if a[0] == b[0] {
        lemma_lex_lt_asymmetric(a.drop_first(), b.drop_first());
        if !lex_lt(a, b) && !lex_lt(b, a) {
            assert(a.drop_first() == b.drop_first());
            assert forall|i: int| 0 <= i < a.len() implies a[i] == b[i] by {
                if i > 0 {
                    assert(a[i] == a.drop_first()[i - 1]);
                    assert(b[i] == b.drop_first()[i - 1]);
                }
            }
            assert(a =~= b);
        }
    }
}

proof fn lemma_lex_lt_transitive(a: Seq<u32>, b: Seq<u32>, c: Seq<u32>)
    requires
        lex_lt(a, b),
        lex_lt(b, c),
    ensures
        lex_lt(a, c),
    decreases a.len(),
{
    if a.len() == 0 {
    } else if a[0] == b[0] && b[0] == c[0] {
        lemma_lex_lt_transitive(a.drop_first(), b.drop_first(), c.drop_first());
    }
}

/// The location order is total: any two locations are comparable.
pub proof fn lemma_loc_le_total(a: LocModel, b: LocModel)
    ensures
        loc_le(a, b) || loc_le(b, a),
        loc_le(a, b) && loc_le(b, a) ==> loc_eq(a, b),
        !(loc_lt(a, b) && loc_lt(b, a)),
        loc_eq(a, b) ==> !loc_lt(a, b) && !loc_lt(b, a),
{
    lemma_lex_lt_asymmetric(a.path, b.path);
}

/// The location order is transitive.
pub proof fn lemma_loc_le_transitive(a: LocModel, b: LocModel, c: LocModel)
    requires
        loc_le(a, b),
        loc_le(b, c),
    ensures
        loc_le(a, c),
{
    if loc_lt(a, b) && loc_lt(b, c) {
        if lex_lt(a.path, b.path) && lex_lt(b.path, c.path) {
            lemma_lex_lt_transitive(a.path, b.path, c.path);
        }
    }
}

/// How one location stands to another in the output order.
pub enum LocOrder {
    Before,
    Same,
    After,
}

impl Location {
    /// Compare two locations in the output order.
    #[verifier::loop_isolation(false)]
    pub fn compare(&self, other: &Location) -> (r: LocOrder)
        ensures
            r is Before <==> loc_lt(self.model(), other.model()),
            r is Same <==> loc_eq(self.model(), other.model()),
            r is After <==> loc_lt(other.model(), self.model()),
    {
        proof {
            lemma_loc_le_total(self.model(), other.model());
        }
        let a = &self.path;
        let b = &other.path;
        let mut i: usize = 0;
        proof {
            assert(a@.skip(0) =~= a@);
            assert(b@.skip(0) =~= b@);
            assert(a@.subrange(0, 0) =~= b@.subrange(0, 0));
        }
        while i < a.len() && i < b.len()
            invariant
                i <= a.len(),
                i <= b.len(),
                a@.subrange(0, i as int) == b@.subrange(0, i as int),
                lex_lt(a@, b@) == lex_lt(a@.skip(i as int), b@.skip(i as int)),
                lex_lt(b@, a@) == lex_lt(b@.skip(i as int), a@.skip(i as int)),
            decreases a.len() - i,
        {
            let x = a[i];
            let y = b[i];
            if x < y {
                proof {
                    assert(lex_lt(a@.skip(i as int), b@.skip(i as int)));
                }
                return LocOrder::Before;
            }
            if x > y {
                proof {
                    assert(lex_lt(b@.skip(i as int), a@.skip(i as int)));
                }
                return LocOrder::After;
            }
            proof {
                assert(a@.skip(i as int).drop_first() =~= a@.skip(i + 1));
                assert(b@.skip(i as int).drop_first() =~= b@.skip(i + 1));
                assert(a@.subrange(0, i + 1) =~= a@.subrange(0, i as int).push(x));
                assert(b@.subrange(0, i + 1) =~= b@.subrange(0, i as int).push(y));
            }
            i += 1;
        }
        if a.len() < b.len() {
            proof {
                assert(lex_lt(a@.skip(i as int), b@.skip(i as int)));
                assert(!lex_lt(b@.skip(i as int), a@.skip(i as int)));
            }
            LocOrder::Before
        } else if a.len() > b.len() {
            proof {
                assert(lex_lt(b@.skip(i as int), a@.skip(i as int)));
            }
            LocOrder::After
        } else {
            proof {
                assert(a@ =~= b@);
                lemma_lex_lt_asymmetric(a@, b@);
            }
            if self.disambiguator < other.disambiguator {
                LocOrder::Before
            } else if self.disambiguator > other.disambiguator {
                LocOrder::After
            } else {
                LocOrder::Same
            }
        }
    }

    /// Whether this location comes strictly before `other`.
    pub fn is_before(&self, other: &Location) -> (r: bool)
        ensures
            r == loc_lt(self.model(), other.model()),
    {
        matches!(self.compare(other), LocOrder::Before)
    }

    /// Whether this location comes no later than `other`.
    pub fn is_at_or_before(&self, other: &Location) -> (r: bool)
        ensures
            r == loc_le(self.model(), other.model()),
    {
        !matches!(self.compare(other), LocOrder::After)
    }

    /// Whether the two locations denote the same compiled position.
    pub fn same_position(&self, other: &Location) -> (r: bool)
        ensures
            r == loc_eq(self.model(), other.model()),
    {
        matches!(self.compare(other), LocOrder::Same)
    }
}

} // verus!
