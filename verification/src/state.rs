//! Named, location-anchored mutable values.
//!
//! A state is an ordered log of (location, update) pairs accumulated during a
//! pass.  Values are vectors of numeric components — a scalar state is a
//! vector of length one — which is what counters and numbering consume.  A
//! query at a location folds, in log order, every update whose location is
//! at or before the query point, starting from the initial value; updates
//! after the query point never influence the result, and updates sharing
//! one location apply in their in-pass order, never re-sorted.  Queries are
//! always made against the previous stabilized snapshot, never against the
//! log of the pass in progress.

use vstd::prelude::*;
use crate::location::{loc_le, lemma_loc_le_transitive, LocModel, Location};

verus! {

/// One update to a state value.
pub enum Update {
    /// Replace the value outright.
    Assign(Vec<u64>),
    /// Add `amount` to component `level` and zero all deeper components.
    Step { level: u16, amount: u64 },
    /// Zero component `level` and all deeper components.
    Reset { level: u16 },
}

/// One logged update: where it happened and what it did.
pub struct Entry {
    pub loc: Location,
    pub update: Update,
}

/// Mathematical model of an update.
pub enum UpdateModel {
    Assign(Seq<u64>),
    Step { level: u16, amount: u64 },
    Reset { level: u16 },
}

/// Mathematical model of a log entry.
pub struct EntryModel {
    pub loc: LocModel,
    pub up: UpdateModel,
}

impl Update {
    pub open spec fn model(&self) -> UpdateModel {
        match self {
            Update::Assign(v) => UpdateModel::Assign(v@),
            Update::Step { level, amount } => UpdateModel::Step {
                level: *level,
                amount: *amount,
            },
            Update::Reset { level } => UpdateModel::Reset { level: *level },
        }
    }
}

impl Entry {
    pub open spec fn model(&self) -> EntryModel {
        EntryModel { loc: self.loc.model(), up: self.update.model() }
    }
}

/// Model of a whole log.
pub open spec fn log_model(s: Seq<Entry>) -> Seq<EntryModel> {
    s.map_values(|e: Entry| e.model())
}

/// The value of a state that no update has touched yet: the all-zero vector.
pub open spec fn initial_value() -> Seq<u64> {
    seq![0u64]
}

/// Addition that stops at the largest representable count.
pub open spec fn sat_add(a: u64, b: u64) -> u64 {
    if a + b > u64::MAX {
        u64::MAX
    } else {
        (a + b) as u64
    }
}

/// The component of `v` at `i`, taking absent components as zero.
pub open spec fn component(v: Seq<u64>, i: int) -> u64 {
    if 0 <= i < v.len() {
        v[i]
    } else {
        0
    }
}

/// What one update does to a value.
pub open spec fn apply_update(v: Seq<u64>, u: UpdateModel) -> Seq<u64> {
    match u {
        UpdateModel::Assign(w) => w,
        UpdateModel::Step { level, amount } => Seq::new(
            if v.len() >= level + 1 {
                v.len()
            } else {
                (level + 1) as nat
            },
            |i: int|
                if i < level as int {
                    component(v, i)
                } else if i == level as int {
                    sat_add(component(v, level as int), amount)
                } else {
                    0u64
                },
        ),
        UpdateModel::Reset { level } => Seq::new(
            if v.len() >= level + 1 {
                v.len()
            } else {
                (level + 1) as nat
            },
            |i: int|
                if i < level as int {
                    component(v, i)
                } else {
                    0u64
                },
        ),
    }
}

/// The value of a log as of location `q`: every update at or before `q`,
/// folded in log order over the initial value.
pub open spec fn fold_upto(log: Seq<EntryModel>, q: LocModel) -> Seq<u64>
    decreases log.len(),
{
    if log.len() == 0 {
        initial_value()
    } else {
        let prev = fold_upto(log.drop_last(), q);
        if loc_le(log.last().loc, q) {
            apply_update(prev, log.last().up)
        } else {
            prev
        }
    }
}

/// The value of a log after every update, folded in log order.
pub open spec fn fold_all(log: Seq<EntryModel>) -> Seq<u64>
    decreases log.len(),
{
    if log.len() == 0 {
        initial_value()
    } else {
        apply_update(fold_all(log.drop_last()), log.last().up)
    }
}

/// The sub-log of entries at or before `b`, in log order.
pub open spec fn restrict(log: Seq<EntryModel>, b: LocModel) -> Seq<EntryModel>
    decreases log.len(),
{
    if log.len() == 0 {
        log
    } else {
        let r = restrict(log.drop_last(), b);
        if loc_le(log.last().loc, b) {
            r.push(log.last())
        } else {
            r
        }
    }
}

/// A query reflects only updates at or before the query point: the value as
/// of `a` equals the full fold of the sub-log of entries at or before `a`.
pub proof fn lemma_at_uses_only_prefix(log: Seq<EntryModel>, a: LocModel)
    ensures
        fold_upto(log, a) == fold_all(restrict(log, a)),
    decreases log.len(),
{
    if log.len() > 0 {
        lemma_at_uses_only_prefix(log.drop_last(), a);
        if loc_le(log.last().loc, a) {
            let r = restrict(log.drop_last(), a).push(log.last());
            assert(r.drop_last() =~= restrict(log.drop_last(), a));
            assert(r.last() == log.last());
        }
    }
}

/// Entries later than `b` never influence a query at or before `b`: for
/// locations `a` at or before `b`, querying the sub-log of entries at or
/// before `b` at `a` gives the same value as querying the whole log at `a`.
pub proof fn lemma_at_monotonic_prefix(log: Seq<EntryModel>, a: LocModel, b: LocModel)
    requires
        loc_le(a, b),
    ensures
        fold_upto(restrict(log, b), a) == fold_upto(log, a),
    decreases log.len(),
{
    if log.len() > 0 {
        lemma_at_monotonic_prefix(log.drop_last(), a, b);
        if loc_le(log.last().loc, b) {
            let r = restrict(log.drop_last(), b).push(log.last());
            assert(r.drop_last() =~= restrict(log.drop_last(), b));
            assert(r.last() == log.last());
        } else {
            if loc_le(log.last().loc, a) {
                lemma_loc_le_transitive(log.last().loc, a, b);
            }
        }
    }
}

/// Appending an update later than the query point leaves the query unchanged.
pub proof fn lemma_at_ignores_later(log: Seq<EntryModel>, e: EntryModel, q: LocModel)
    requires
        !loc_le(e.loc, q),
    ensures
        fold_upto(log.push(e), q) == fold_upto(log, q),
{
    assert(log.push(e).drop_last() =~= log);
    assert(log.push(e).last() == e);
}

/// Runs one update against a value.
pub fn run_update(v: &Vec<u64>, u: &Update) -> (r: Vec<u64>)
    ensures
        r@ == apply_update(v@, u.model()),
{
    match u {
        Update::Assign(w) => copy_components(w),
        Update::Step { level, amount } => {
            let level = *level as usize;
            let n = if v.len() >= level + 1 { v.len() } else { level + 1 };
            let mut r: Vec<u64> = Vec::new();
            let mut i: usize = 0;
            #[verifier::loop_isolation(false)]
            while i < n
                invariant
                    i <= n,
                    r@ == apply_update(v@, u.model()).subrange(0, i as int),
                decreases n - i,
            {
                if i < level {
                    r.push(if i < v.len() { v[i] } else { 0 });
                } else if i == level {
                    let cur = if i < v.len() { v[i] } else { 0 };
                    let stepped = if cur <= u64::MAX - *amount { cur + *amount } else { u64::MAX };
                    r.push(stepped);
                } else {
                    r.push(0);
                }
                proof {
                    assert(apply_update(v@, u.model()).subrange(0, i + 1) =~= apply_update(
                        v@,
                        u.model(),
                    ).subrange(0, i as int).push(r@.last()));
                }
                i += 1;
            }
            proof {
                assert(r@ =~= apply_update(v@, u.model()));
            }
            r
        },
        Update::Reset { level } => {
            let level = *level as usize;
            let n = if v.len() >= level + 1 { v.len() } else { level + 1 };
            let mut r: Vec<u64> = Vec::new();
            let mut i: usize = 0;
            #[verifier::loop_isolation(false)]
            while i < n
                invariant
                    i <= n,
                    r@ == apply_update(v@, u.model()).subrange(0, i as int),
                decreases n - i,
            {
                if i < level {
                    r.push(if i < v.len() { v[i] } else { 0 });
                } else {
                    r.push(0);
                }
                proof {
                    assert(apply_update(v@, u.model()).subrange(0, i + 1) =~= apply_update(
                        v@,
                        u.model(),
                    ).subrange(0, i as int).push(r@.last()));
                }
                i += 1;
            }
            proof {
                assert(r@ =~= apply_update(v@, u.model()));
            }
            r
        },
    }
}

/// An exact copy of a component vector.
pub fn copy_components(v: &Vec<u64>) -> (r: Vec<u64>)
    ensures
        r@ == v@,
{
    let mut r: Vec<u64> = Vec::new();
    let mut i: usize = 0;
    #[verifier::loop_isolation(false)]
    while i < v.len()
        invariant
            i <= v.len(),
            r@ == v@.subrange(0, i as int),
        decreases v.len() - i,
    {
        r.push(v[i]);
        proof {
            assert(v@.subrange(0, i + 1) =~= v@.subrange(0, i as int).push(v@[i as int]));
        }
        i += 1;
    }
    proof {
        assert(r@ =~= v@);
    }
    r
}

/// The value of a log as of location `q`.
#[verifier::loop_isolation(false)]
pub fn value_at(entries: &Vec<Entry>, q: &Location) -> (r: Vec<u64>)
    ensures
        r@ == fold_upto(log_model(entries@), q.model()),
{
    let mut r: Vec<u64> = Vec::new();
    r.push(0);
    proof {
        assert(r@ =~= initial_value());
        assert(log_model(entries@.subrange(0, 0)) =~= Seq::<EntryModel>::empty());
    }
    let mut i: usize = 0;
    while i < entries.len()
        invariant
            i <= entries.len(),
            r@ == fold_upto(log_model(entries@.subrange(0, i as int)), q.model()),
        decreases entries.len() - i,
    {
        let e = &entries[i];
        if e.loc.is_at_or_before(q) {
            r = run_update(&r, &e.update);
        }
        proof {
            let pre = log_model(entries@.subrange(0, i as int));
            let post = log_model(entries@.subrange(0, i + 1));
            assert(post.drop_last() =~= pre);
            assert(post.last() == entries@[i as int].model());
        }
        i += 1;
    }
    proof {
        assert(entries@.subrange(0, entries@.len() as int) =~= entries@);
    }
    r
}

/// The value of a log after the whole pass.
#[verifier::loop_isolation(false)]
pub fn value_final(entries: &Vec<Entry>) -> (r: Vec<u64>)
    ensures
        r@ == fold_all(log_model(entries@)),
{
    let mut r: Vec<u64> = Vec::new();
    r.push(0);
    proof {
        assert(r@ =~= initial_value());
        assert(log_model(entries@.subrange(0, 0)) =~= Seq::<EntryModel>::empty());
    }
    let mut i: usize = 0;
    while i < entries.len()
        invariant
            i <= entries.len(),
            r@ == fold_all(log_model(entries@.subrange(0, i as int))),
        decreases entries.len() - i,
    {
        r = run_update(&r, &entries[i].update);
        proof {
            let pre = log_model(entries@.subrange(0, i as int));
            let post = log_model(entries@.subrange(0, i + 1));
            assert(post.drop_last() =~= pre);
            assert(post.last() == entries@[i as int].model());
        }
        i += 1;
    }
    proof {
        assert(entries@.subrange(0, entries@.len() as int) =~= entries@);
    }
    r
}


/// Appends a set-update: the state's value becomes `value` outright from
/// `loc` on.
pub fn set(log: &mut Vec<Entry>, loc: &Location, value: Vec<u64>)
    ensures
        log_model(final(log)@) == log_model(old(log)@).push(
            EntryModel { loc: loc.model(), up: UpdateModel::Assign(value@) },
        ),
{
    let ghost pre = log_model(log@);
    let entry = Entry { loc: loc.duplicate(), update: Update::Assign(value) };
    log.push(entry);
    proof {
        assert(log_model(log@) =~= pre.push(entry.model()));
    }
}

/// Appends an apply-update to the in-progress pass's log.
pub fn record(log: &mut Vec<Entry>, loc: &Location, update: Update)
    ensures
        log_model(final(log)@) == log_model(old(log)@).push(
            EntryModel { loc: loc.model(), up: update.model() },
        ),
{
    let ghost pre = log_model(log@);
    let ghost um = update.model();
    let entry = Entry { loc: loc.duplicate(), update };
    proof {
        assert(entry.model() == (EntryModel { loc: loc.model(), up: um }));
    }
    log.push(entry);
    proof {
        assert(log_model(log@) =~= pre.push(entry.model()));
    }
}


/// A log in location order: what the layout engine must deliver before a
/// pass's logs may be treated as a snapshot.  Entries at one location keep
/// their in-pass order.
pub open spec fn log_sorted(log: Seq<EntryModel>) -> bool {
    forall|i: int, j: int|
        0 <= i < j < log.len() ==> loc_le((#[trigger] log[i]).loc, (#[trigger] log[j]).loc)
}

/// Checks the barrier: whether a log is in location order.
#[verifier::loop_isolation(false)]
pub fn is_location_sorted(log: &Vec<Entry>) -> (r: bool)
    ensures
        r == log_sorted(log_model(log@)),
{
    let ghost m = log_model(log@);
    if log.len() == 0 {
        return true;
    }
    let mut i: usize = 0;
    while i + 1 < log.len()
        invariant
            i < log@.len(),
            forall|k: int| 0 <= k < i ==> loc_le((#[trigger] m[k]).loc, m[k + 1].loc),
        decreases log@.len() - i,
    {
        if !log[i].loc.is_at_or_before(&log[i + 1].loc) {
            proof {
                assert(!loc_le(m[i as int].loc, m[i + 1].loc));
            }
            return false;
        }
        i += 1;
    }
    proof {
        assert forall|a: int, b: int| 0 <= a < b < m.len() implies loc_le(
            (#[trigger] m[a]).loc,
            (#[trigger] m[b]).loc,
        ) by {
            lemma_adjacent_sorted(m, a, b);
        }
    }
    true
}

/// Adjacent order extends to the whole log.
proof fn lemma_adjacent_sorted(log: Seq<EntryModel>, a: int, b: int)
    requires
        forall|k: int| 0 <= k < log.len() - 1 ==> loc_le((#[trigger] log[k]).loc, log[k + 1].loc),
        0 <= a < b < log.len(),
    ensures
        loc_le(log[a].loc, log[b].loc),
    decreases b - a,
{
    if a + 1 == b {
        assert(loc_le(log[a].loc, log[a + 1].loc));
    } else {
        lemma_adjacent_sorted(log, a, b - 1);
        assert(loc_le(log[b - 1].loc, log[b].loc));
        lemma_loc_le_transitive(log[a].loc, log[b - 1].loc, log[b].loc);
    }
}

} // verus!
