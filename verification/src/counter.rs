//! Multi-level monotonic counters with scoped reset rules.
//!
//! A counter is a state whose value is a vector of components (for example
//! chapter.section).  Stepping a counter increments one component and zeroes
//! all deeper ones.  A reset rule ties one counter's reset to a step on
//! another: whenever the trigger counter is stepped, the target counter and
//! all its deeper components are zeroed.  Rules are static configuration set
//! at document setup, never mutated per pass.

use vstd::prelude::*;
use crate::location::{LocModel, Location};
use crate::state::{
    apply_update, log_model, fold_upto, fold_all, value_at, value_final, Entry, EntryModel, Update,
    UpdateModel,
};

verus! {

/// Ties a reset of `target` to every step on `trigger`.
#[derive(Clone, Copy, PartialEq, Eq, Structural)]
pub struct ResetRule {
    /// Index of the counter whose steps fire the rule.
    pub trigger: usize,
    /// Index of the counter that is zeroed when the rule fires.
    pub target: usize,
}

/// Static configuration of a document's named states and counters: their
/// names, in registration order, and the reset rules among them.
pub struct Registry {
    pub names: Vec<String>,
    pub rules: Vec<ResetRule>,
}

impl Registry {
    /// Every rule speaks of registered counters.
    pub open spec fn wf(&self) -> bool {
        forall|i: int|
            0 <= i < self.rules@.len() ==> (#[trigger] self.rules@[i]).trigger < self.names@.len()
                && self.rules@[i].target < self.names@.len()
    }

    /// An empty registry.
    pub fn new() -> (r: Registry)
        ensures
            r.wf(),
            r.names@.len() == 0,
            r.rules@.len() == 0,
    {
        Registry { names: Vec::new(), rules: Vec::new() }
    }

    /// Registers a named state or counter and hands back its index.
    pub fn register(&mut self, name: String) -> (id: usize)
        requires
            old(self).wf(),
        ensures
            final(self).wf(),
            id == old(self).names@.len(),
            final(self).names@ == old(self).names@.push(name),
            final(self).rules@ == old(self).rules@,
    {
        let id = self.names.len();
        self.names.push(name);
        id
    }

    /// Adds a reset rule: every step on `trigger` zeroes `target`.
    pub fn add_reset_rule(&mut self, trigger: usize, target: usize)
        requires
            old(self).wf(),
            trigger < old(self).names@.len(),
            target < old(self).names@.len(),
        ensures
            final(self).wf(),
            final(self).names@ == old(self).names@,
            final(self).rules@ == old(self).rules@.push(ResetRule { trigger, target }),
    {
        self.rules.push(ResetRule { trigger, target });
    }
}

/// The update logs of one pass or snapshot, one per registered state, in
/// registration order.
pub open spec fn logs_model(v: Seq<Vec<Entry>>) -> Seq<Seq<EntryModel>> {
    v.map_values(|l: Vec<Entry>| log_model(l@))
}

/// A log set with an entry appended to the log at `i`.
pub open spec fn append_at(
    logs: Seq<Seq<EntryModel>>,
    i: int,
    e: EntryModel,
) -> Seq<Seq<EntryModel>> {
    logs.update(i, logs[i].push(e))
}

/// The reset entries that firing the rules for a step on `counter` at `loc`
/// appends, in rule order.
pub open spec fn apply_rules(
    logs: Seq<Seq<EntryModel>>,
    rules: Seq<ResetRule>,
    counter: int,
    loc: LocModel,
) -> Seq<Seq<EntryModel>>
    decreases rules.len(),
{
    if rules.len() == 0 {
        logs
    } else {
        let done = apply_rules(logs, rules.drop_last(), counter, loc);
        let r = rules.last();
        if r.trigger == counter && 0 <= r.target < done.len() {
            append_at(done, r.target as int, EntryModel { loc, up: UpdateModel::Reset { level: 0 } })
        } else {
            done
        }
    }
}

/// What a step on `counter` does to the whole log set: the step entry is
/// appended to the counter's own log, then every rule triggered by the
/// counter appends a full reset to its target's log, in rule order.
pub open spec fn step_effect(
    logs: Seq<Seq<EntryModel>>,
    rules: Seq<ResetRule>,
    counter: int,
    loc: LocModel,
    level: u16,
    amount: u64,
) -> Seq<Seq<EntryModel>> {
    apply_rules(
        append_at(logs, counter, EntryModel { loc, up: UpdateModel::Step { level, amount } }),
        rules,
        counter,
        loc,
    )
}

/// Increments component `level` of counter `counter` by `amount` at `loc`,
/// zeroes its deeper components, and fires every reset rule the step
/// triggers.
#[verifier::loop_isolation(false)]
pub fn step(
    registry: &Registry,
    logs: &mut Vec<Vec<Entry>>,
    counter: usize,
    loc: &Location,
    level: u16,
    amount: u64,
)
    requires
        registry.wf(),
        old(logs)@.len() == registry.names@.len(),
        counter < registry.names@.len(),
    ensures
        final(logs)@.len() == old(logs)@.len(),
        logs_model(final(logs)@) == step_effect(
            logs_model(old(logs)@),
            registry.rules@,
            counter as int,
            loc.model(),
            level,
            amount,
        ),
{
    let entry = Entry { loc: loc.duplicate(), update: Update::Step { level, amount } };
    proof {
        assert(entry.model() == EntryModel {
            loc: loc.model(),
            up: UpdateModel::Step { level, amount },
        });
    }
    logs[counter].push(entry);
    let ghost base = logs_model(logs@);
    proof {
        assert(base =~~= append_at(
            logs_model(old(logs)@),
            counter as int,
            EntryModel { loc: loc.model(), up: UpdateModel::Step { level, amount } },
        ));
    }
    let mut i: usize = 0;
    while i < registry.rules.len()
        invariant
            i <= registry.rules@.len(),
            logs@.len() == old(logs)@.len(),
            logs_model(logs@) == apply_rules(
                base,
                registry.rules@.subrange(0, i as int),
                counter as int,
                loc.model(),
            ),
        decreases registry.rules@.len() - i,
    {
        let rule = registry.rules[i];
        proof {
            let pre = registry.rules@.subrange(0, i as int);
            let post = registry.rules@.subrange(0, i + 1);
            assert(post.drop_last() =~= pre);
            assert(post.last() == registry.rules@[i as int]);
        }
        if rule.trigger == counter {
            let reset = Entry { loc: loc.duplicate(), update: Update::Reset { level: 0 } };
            proof {
                assert(reset.model() == EntryModel {
                    loc: loc.model(),
                    up: UpdateModel::Reset { level: 0 },
                });
            }
            logs[rule.target].push(reset);
            proof {
                assert(logs_model(logs@) =~~= append_at(
                    apply_rules(
                        base,
                        registry.rules@.subrange(0, i as int),
                        counter as int,
                        loc.model(),
                    ),
                    rule.target as int,
                    EntryModel { loc: loc.model(), up: UpdateModel::Reset { level: 0 } },
                ));
            }
        }
        i += 1;
    }
    proof {
        assert(registry.rules@.subrange(0, registry.rules@.len() as int) =~= registry.rules@);
    }
}

/// The value of counter `counter` as of `loc`, per the given snapshot logs.
/// A counter no step has touched reads as the all-zero vector.
pub fn counter_at(logs: &Vec<Vec<Entry>>, counter: usize, loc: &Location) -> (r: Vec<u64>)
    requires
        counter < logs@.len(),
    ensures
        r@ == fold_upto(logs_model(logs@)[counter as int], loc.model()),
{
    value_at(&logs[counter], loc)
}

/// The value of counter `counter` after the whole pass.
pub fn counter_final(logs: &Vec<Vec<Entry>>, counter: usize) -> (r: Vec<u64>)
    requires
        counter < logs@.len(),
    ensures
        r@ == fold_all(logs_model(logs@)[counter as int]),
{
    value_final(&logs[counter])
}

/// A log holding nothing but full resets folds to the all-zero vector of
/// length one, whatever location it is read at: resetting a counter that was
/// never stepped leaves it reading as the single zero component.
pub proof fn lemma_reset_only_log_reads_zero(log: Seq<EntryModel>, q: LocModel)
    requires
        forall|i: int|
            0 <= i < log.len() ==> (#[trigger] log[i]).up == (UpdateModel::Reset { level: 0u16 }),
    ensures
        fold_upto(log, q) == seq![0u64],
    decreases log.len(),
{
    if log.len() == 0 {
        assert(fold_upto(log, q) =~= seq![0u64]);
    } else {
        lemma_reset_only_log_reads_zero(log.drop_last(), q);
        assert(log.last() == log[log.len() - 1]);
        if loc_le_last(log, q) {
            assert(apply_update(seq![0u64], UpdateModel::Reset { level: 0u16 }) =~= seq![0u64]);
        }
    }
}

/// Whether the last entry of a log is at or before `q`.
spec fn loc_le_last(log: Seq<EntryModel>, q: LocModel) -> bool {
    crate::location::loc_le(log.last().loc, q)
}

/// A step on a trigger leaves every rule target's log extended by resets
/// only; combined with `lemma_reset_only_log_reads_zero`, a target counter
/// that was never stepped itself reads as the single zero component after
/// any number of steps on its trigger.
pub proof fn lemma_rules_append_resets_only(
    logs: Seq<Seq<EntryModel>>,
    rules: Seq<ResetRule>,
    counter: int,
    loc: LocModel,
    target: int,
)
    requires
        0 <= target < logs.len(),
        target != counter,
        forall|i: int|
            0 <= i < logs[target].len() ==> (#[trigger] logs[target][i]).up == (UpdateModel::Reset {
                level: 0u16,
            }),
    ensures
        forall|i: int|
            0 <= i < apply_rules(logs, rules, counter, loc)[target].len() ==> (
            #[trigger] apply_rules(logs, rules, counter, loc)[target][i]).up == (UpdateModel::Reset {
                level: 0u16,
            }),
        apply_rules(logs, rules, counter, loc).len() == logs.len(),
    decreases rules.len(),
{
    if rules.len() > 0 {
        lemma_rules_append_resets_only(logs, rules.drop_last(), counter, loc, target);
        let done = apply_rules(logs, rules.drop_last(), counter, loc);
        let r = rules.last();
        if r.trigger == counter && 0 <= r.target < done.len() && r.target == target {
            let e = EntryModel { loc, up: UpdateModel::Reset { level: 0u16 } };
            assert forall|i: int|
                0 <= i < done[target].push(e).len() implies (#[trigger] done[target].push(
                e,
            )[i]).up == (UpdateModel::Reset { level: 0u16 }) by {
                if i < done[target].len() {
                    assert(done[target].push(e)[i] == done[target][i]);
                }
            }
        }
    }
}

/// Stepping a trigger counter zeroes an untouched target: if every entry of
/// the target's log is a full reset (in particular if it is empty), then
/// after a step on any other counter the target still reads as the single
/// zero component at every location.
pub proof fn lemma_step_zeroes_target(
    logs: Seq<Seq<EntryModel>>,
    rules: Seq<ResetRule>,
    counter: int,
    loc: LocModel,
    level: u16,
    amount: u64,
    target: int,
    q: LocModel,
)
    requires
        0 <= counter < logs.len(),
        0 <= target < logs.len(),
        target != counter,
        forall|i: int|
            0 <= i < logs[target].len() ==> (#[trigger] logs[target][i]).up == (UpdateModel::Reset {
                level: 0u16,
            }),
    ensures
        fold_upto(step_effect(logs, rules, counter, loc, level, amount)[target], q) == seq![0u64],
        forall|i: int|
            0 <= i < step_effect(logs, rules, counter, loc, level, amount)[target].len() ==> (
            #[trigger] step_effect(logs, rules, counter, loc, level, amount)[target][i]).up == (
            UpdateModel::Reset { level: 0u16 }),
{
    let stepped = append_at(
        logs,
        counter,
        EntryModel { loc, up: UpdateModel::Step { level, amount } },
    );
    assert(stepped[target] == logs[target]);
    lemma_rules_append_resets_only(stepped, rules, counter, loc, target);
    lemma_reset_only_log_reads_zero(step_effect(logs, rules, counter, loc, level, amount)[target], q);
}


/// Formats the value of counter `counter` as of `loc` through a pattern.
pub fn counter_display(
    logs: &Vec<Vec<Entry>>,
    counter: usize,
    loc: &Location,
    pattern: &crate::numbering::Pattern,
) -> (r: String)
    requires
        counter < logs@.len(),
        crate::numbering::pattern_wf(pattern.model()),
    ensures
        r@ == crate::numbering::ascii_chars(
            crate::numbering::apply_pattern(
                pattern.model(),
                fold_upto(logs_model(logs@)[counter as int], loc.model()),
            ),
        ),
{
    let v = counter_at(logs, counter, loc);
    crate::numbering::display(pattern, &v)
}

} // verus!
