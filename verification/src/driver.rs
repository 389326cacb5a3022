//! The fixed-point driver.
//!
//! The layout engine hands this core the document as an ordered list of
//! instructions, each tagged with the location the engine assigned.  One
//! pass executes every instruction against the previous pass's stabilized
//! snapshot and produces a new snapshot: the update logs, the registration
//! log and the citation log.  The driver repeats passes, feeding each
//! snapshot back as the previous one, until two consecutive snapshots are
//! structurally equal — the fixed point — or the iteration budget runs out,
//! which is the fatal circular-dependency outcome, reported with the names
//! of the states that kept changing.  The very first pass runs against the
//! empty snapshot.

use vstd::prelude::*;
use crate::bibliography::Citation;
use crate::counter::{append_at, logs_model, step, step_effect, Registry, ResetRule};
use crate::location::{LocModel, Location};
use crate::numbering::{Pattern, Piece};
use crate::state::{
    component, fold_upto, log_model, sat_add, Entry, EntryModel, Update, UpdateModel,
};
use crate::structural::{nodes_model, NodeModel, StructuralNode};

verus! {

/// One instruction of the document, in document order.
pub enum Instr {
    /// Set a state outright.
    SetState { state: usize, loc: Location, value: Vec<u64> },
    /// Step a counter by a fixed amount.
    StepCounter { counter: usize, loc: Location, level: u16, amount: u64 },
    /// Step a counter by one more than the first component of another
    /// state's value as of `loc`, read from the previous snapshot.
    StepByOther { counter: usize, loc: Location, level: u16, other: usize },
    /// Lay out a structural node: step its counter by one at its location
    /// and append it to the registration log.
    Register { node: StructuralNode },
    /// Record a citation.
    Cite { key: String, loc: Location, locator: Option<String> },
}

/// The immutable record of one completed pass.
pub struct Snapshot {
    /// One update log per registered state.
    pub logs: Vec<Vec<Entry>>,
    /// The registration log, in document order.
    pub nodes: Vec<StructuralNode>,
    /// The citation log, in document order.
    pub cites: Vec<Citation>,
}

/// Model of a citation.
#[verifier::ext_equal]
pub struct CiteModel {
    pub key: Seq<char>,
    pub loc: LocModel,
    pub locator: Option<Seq<char>>,
}

impl Citation {
    pub open spec fn model(&self) -> CiteModel {
        CiteModel {
            key: self.key@,
            loc: self.loc.model(),
            locator: match self.locator {
                Option::Some(l) => Option::Some(l@),
                Option::None => Option::None,
            },
        }
    }
}

/// Model of a citation log.
pub open spec fn cites_model(s: Seq<Citation>) -> Seq<CiteModel> {
    s.map_values(|c: Citation| c.model())
}

/// Model of a snapshot.
#[verifier::ext_equal]
pub struct SnapModel {
    pub logs: Seq<Seq<EntryModel>>,
    pub nodes: Seq<NodeModel>,
    pub cites: Seq<CiteModel>,
}

impl Snapshot {
    pub open spec fn model(&self) -> SnapModel {
        SnapModel {
            logs: logs_model(self.logs@),
            nodes: nodes_model(self.nodes@),
            cites: cites_model(self.cites@),
        }
    }
}

/// The snapshot the very first pass runs against: empty logs for every
/// registered state, no registrations, no citations.
pub open spec fn empty_snap(n: nat) -> SnapModel {
    SnapModel {
        logs: Seq::new(n, |i: int| Seq::empty()),
        nodes: Seq::empty(),
        cites: Seq::empty(),
    }
}

/// Builds the empty snapshot for a registry.
#[verifier::loop_isolation(false)]
pub fn empty_snapshot(registry: &Registry) -> (r: Snapshot)
    ensures
        r.model() == empty_snap(registry.names@.len() as nat),
        r.logs@.len() == registry.names@.len(),
{
    let mut logs: Vec<Vec<Entry>> = Vec::new();
    let mut i: usize = 0;
    while i < registry.names.len()
        invariant
            i <= registry.names@.len(),
            logs@.len() == i,
            forall|k: int| 0 <= k < i ==> (#[trigger] logs@[k])@.len() == 0,
        decreases registry.names@.len() - i,
    {
        logs.push(Vec::new());
        i += 1;
    }
    let r = Snapshot { logs, nodes: Vec::new(), cites: Vec::new() };
    proof {
        assert(r.model() =~~= empty_snap(registry.names@.len() as nat));
    }
    r
}

/// The first component of a state's value as of `loc`, per the previous
/// snapshot; zero for an unregistered state index.
pub open spec fn read_component(logs: Seq<Seq<EntryModel>>, i: int, loc: LocModel) -> u64 {
    if 0 <= i < logs.len() {
        component(fold_upto(logs[i], loc), 0)
    } else {
        0
    }
}

/// What one instruction adds to the snapshot under construction.  Reads go
/// against the previous snapshot, never against the pass in progress.
pub open spec fn instr_effect(
    cur: SnapModel,
    instr: Instr,
    prev: SnapModel,
    rules: Seq<ResetRule>,
) -> SnapModel {
    match instr {
        Instr::SetState { state, loc, value } => SnapModel {
            logs: if state < cur.logs.len() {
                append_at(
                    cur.logs,
                    state as int,
                    EntryModel { loc: loc.model(), up: UpdateModel::Assign(value@) },
                )
            } else {
                cur.logs
            },
            ..cur
        },
        Instr::StepCounter { counter, loc, level, amount } => SnapModel {
            logs: if counter < cur.logs.len() {
                step_effect(cur.logs, rules, counter as int, loc.model(), level, amount)
            } else {
                cur.logs
            },
            ..cur
        },
        Instr::StepByOther { counter, loc, level, other } => SnapModel {
            logs: if counter < cur.logs.len() {
                step_effect(
                    cur.logs,
                    rules,
                    counter as int,
                    loc.model(),
                    level,
                    sat_add(read_component(prev.logs, other as int, loc.model()), 1),
                )
            } else {
                cur.logs
            },
            ..cur
        },
        Instr::Register { node } => SnapModel {
            logs: if node.counter < cur.logs.len() {
                step_effect(cur.logs, rules, node.counter as int, node.loc.model(), node.level, 1)
            } else {
                cur.logs
            },
            nodes: cur.nodes.push(node.model()),
            ..cur
        },
        Instr::Cite { key, loc, locator } => SnapModel {
            cites: cur.cites.push(
                CiteModel {
                    key: key@,
                    loc: loc.model(),
                    locator: match locator {
                        Option::Some(l) => Option::Some(l@),
                        Option::None => Option::None,
                    },
                },
            ),
            ..cur
        },
    }
}

/// The snapshot one pass over the document produces, given the previous
/// snapshot: every instruction applied in document order to the empty
/// snapshot.
pub open spec fn run_pass_spec(
    doc: Seq<Instr>,
    prev: SnapModel,
    n: nat,
    rules: Seq<ResetRule>,
) -> SnapModel
    decreases doc.len(),
{
    if doc.len() == 0 {
        empty_snap(n)
    } else {
        instr_effect(run_pass_spec(doc.drop_last(), prev, n, rules), doc.last(), prev, rules)
    }
}

/// An exact copy of a pattern.
pub fn clone_pattern(p: &Pattern) -> (r: Pattern)
    ensures
        r.model() == p.model(),
{
    let prefix = crate::numbering::copy_bytes(&p.prefix);
    let mut pieces: Vec<Piece> = Vec::new();
    let mut i: usize = 0;
    #[verifier::loop_isolation(false)]
    while i < p.pieces.len()
        invariant
            i <= p.pieces@.len(),
            pieces@.len() == i,
            forall|k: int|
                0 <= k < i ==> (#[trigger] pieces@[k]).model() == p.pieces@[k].model(),
        decreases p.pieces@.len() - i,
    {
        let piece = &p.pieces[i];
        pieces.push(Piece { style: piece.style, suffix: crate::numbering::copy_bytes(&piece.suffix) });
        i += 1;
    }
    let r = Pattern { prefix, pieces };
    proof {
        assert(r.model() =~~= p.model());
    }
    r
}

/// An exact copy of an optional string.
pub fn clone_opt_string(s: &Option<String>) -> (r: Option<String>)
    ensures
        match s {
            Option::Some(x) => r matches Option::Some(y) && y@ == x@,
            Option::None => r is None,
        },
{
    match s {
        Option::Some(x) => Option::Some(crate::reference::clone_string(x)),
        Option::None => Option::None,
    }
}

/// An exact copy of a structural node.
pub fn clone_node(n: &StructuralNode) -> (r: StructuralNode)
    ensures
        r.model() == n.model(),
{
    let r = StructuralNode {
        kind: n.kind,
        level: n.level,
        label: clone_opt_string(&n.label),
        pattern: clone_pattern(&n.pattern),
        title: crate::reference::clone_string(&n.title),
        counter: n.counter,
        loc: n.loc.duplicate(),
    };
    proof {
        assert(r.model() =~~= n.model());
    }
    r
}

/// An exact copy of a citation.
pub fn clone_citation(c: &Citation) -> (r: Citation)
    ensures
        r.model() == c.model(),
{
    let r = Citation {
        key: crate::reference::clone_string(&c.key),
        loc: c.loc.duplicate(),
        locator: clone_opt_string(&c.locator),
    };
    proof {
        assert(r.model() =~~= c.model());
    }
    r
}

/// Runs one pass: every instruction in document order, reads against the
/// previous snapshot, writes into a fresh snapshot.
#[verifier::loop_isolation(false)]
pub fn run_pass(registry: &Registry, doc: &Vec<Instr>, prev: &Snapshot) -> (r: Snapshot)
    requires
        registry.wf(),
    ensures
        r.model() == run_pass_spec(
            doc@,
            prev.model(),
            registry.names@.len() as nat,
            registry.rules@,
        ),
        r.logs@.len() == registry.names@.len(),
{
    let ghost n = registry.names@.len() as nat;
    let ghost rules = registry.rules@;
    let mut cur = empty_snapshot(registry);
    let mut i: usize = 0;
    proof {
        assert(cur.model() =~~= run_pass_spec(doc@.subrange(0, 0), prev.model(), n, rules));
    }
    while i < doc.len()
        invariant
            i <= doc@.len(),
            cur.logs@.len() == registry.names@.len(),
            cur.model() == run_pass_spec(doc@.subrange(0, i as int), prev.model(), n, rules),
        decreases doc@.len() - i,
    {
        let ghost pre_model = cur.model();
        let instr = &doc[i];
        match instr {
            Instr::SetState { state, loc, value } => {
                if *state < registry.names.len() {
                    let entry = Entry {
                        loc: loc.duplicate(),
                        update: Update::Assign(crate::state::copy_components(value)),
                    };
                    proof {
                        assert(entry.model() == (EntryModel {
                            loc: loc.model(),
                            up: UpdateModel::Assign(value@),
                        }));
                    }
                    cur.logs[*state].push(entry);
                    proof {
                        assert(logs_model(cur.logs@) =~~= append_at(
                            pre_model.logs,
                            *state as int,
                            EntryModel { loc: loc.model(), up: UpdateModel::Assign(value@) },
                        ));
                    }
                }
            },
            Instr::StepCounter { counter, loc, level, amount } => {
                if *counter < registry.names.len() {
                    step(registry, &mut cur.logs, *counter, loc, *level, *amount);
                }
            },
            Instr::StepByOther { counter, loc, level, other } => {
                if *counter < registry.names.len() {
                    let amount = if *other < prev.logs.len() {
                        let v = crate::state::value_at(&prev.logs[*other], loc);
                        let c: u64 = if v.len() > 0 {
                            v[0]
                        } else {
                            0
                        };
                        if c <= u64::MAX - 1 {
                            c + 1
                        } else {
                            u64::MAX
                        }
                    } else {
                        1
                    };
                    proof {
                        assert(amount == sat_add(
                            read_component(prev.model().logs, *other as int, loc.model()),
                            1,
                        ));
                    }
                    step(registry, &mut cur.logs, *counter, loc, *level, amount);
                }
            },
            Instr::Register { node } => {
                if node.counter < registry.names.len() {
                    step(registry, &mut cur.logs, node.counter, &node.loc, node.level, 1);
                }
                cur.nodes.push(clone_node(node));
                proof {
                    assert(nodes_model(cur.nodes@) =~~= pre_model.nodes.push(node.model()));
                }
            },
            Instr::Cite { key, loc, locator } => {
                cur.cites.push(Citation {
                    key: crate::reference::clone_string(key),
                    loc: loc.duplicate(),
                    locator: clone_opt_string(locator),
                });
                proof {
                    assert(cites_model(cur.cites@) =~~= pre_model.cites.push(
                        CiteModel {
                            key: key@,
                            loc: loc.model(),
                            locator: match locator {
                                Option::Some(l) => Option::Some(l@),
                                Option::None => Option::None,
                            },
                        },
                    ));
                }
            },
        }
        proof {
            let pre = doc@.subrange(0, i as int);
            let post = doc@.subrange(0, i + 1);
            assert(post.drop_last() =~= pre);
            assert(post.last() == doc@[i as int]);
            assert(cur.model() =~~= instr_effect(pre_model, doc@[i as int], prev.model(), rules));
        }
        i += 1;
    }
    proof {
        assert(doc@.subrange(0, doc@.len() as int) =~= doc@);
    }
    cur
}


/// Compares two component vectors.
#[verifier::loop_isolation(false)]
pub fn eq_components(a: &Vec<u64>, b: &Vec<u64>) -> (r: bool)
    ensures
        r == (a@ == b@),
{
    if a.len() != b.len() {
        return false;
    }
    let mut i: usize = 0;
    while i < a.len()
        invariant
            i <= a@.len(),
            a@.len() == b@.len(),
            forall|k: int| 0 <= k < i ==> a@[k] == b@[k],
        decreases a@.len() - i,
    {
        if a[i] != b[i] {
            return false;
        }
        i += 1;
    }
    proof {
        assert(a@ =~= b@);
    }
    true
}

/// Compares two locations for structural equality.
pub fn eq_location(a: &Location, b: &Location) -> (r: bool)
    ensures
        r == (a.model() == b.model()),
{
    if a.disambiguator != b.disambiguator {
        return false;
    }
    if a.path.len() != b.path.len() {
        return false;
    }
    let mut i: usize = 0;
    #[verifier::loop_isolation(false)]
    while i < a.path.len()
        invariant
            i <= a.path@.len(),
            a.path@.len() == b.path@.len(),
            forall|k: int| 0 <= k < i ==> a.path@[k] == b.path@[k],
        decreases a.path@.len() - i,
    {
        if a.path[i] != b.path[i] {
            return false;
        }
        i += 1;
    }
    proof {
        assert(a.path@ =~= b.path@);
    }
    true
}

/// Compares two updates.
pub fn eq_update(a: &Update, b: &Update) -> (r: bool)
    ensures
        r == (a.model() == b.model()),
{
    match (a, b) {
        (Update::Assign(x), Update::Assign(y)) => eq_components(x, y),
        (Update::Step { level: l1, amount: a1 }, Update::Step { level: l2, amount: a2 }) => l1
            == l2 && a1 == a2,
        (Update::Reset { level: l1 }, Update::Reset { level: l2 }) => l1 == l2,
        _ => false,
    }
}

/// Compares two log entries.
pub fn eq_entry(a: &Entry, b: &Entry) -> (r: bool)
    ensures
        r == (a.model() == b.model()),
{
    eq_location(&a.loc, &b.loc) && eq_update(&a.update, &b.update)
}

/// Compares two update logs.
#[verifier::loop_isolation(false)]
pub fn eq_log(a: &Vec<Entry>, b: &Vec<Entry>) -> (r: bool)
    ensures
        r == (log_model(a@) == log_model(b@)),
{
    if a.len() != b.len() {
        proof {
            assert(log_model(a@).len() != log_model(b@).len());
        }
        return false;
    }
    let mut i: usize = 0;
    while i < a.len()
        invariant
            i <= a@.len(),
            a@.len() == b@.len(),
            forall|k: int| 0 <= k < i ==> (#[trigger] a@[k]).model() == b@[k].model(),
        decreases a@.len() - i,
    {
        if !eq_entry(&a[i], &b[i]) {
            proof {
                assert(log_model(a@)[i as int] != log_model(b@)[i as int]);
            }
            return false;
        }
        i += 1;
    }
    proof {
        assert(log_model(a@) =~= log_model(b@));
    }
    true
}

/// Compares two full log sets.
#[verifier::loop_isolation(false)]
pub fn eq_logs(a: &Vec<Vec<Entry>>, b: &Vec<Vec<Entry>>) -> (r: bool)
    ensures
        r == (logs_model(a@) == logs_model(b@)),
{
    if a.len() != b.len() {
        proof {
            assert(logs_model(a@).len() != logs_model(b@).len());
        }
        return false;
    }
    let mut i: usize = 0;
    while i < a.len()
        invariant
            i <= a@.len(),
            a@.len() == b@.len(),
            forall|k: int| 0 <= k < i ==> log_model((#[trigger] a@[k])@) == log_model(b@[k]@),
        decreases a@.len() - i,
    {
        if !eq_log(&a[i], &b[i]) {
            proof {
                assert(logs_model(a@)[i as int] != logs_model(b@)[i as int]);
            }
            return false;
        }
        i += 1;
    }
    proof {
        assert(logs_model(a@) =~= logs_model(b@));
    }
    true
}

/// Compares two byte strings.
#[verifier::loop_isolation(false)]
pub fn eq_bytes(a: &Vec<u8>, b: &Vec<u8>) -> (r: bool)
    ensures
        r == (a@ == b@),
{
    if a.len() != b.len() {
        return false;
    }
    let mut i: usize = 0;
    while i < a.len()
        invariant
            i <= a@.len(),
            a@.len() == b@.len(),
            forall|k: int| 0 <= k < i ==> a@[k] == b@[k],
        decreases a@.len() - i,
    {
        if a[i] != b[i] {
            return false;
        }
        i += 1;
    }
    proof {
        assert(a@ =~= b@);
    }
    true
}

/// Compares two patterns.
#[verifier::loop_isolation(false)]
pub fn eq_pattern(a: &Pattern, b: &Pattern) -> (r: bool)
    ensures
        r == (a.model() == b.model()),
{
    if !eq_bytes(&a.prefix, &b.prefix) {
        return false;
    }
    if a.pieces.len() != b.pieces.len() {
        proof {
            assert(a.model().pieces.len() != b.model().pieces.len());
        }
        return false;
    }
    let mut i: usize = 0;
    while i < a.pieces.len()
        invariant
            i <= a.pieces@.len(),
            a.pieces@.len() == b.pieces@.len(),
            a.prefix@ == b.prefix@,
            forall|k: int|
                0 <= k < i ==> (#[trigger] a.pieces@[k]).model() == b.pieces@[k].model(),
        decreases a.pieces@.len() - i,
    {
        let pa = &a.pieces[i];
        let pb = &b.pieces[i];
        let same_style = match (pa.style, pb.style) {
            (crate::numbering::CountStyle::Arabic, crate::numbering::CountStyle::Arabic) => true,
            (
                crate::numbering::CountStyle::RomanLower,
                crate::numbering::CountStyle::RomanLower,
            ) => true,
            (
                crate::numbering::CountStyle::RomanUpper,
                crate::numbering::CountStyle::RomanUpper,
            ) => true,
            (
                crate::numbering::CountStyle::LetterLower,
                crate::numbering::CountStyle::LetterLower,
            ) => true,
            (
                crate::numbering::CountStyle::LetterUpper,
                crate::numbering::CountStyle::LetterUpper,
            ) => true,
            (crate::numbering::CountStyle::Symbol, crate::numbering::CountStyle::Symbol) => true,
            _ => false,
        };
        if !same_style || !eq_bytes(&pa.suffix, &pb.suffix) {
            proof {
                assert(a.model().pieces[i as int] != b.model().pieces[i as int]);
            }
            return false;
        }
        i += 1;
    }
    proof {
        assert(a.model() =~~= b.model());
    }
    true
}

/// Compares two strings.
pub fn eq_string(a: &String, b: &String) -> (r: bool)
    ensures
        r == (a@ == b@),
{
    *a == *b
}

/// Compares two optional strings.
pub fn eq_opt_string(a: &Option<String>, b: &Option<String>) -> (r: bool)
    ensures
        r == (match (a, b) {
            (Option::Some(x), Option::Some(y)) => x@ == y@,
            (Option::None, Option::None) => true,
            _ => false,
        }),
{
    match (a, b) {
        (Option::Some(x), Option::Some(y)) => eq_string(x, y),
        (Option::None, Option::None) => true,
        _ => false,
    }
}

/// Compares two structural nodes.
pub fn eq_node(a: &StructuralNode, b: &StructuralNode) -> (r: bool)
    ensures
        r == (a.model() == b.model()),
{
    let same_kind = match (a.kind, b.kind) {
        (crate::structural::ElementKind::Heading, crate::structural::ElementKind::Heading) => true,
        (crate::structural::ElementKind::Figure, crate::structural::ElementKind::Figure) => true,
        _ => false,
    };
    let r = same_kind && a.level == b.level && eq_opt_string(&a.label, &b.label) && eq_pattern(
        &a.pattern,
        &b.pattern,
    ) && eq_string(&a.title, &b.title) && a.counter == b.counter && eq_location(&a.loc, &b.loc);
    proof {
        if r {
            assert(a.model() =~~= b.model());
        }
    }
    r
}

/// Compares two registration logs.
#[verifier::loop_isolation(false)]
pub fn eq_nodes(a: &Vec<StructuralNode>, b: &Vec<StructuralNode>) -> (r: bool)
    ensures
        r == (nodes_model(a@) == nodes_model(b@)),
{
    if a.len() != b.len() {
        proof {
            assert(nodes_model(a@).len() != nodes_model(b@).len());
        }
        return false;
    }
    let mut i: usize = 0;
    while i < a.len()
        invariant
            i <= a@.len(),
            a@.len() == b@.len(),
            forall|k: int| 0 <= k < i ==> (#[trigger] a@[k]).model() == b@[k].model(),
        decreases a@.len() - i,
    {
        if !eq_node(&a[i], &b[i]) {
            proof {
                assert(nodes_model(a@)[i as int] != nodes_model(b@)[i as int]);
            }
            return false;
        }
        i += 1;
    }
    proof {
        assert(nodes_model(a@) =~= nodes_model(b@));
    }
    true
}

/// Compares two citations.
pub fn eq_citation(a: &Citation, b: &Citation) -> (r: bool)
    ensures
        r == (a.model() == b.model()),
{
    let r = eq_string(&a.key, &b.key) && eq_location(&a.loc, &b.loc) && eq_opt_string(
        &a.locator,
        &b.locator,
    );
    proof {
        if r {
            assert(a.model() =~~= b.model());
        }
    }
    r
}

/// Compares two citation logs.
#[verifier::loop_isolation(false)]
pub fn eq_cites(a: &Vec<Citation>, b: &Vec<Citation>) -> (r: bool)
    ensures
        r == (cites_model(a@) == cites_model(b@)),
{
    if a.len() != b.len() {
        proof {
            assert(cites_model(a@).len() != cites_model(b@).len());
        }
        return false;
    }
    let mut i: usize = 0;
    while i < a.len()
        invariant
            i <= a@.len(),
            a@.len() == b@.len(),
            forall|k: int| 0 <= k < i ==> (#[trigger] a@[k]).model() == b@[k].model(),
        decreases a@.len() - i,
    {
        if !eq_citation(&a[i], &b[i]) {
            proof {
                assert(cites_model(a@)[i as int] != cites_model(b@)[i as int]);
            }
            return false;
        }
        i += 1;
    }
    proof {
        assert(cites_model(a@) =~= cites_model(b@));
    }
    true
}

/// The convergence check: two snapshots are structurally equal — the same
/// sequence of (location, operation) entries in every log.
pub fn snapshots_equal(a: &Snapshot, b: &Snapshot) -> (r: bool)
    ensures
        r == (a.model() == b.model()),
{
    let r = eq_logs(&a.logs, &b.logs) && eq_nodes(&a.nodes, &b.nodes) && eq_cites(
        &a.cites,
        &b.cites,
    );
    proof {
        if r {
            assert(a.model() =~~= b.model());
        }
    }
    r
}


/// The snapshot after `k` passes: pass one runs against the empty
/// snapshot, and each later pass against its predecessor's result.
pub open spec fn iterate(doc: Seq<Instr>, n: nat, rules: Seq<ResetRule>, k: nat) -> SnapModel
    decreases k,
{
    if k == 0 {
        empty_snap(n)
    } else {
        run_pass_spec(doc, iterate(doc, n, rules, (k - 1) as nat), n, rules)
    }
}

/// How a run of passes ended.
pub enum Outcome {
    /// Two consecutive passes agreed; the snapshot is final.
    Stable { snapshot: Snapshot, passes: usize },
    /// The iteration budget ran out; the named states kept changing on the
    /// final two passes.
    Diverged { changed: Vec<String> },
}

/// The names of the states whose logs differ between two snapshots, in
/// registration order.
pub open spec fn divergent_names(names: Seq<Seq<char>>, a: SnapModel, b: SnapModel) -> Seq<
    Seq<char>,
>
    decreases names.len(),
{
    if names.len() == 0 {
        Seq::empty()
    } else {
        let done = divergent_names(names.drop_last(), a, b);
        let i = names.len() - 1;
        if 0 <= i < a.logs.len() && 0 <= i < b.logs.len() && a.logs[i] != b.logs[i] {
            done.push(names.last())
        } else {
            done
        }
    }
}

/// The names of a registry.
pub open spec fn names_model(names: Seq<String>) -> Seq<Seq<char>> {
    names.map_values(|s: String| s@)
}

/// Collects the names of the states whose logs differ between two
/// snapshots.
#[verifier::loop_isolation(false)]
pub fn collect_divergent(registry: &Registry, a: &Snapshot, b: &Snapshot) -> (r: Vec<String>)
    ensures
        names_model(r@) == divergent_names(names_model(registry.names@), a.model(), b.model()),
{
    let mut r: Vec<String> = Vec::new();
    let mut i: usize = 0;
    proof {
        assert(names_model(r@) =~= divergent_names(
            names_model(registry.names@.subrange(0, 0)),
            a.model(),
            b.model(),
        ));
    }
    while i < registry.names.len()
        invariant
            i <= registry.names@.len(),
            names_model(r@) == divergent_names(
                names_model(registry.names@.subrange(0, i as int)),
                a.model(),
                b.model(),
            ),
        decreases registry.names@.len() - i,
    {
        let differs = if i < a.logs.len() && i < b.logs.len() {
            !eq_log(&a.logs[i], &b.logs[i])
        } else {
            false
        };
        if differs {
            r.push(crate::reference::clone_string(&registry.names[i]));
        }
        proof {
            let pre = names_model(registry.names@.subrange(0, i as int));
            let post = names_model(registry.names@.subrange(0, i + 1));
            assert(post.drop_last() =~= pre);
            assert(post.last() == registry.names@[i as int]@);
            assert(post.len() - 1 == i);
            assert(names_model(r@) =~= divergent_names(post, a.model(), b.model()));
        }
        i += 1;
    }
    proof {
        assert(registry.names@.subrange(0, registry.names@.len() as int) =~= registry.names@);
    }
    r
}

/// Runs passes until two consecutive snapshots agree, or the iteration
/// budget `cap` runs out.  A stable outcome carries the final snapshot and
/// the number of passes run: the snapshot is the `passes`-th iterate, it
/// equals the one before it, and no earlier pair of consecutive iterates
/// agreed.  A diverged outcome means no pair of consecutive iterates up to
/// the budget agreed, and carries the names of the states whose logs still
/// differed on the final two passes.
#[verifier::loop_isolation(false)]
pub fn drive(registry: &Registry, doc: &Vec<Instr>, cap: usize) -> (r: Outcome)
    requires
        registry.wf(),
        cap >= 1,
    ensures
        ({
            let n = registry.names@.len() as nat;
            let rules = registry.rules@;
            match r {
                Outcome::Stable { snapshot, passes } => {
                    &&& 1 <= passes <= cap
                    &&& snapshot.model() == iterate(doc@, n, rules, passes as nat)
                    &&& iterate(doc@, n, rules, passes as nat) == iterate(
                        doc@,
                        n,
                        rules,
                        (passes - 1) as nat,
                    )
                    &&& forall|k: int|
                        1 <= k < passes ==> #[trigger] iterate(doc@, n, rules, k as nat)
                            != iterate(doc@, n, rules, (k - 1) as nat)
                },
                Outcome::Diverged { changed } => {
                    &&& forall|k: int|
                        1 <= k <= cap ==> #[trigger] iterate(doc@, n, rules, k as nat)
                            != iterate(doc@, n, rules, (k - 1) as nat)
                    &&& names_model(changed@) == divergent_names(
                        names_model(registry.names@),
                        iterate(doc@, n, rules, (cap - 1) as nat),
                        iterate(doc@, n, rules, cap as nat),
                    )
                },
            }
        }),
{
    let ghost n = registry.names@.len() as nat;
    let ghost rules = registry.rules@;
    let mut prev = empty_snapshot(registry);
    let mut passes: usize = 0;
    while passes < cap
        invariant
            passes <= cap,
            prev.model() == iterate(doc@, n, rules, passes as nat),
            forall|k: int|
                1 <= k <= passes ==> #[trigger] iterate(doc@, n, rules, k as nat) != iterate(
                    doc@,
                    n,
                    rules,
                    (k - 1) as nat,
                ),
        decreases cap - passes,
    {
        let fresh = run_pass(registry, doc, &prev);
        proof {
            assert(fresh.model() == iterate(doc@, n, rules, (passes + 1) as nat));
        }
        if snapshots_equal(&fresh, &prev) {
            return Outcome::Stable { snapshot: fresh, passes: passes + 1 };
        }
        prev = fresh;
        passes += 1;
    }
    let last = run_pass_snapshot_before(registry, doc, cap);
    let changed = collect_divergent(registry, &last, &prev);
    Outcome::Diverged { changed }
}

/// Recomputes the snapshot one pass before the budget, for the divergence
/// report.
#[verifier::loop_isolation(false)]
fn run_pass_snapshot_before(registry: &Registry, doc: &Vec<Instr>, cap: usize) -> (r: Snapshot)
    requires
        registry.wf(),
        cap >= 1,
    ensures
        r.model() == iterate(doc@, registry.names@.len() as nat, registry.rules@, (cap - 1) as nat),
{
    let ghost n = registry.names@.len() as nat;
    let ghost rules = registry.rules@;
    let mut prev = empty_snapshot(registry);
    let mut i: usize = 0;
    while i < cap - 1
        invariant
            i <= cap - 1,
            prev.model() == iterate(doc@, n, rules, i as nat),
        decreases cap - 1 - i,
    {
        let fresh = run_pass(registry, doc, &prev);
        prev = fresh;
        i += 1;
    }
    prev
}

/// Whether any instruction of the document reads state: only such
/// instructions can make one pass differ from the next.
pub open spec fn doc_reads_state(doc: Seq<Instr>) -> bool {
    exists|i: int| 0 <= i < doc.len() && (#[trigger] doc[i]) is StepByOther
}

/// A pass over a document that reads no state is the same function of
/// nothing: it produces the same snapshot whatever previous snapshot it is
/// given.
pub proof fn lemma_pass_ignores_prev(
    doc: Seq<Instr>,
    p1: SnapModel,
    p2: SnapModel,
    n: nat,
    rules: Seq<ResetRule>,
)
    requires
        !doc_reads_state(doc),
    ensures
        run_pass_spec(doc, p1, n, rules) == run_pass_spec(doc, p2, n, rules),
    decreases doc.len(),
{
    if doc.len() > 0 {
        assert(!doc_reads_state(doc.drop_last())) by {
            assert(forall|i: int|
                0 <= i < doc.len() - 1 ==> (#[trigger] doc.drop_last()[i]) == doc[i]);
        }
        lemma_pass_ignores_prev(doc.drop_last(), p1, p2, n, rules);
        assert(doc.last() == doc[doc.len() - 1]);
        assert(!(doc.last() is StepByOther));
    }
}

/// A document whose queries do not feed back into any state or counter
/// stabilizes in exactly two passes: the pass that discovers the facts and
/// the pass that confirms nothing changed.  The second iterate equals the
/// first, and so does every later one, so a driver with a budget of at
/// least two, run on a document whose first pass produces anything at all,
/// ends stable after pass two.
pub proof fn lemma_pure_document_stabilizes_in_two(
    doc: Seq<Instr>,
    n: nat,
    rules: Seq<ResetRule>,
)
    requires
        !doc_reads_state(doc),
    ensures
        iterate(doc, n, rules, 2) == iterate(doc, n, rules, 1),
        forall|k: nat| k >= 1 ==> #[trigger] iterate(doc, n, rules, k) == iterate(doc, n, rules, 1),
{
    assert forall|k: nat| k >= 1 implies #[trigger] iterate(doc, n, rules, k) == iterate(
        doc,
        n,
        rules,
        1,
    ) by {
        lemma_pure_iterates_agree(doc, n, rules, k);
    }
}

/// Every iterate from the first on is the same, when no instruction reads
/// state.
proof fn lemma_pure_iterates_agree(doc: Seq<Instr>, n: nat, rules: Seq<ResetRule>, k: nat)
    requires
        !doc_reads_state(doc),
        k >= 1,
    ensures
        iterate(doc, n, rules, k) == iterate(doc, n, rules, 1),
    decreases k,
{
    if k > 1 {
        lemma_pure_iterates_agree(doc, n, rules, (k - 1) as nat);
        lemma_pass_ignores_prev(
            doc,
            iterate(doc, n, rules, (k - 1) as nat),
            iterate(doc, n, rules, 0),
            n,
            rules,
        );
    }
}

} // verus!
