//! The hierarchical table of contents.
//!
//! The outline is rebuilt each pass from the registration log, walked in
//! document order: a node becomes a child of the nearest preceding node
//! whose level is smaller.  When a level is skipped — a deep node directly
//! after a much shallower one — the node attaches to that shallowest
//! available ancestor rather than failing.  The tree is an arena: every
//! node carries the index of its parent, which always lies earlier in the
//! log.

use vstd::prelude::*;
use crate::structural::StructuralNode;

verus! {

/// One outline entry: the registration-log index it mirrors and the arena
/// index of its parent, if any.
#[derive(Clone, Copy, PartialEq, Eq, Structural)]
pub struct OutlineNode {
    /// Index into the registration log.
    pub item: usize,
    /// Index of the parent entry, earlier in the log; root entries have
    /// none.
    pub parent: Option<usize>,
}

/// The nearest strictly preceding position with a smaller level, searching
/// down from `j`.
pub open spec fn find_ancestor(levels: Seq<u16>, i: int, j: int) -> Option<int>
    decreases j + 1,
{
    if j < 0 {
        Option::None
    } else if levels[j] < levels[i] {
        Option::Some(j)
    } else {
        find_ancestor(levels, i, j - 1)
    }
}

/// The parent of position `i`: the nearest preceding position with a
/// smaller level.
pub open spec fn parent_of(levels: Seq<u16>, i: int) -> Option<int> {
    find_ancestor(levels, i, i - 1)
}

/// The levels of a registration log.
pub open spec fn levels_of(nodes: Seq<StructuralNode>) -> Seq<u16> {
    nodes.map_values(|n: StructuralNode| n.level)
}

/// Builds the outline arena from a registration log in document order:
/// entry `i` mirrors log position `i`, and its parent is the nearest
/// preceding position with a smaller level.
#[verifier::loop_isolation(false)]
pub fn build_outline(nodes: &Vec<StructuralNode>) -> (r: Vec<OutlineNode>)
    ensures
        r@.len() == nodes@.len(),
        forall|i: int|
            0 <= i < r@.len() ==> (#[trigger] r@[i]).item == i,
        forall|i: int|
            0 <= i < r@.len() ==> ((#[trigger] r@[i]).parent matches Option::Some(p) ==> parent_of(
                levels_of(nodes@),
                i,
            ) == Option::Some(p as int)),
        forall|i: int|
            0 <= i < r@.len() ==> ((#[trigger] r@[i]).parent is None ==> parent_of(
                levels_of(nodes@),
                i,
            ) is None),
{
    let ghost levels = levels_of(nodes@);
    let mut r: Vec<OutlineNode> = Vec::new();
    let mut i: usize = 0;
    while i < nodes.len()
        invariant
            i <= nodes@.len(),
            r@.len() == i,
            forall|k: int| 0 <= k < i ==> (#[trigger] r@[k]).item == k,
            forall|k: int|
                0 <= k < i ==> ((#[trigger] r@[k]).parent matches Option::Some(p) ==> parent_of(
                    levels,
                    k,
                ) == Option::Some(p as int)),
            forall|k: int|
                0 <= k < i ==> ((#[trigger] r@[k]).parent is None ==> parent_of(levels, k) is None),
        decreases nodes@.len() - i,
    {
        let mut parent: Option<usize> = Option::None;
        let mut j: usize = i;
        while j > 0
            invariant
                j <= i,
                i < nodes@.len(),
                parent is None,
                find_ancestor(levels, i as int, i - 1) == find_ancestor(levels, i as int, j - 1),
            decreases j,
        {
            if nodes[j - 1].level < nodes[i].level {
                parent = Option::Some(j - 1);
                proof {
                    assert(levels[j - 1] < levels[i as int]);
                }
                break;
            }
            j -= 1;
        }
        proof {
            match parent {
                Option::Some(p) => {
                    assert(find_ancestor(levels, i as int, p as int) == Option::Some(p as int));
                },
                Option::None => {
                    assert(find_ancestor(levels, i as int, -1) is None);
                },
            }
        }
        r.push(OutlineNode { item: i, parent });
        i += 1;
    }
    r
}

/// The skip-level policy: a node directly after a shallower node attaches
/// to that node, even when intermediate levels are missing — a depth-three
/// heading straight after a depth-one heading becomes its child.
pub proof fn lemma_skip_level_attaches_to_predecessor(levels: Seq<u16>, i: int)
    requires
        0 < i < levels.len(),
        levels[i - 1] < levels[i],
    ensures
        parent_of(levels, i) == Option::Some(i - 1),
{
}


/// The display text of one outline entry: the node's counter display as of
/// its own location, a space, and the node's literal title text.
pub fn entry_text(node: &StructuralNode, logs: &Vec<crate::state::Entry>) -> (r: String)
    requires
        crate::numbering::pattern_wf(node.pattern.model()),
    ensures
        r@ == crate::numbering::ascii_chars(
            crate::numbering::apply_pattern(
                node.pattern.model(),
                crate::state::fold_upto(crate::state::log_model(logs@), node.loc.model()),
            ),
        ) + " "@ + node.title@,
{
    let values = crate::state::value_at(logs, &node.loc);
    let number = crate::numbering::display(&node.pattern, &values);
    let mut text = number;
    text.append(" ");
    text.append(node.title.as_str());
    text
}

} // verus!
