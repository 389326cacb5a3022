//! Structural content nodes: headings and figures.
//!
//! A structural node owns its level (heading depth, or zero for a figure),
//! an optional user label, its numbering pattern and title text — all fixed
//! at parse time — plus the counter index and location assigned during
//! layout.  Laid-out nodes are appended to a registration log in document
//! order; the outline and the label registry are rebuilt from that log each
//! pass, never patched incrementally.

use vstd::prelude::*;
use crate::location::{LocModel, Location};
use crate::numbering::{Pattern, PatternModel};

verus! {

/// The kind of a structural element, a closed enumeration.
#[derive(Clone, Copy, PartialEq, Eq, Structural)]
pub enum ElementKind {
    Heading,
    Figure,
}

/// A laid-out structural node.
pub struct StructuralNode {
    /// What the node is.
    pub kind: ElementKind,
    /// Heading depth, starting at one; zero for figures.
    pub level: u16,
    /// The unique user label, if the author gave one.
    pub label: Option<String>,
    /// The node's numbering pattern.
    pub pattern: Pattern,
    /// The node's own title text.
    pub title: String,
    /// Index of the counter the node steps and displays.
    pub counter: usize,
    /// Where layout placed the node.
    pub loc: Location,
}

/// Model of a structural node.
#[verifier::ext_equal]
pub struct NodeModel {
    pub kind: ElementKind,
    pub level: u16,
    pub label: Option<Seq<char>>,
    pub pattern: PatternModel,
    pub title: Seq<char>,
    pub counter: usize,
    pub loc: LocModel,
}

impl StructuralNode {
    pub open spec fn model(&self) -> NodeModel {
        NodeModel {
            kind: self.kind,
            level: self.level,
            label: match self.label {
                Option::Some(l) => Option::Some(l@),
                Option::None => Option::None,
            },
            pattern: self.pattern.model(),
            title: self.title@,
            counter: self.counter,
            loc: self.loc.model(),
        }
    }
}

/// Model of a registration log.
pub open spec fn nodes_model(s: Seq<StructuralNode>) -> Seq<NodeModel> {
    s.map_values(|n: StructuralNode| n.model())
}

} // verus!
