//! Cross-referencing and introspection core of a markup-to-document compiler.
//!
//! Content in one part of a document may depend on facts only knowable from
//! other parts: heading numbers, figure counters, table-of-contents structure,
//! bibliographic citations, hyperlink targets.  The core supplies named,
//! ordered, location-addressable facts that a layout engine threads through
//! repeated passes until they reach a fixed point.

pub mod location;
pub mod state;
pub mod counter;
pub mod diag;
pub mod numbering;
pub mod structural;
pub mod outline;
pub mod reference;
pub mod link;
pub mod bibliography;
pub mod driver;
pub mod image;
