//! Hyperlink target resolution.
//!
//! An internal target names a location, which must exist in the previous
//! snapshot's registration log; otherwise the link is unresolved and a
//! placeholder is emitted.  An external target is a URI and passes through
//! unchanged, except that an empty or scheme-less URI is malformed.  Both
//! failures are non-fatal diagnostics.

use vstd::prelude::*;
use crate::diag::Diagnostic;
use crate::location::{loc_eq, LocModel, Location};
use crate::structural::StructuralNode;

verus! {

/// What a link in the source points at.
pub enum LinkTarget {
    /// A point in the compiled document.
    Internal(Location),
    /// A URI outside the document.
    External(String),
}

/// A link ready for rendering.
pub enum ResolvedLink {
    /// An internal link to an existing location.
    Position(Location),
    /// An external link.
    Url(String),
    /// The visible stand-in for a link that could not be resolved.
    Placeholder,
}

/// Whether some registered node sits at exactly this location.
pub open spec fn location_known(nodes: Seq<StructuralNode>, loc: LocModel) -> bool {
    exists|i: int| 0 <= i < nodes.len() && loc_eq((#[trigger] nodes[i]).loc.model(), loc)
}

/// The leading character of a URI scheme: an ASCII letter.
pub open spec fn scheme_head(c: char) -> bool {
    ('A' <= c <= 'Z') || ('a' <= c <= 'z')
}

/// A later character of a URI scheme: the URI grammar's scheme alphabet —
/// a letter, a digit, `+`, `-` or `.`.
pub open spec fn scheme_tail(c: char) -> bool {
    scheme_head(c) || ('0' <= c <= '9') || c == '+' || c == '-' || c == '.'
}

/// A well-formed URI for linking: a scheme — a letter followed by letters,
/// digits, `+`, `-` or `.` — then a colon, and anything after it.
pub open spec fn uri_wf(s: Seq<char>) -> bool {
    exists|k: int|
        1 <= k < s.len() && #[trigger] s[k] == ':' && scheme_head(s[0]) && (forall|j: int|
            1 <= j < k ==> scheme_tail(#[trigger] s[j]))
}

/// Checks a URI's shape.
#[verifier::loop_isolation(false)]
pub fn check_uri(uri: &String) -> (r: bool)
    ensures
        r == uri_wf(uri@),
{
    let s = uri.as_str();
    let n = s.unicode_len();
    if n == 0 {
        return false;
    }
    let c0 = s.get_char(0);
    if !(('A' <= c0 && c0 <= 'Z') || ('a' <= c0 && c0 <= 'z')) {
        proof {
            assert(!scheme_head(uri@[0]));
        }
        return false;
    }
    let mut i: usize = 1;
    while i < n
        invariant
            1 <= i <= n,
            scheme_head(uri@[0]),
            forall|j: int| 1 <= j < i ==> scheme_tail(#[trigger] uri@[j]),
        decreases n - i,
    {
        let c = s.get_char(i);
        if c == ':' {
            proof {
                assert(1 <= i < uri@.len() && uri@[i as int] == ':');
            }
            return true;
        }
        let tail_ok = ('A' <= c && c <= 'Z') || ('a' <= c && c <= 'z') || ('0' <= c && c <= '9')
            || c == '+' || c == '-' || c == '.';
        if !tail_ok {
            proof {
                assert forall|k: int| 1 <= k < uri@.len() implies !(uri@[k] == ':' && (forall|
                    j: int,
                |
                    1 <= j < k ==> scheme_tail(#[trigger] uri@[j]))) by {
                    if uri@[k] == ':' {
                        if k > i {
                            assert(!scheme_tail(uri@[i as int]));
                        } else {
                            assert(scheme_tail(uri@[k]));
                        }
                    }
                }
            }
            return false;
        }
        i += 1;
    }
    proof {
        assert forall|k: int| 1 <= k < uri@.len() implies uri@[k] != ':' by {
            assert(scheme_tail(uri@[k]));
        }
    }
    false
}

/// Resolves a link target against the previous snapshot's registration
/// log.  An internal target resolves to its position exactly when some
/// registered node sits at it, else to the placeholder with an
/// unresolved-link diagnostic.  An external target passes through exactly
/// when its URI has a scheme, else to the placeholder with a
/// malformed-link diagnostic.
#[verifier::loop_isolation(false)]
pub fn resolve_link(target: LinkTarget, nodes: &Vec<StructuralNode>) -> (r: (
    ResolvedLink,
    Option<Diagnostic>,
))
    ensures
        match target {
            LinkTarget::Internal(loc) => {
                if location_known(nodes@, loc.model()) {
                    r.0 matches ResolvedLink::Position(p) && loc_eq(p.model(), loc.model())
                        && r.1 is None
                } else {
                    r.0 is Placeholder && (r.1 matches Option::Some(d) && d is UnresolvedLink)
                }
            },
            LinkTarget::External(uri) => {
                if uri_wf(uri@) {
                    r.0 matches ResolvedLink::Url(u) && u@ == uri@ && r.1 is None
                } else {
                    r.0 is Placeholder && (r.1 matches Option::Some(d) && (
                    d matches Diagnostic::MalformedLink(m) && m@ == uri@))
                }
            },
        },
{
    match target {
        LinkTarget::Internal(loc) => {
            let mut i: usize = 0;
            while i < nodes.len()
                invariant
                    i <= nodes@.len(),
                    forall|k: int| 0 <= k < i ==> !loc_eq((#[trigger] nodes@[k]).loc.model(), loc.model()),
                decreases nodes@.len() - i,
            {
                if nodes[i].loc.same_position(&loc) {
                    return (ResolvedLink::Position(loc), Option::None);
                }
                i += 1;
            }
            (ResolvedLink::Placeholder, Option::Some(Diagnostic::UnresolvedLink))
        },
        LinkTarget::External(uri) => {
            if check_uri(&uri) {
                (ResolvedLink::Url(uri), Option::None)
            } else {
                (
                    ResolvedLink::Placeholder,
                    Option::Some(Diagnostic::MalformedLink(uri)),
                )
            }
        },
    }
}

} // verus!
