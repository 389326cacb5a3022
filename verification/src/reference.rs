//! Label declaration and reference resolution.
//!
//! Labels are unique within a pass: declaring one twice is a duplicate-label
//! diagnostic, and the first declaration stays authoritative for every later
//! resolution.  Resolving a label finds the structural node that declared it
//! and derives a localized supplement — the element's name in the document
//! language plus its counter display, as in "Figure 3".  Resolution reads
//! the previous stabilized snapshot, mirroring the one-pass-behind rule of
//! all state queries.

use vstd::prelude::*;
use crate::diag::Diagnostic;
use crate::counter::{logs_model, counter_display};
use crate::numbering::{apply_pattern, ascii_chars, pattern_wf};
use crate::state::{fold_upto, Entry};
use crate::structural::{ElementKind, StructuralNode};

verus! {

/// A language of the document, as two lower-case ASCII letters.
#[derive(Clone, Copy, PartialEq, Eq, Structural)]
pub struct Lang(pub u8, pub u8);

impl Lang {
    /// English.
    pub fn english() -> (r: Lang)
        ensures
            r == (Lang(101, 110)),
    {
        Lang(101, 110)
    }

    /// German.
    pub fn german() -> (r: Lang)
        ensures
            r == (Lang(100, 101)),
    {
        Lang(100, 101)
    }
}

/// The display name of an element kind in a language; English is the
/// fallback for every language without a table entry.
pub open spec fn local_name_spec(kind: ElementKind, lang: Lang) -> Seq<char> {
    match kind {
        ElementKind::Heading => if lang == (Lang(100, 101)) {
            "Abschnitt"@
        } else {
            "Section"@
        },
        ElementKind::Figure => if lang == (Lang(100, 101)) {
            "Abbildung"@
        } else {
            "Figure"@
        },
    }
}

/// The name with which an element is referenced.
pub trait LocalName {
    /// What the name is, as a specification.
    spec fn local_name_model(&self, lang: Lang) -> Seq<char>;

    /// Get the name in the given language.
    fn local_name(&self, lang: Lang) -> (r: &'static str)
        ensures
            r@ == self.local_name_model(lang),
    ;
}

impl LocalName for ElementKind {
    open spec fn local_name_model(&self, lang: Lang) -> Seq<char> {
        local_name_spec(*self, lang)
    }

    fn local_name(&self, lang: Lang) -> (r: &'static str)
        ensures
            r@ == local_name_spec(*self, lang),
    {
        match self {
            ElementKind::Heading => if lang == Lang(100, 101) {
                "Abschnitt"
            } else {
                "Section"
            },
            ElementKind::Figure => if lang == Lang(100, 101) {
                "Abbildung"
            } else {
                "Figure"
            },
        }
    }
}

/// The label registry of one pass: each declared label with the
/// registration-log index of the node that declared it, in declaration
/// order.
pub struct LabelRegistry {
    pub entries: Vec<(String, usize)>,
}

/// Model of a registry: (label, node index) pairs.
pub open spec fn registry_model(s: Seq<(String, usize)>) -> Seq<(Seq<char>, usize)> {
    s.map_values(|p: (String, usize)| (p.0@, p.1))
}

/// The node a label resolves to: the first (and, absent duplicates, only)
/// entry with that label.
pub open spec fn spec_lookup(entries: Seq<(Seq<char>, usize)>, label: Seq<char>) -> Option<usize>
    decreases entries.len(),
{
    if entries.len() == 0 {
        Option::None
    } else if entries.first().0 == label {
        Option::Some(entries.first().1)
    } else {
        spec_lookup(entries.drop_first(), label)
    }
}

impl LabelRegistry {
    /// An empty registry.
    pub fn new() -> (r: LabelRegistry)
        ensures
            r.entries@.len() == 0,
    {
        LabelRegistry { entries: Vec::new() }
    }

    /// Finds the node a label resolves to.
    #[verifier::loop_isolation(false)]
    pub fn lookup(&self, label: &String) -> (r: Option<usize>)
        ensures
            r == spec_lookup(registry_model(self.entries@), label@),
    {
        let mut i: usize = 0;
        proof {
            assert(registry_model(self.entries@).skip(0) =~= registry_model(self.entries@));
        }
        while i < self.entries.len()
            invariant
                i <= self.entries@.len(),
                spec_lookup(registry_model(self.entries@), label@) == spec_lookup(
                    registry_model(self.entries@).skip(i as int),
                    label@,
                ),
            decreases self.entries@.len() - i,
        {
            let hit = self.entries[i].0 == *label;
            proof {
                let m = registry_model(self.entries@);
                assert(m[i as int] == (self.entries@[i as int].0@, self.entries@[i as int].1));
                assert(m.skip(i as int).first() == m[i as int]);
                assert(m.skip(i as int).drop_first() =~= m.skip(i + 1));
            }
            if hit {
                return Option::Some(self.entries[i].1);
            }
            proof {
                let m = registry_model(self.entries@);
                assert(spec_lookup(m.skip(i as int), label@) == spec_lookup(
                    m.skip(i as int).drop_first(),
                    label@,
                ));
            }
            i += 1;
        }
        proof {
            assert(registry_model(self.entries@).skip(self.entries@.len() as int).len() == 0);
        }
        Option::None
    }

    /// Declares a label.  A fresh label is appended; a repeated one leaves
    /// the registry exactly as it was — the first declaration keeps every
    /// later resolution — and hands back the duplicate-label diagnostic.
    pub fn declare_label(&mut self, label: String, node: usize) -> (r: Option<Diagnostic>)
        ensures
            spec_lookup(registry_model(old(self).entries@), label@) is None ==> {
                &&& registry_model(final(self).entries@) == registry_model(
                    old(self).entries@,
                ).push((label@, node))
                &&& r is None
            },
            spec_lookup(registry_model(old(self).entries@), label@) is Some ==> {
                &&& final(self).entries@ == old(self).entries@
                &&& (r matches Option::Some(d) ==> d == (Diagnostic::DuplicateLabel(label)))
                &&& r is Some
            },
    {
        if self.lookup(&label).is_some() {
            return Option::Some(Diagnostic::DuplicateLabel(label));
        }
        let ghost pre = registry_model(self.entries@);
        self.entries.push((label, node));
        proof {
            assert(registry_model(self.entries@) =~= pre.push((label@, node)));
        }
        Option::None
    }
}

/// Resolves a label against a snapshot: the declaring node's supplement —
/// its kind's display name per the supplied localization table, with the
/// built-in names as fallback, a space, and its counter display as of the
/// node's own location — or the undefined-label diagnostic if no node
/// declared the label.
pub fn resolve(
    registry: &LabelRegistry,
    nodes: &Vec<StructuralNode>,
    logs: &Vec<Vec<Entry>>,
    table: &Vec<LocalEntry>,
    label: &String,
    lang: Lang,
) -> (r: Result<String, Diagnostic>)
    requires
        forall|i: int|
            0 <= i < registry.entries@.len() ==> (#[trigger] registry.entries@[i]).1
                < nodes@.len(),
        forall|i: int|
            0 <= i < nodes@.len() ==> (#[trigger] nodes@[i]).counter < logs@.len() && pattern_wf(
                nodes@[i].model().pattern,
            ),
    ensures
        match spec_lookup(registry_model(registry.entries@), label@) {
            Option::Some(n) => r matches Result::Ok(text) && 0 <= n < nodes@.len()
                && text@ == display_name_spec(table@, nodes@[n as int].kind, lang) + " "@
                + ascii_chars(
                apply_pattern(
                    nodes@[n as int].model().pattern,
                    fold_upto(
                        logs_model(logs@)[nodes@[n as int].counter as int],
                        nodes@[n as int].loc.model(),
                    ),
                ),
            ),
            Option::None => r matches Result::Err(d) && (d matches Diagnostic::UndefinedLabel(l)
                && l@ == label@),
        },
{
    proof {
        lemma_lookup_in_range(registry_model(registry.entries@), label@, nodes@.len() as int);
    }
    match registry.lookup(label) {
        Option::Some(n) => {
            let node = &nodes[n];
            let number = counter_display(logs, node.counter, &node.loc, &node.pattern);
            let mut text = localized_name(table, node.kind, lang);
            text.append(" ");
            text.append(number.as_str());
            proof {
                assert(text@ =~= display_name_spec(table@, nodes@[n as int].kind, lang) + " "@
                    + number@);
            }
            Result::Ok(text)
        },
        Option::None => Result::Err(Diagnostic::UndefinedLabel(clone_string(label))),
    }
}

/// A lookup in a registry whose nodes are in range yields an index in
/// range.
proof fn lemma_lookup_in_range(entries: Seq<(Seq<char>, usize)>, label: Seq<char>, n: int)
    requires
        forall|i: int| 0 <= i < entries.len() ==> (#[trigger] entries[i]).1 < n,
    ensures
        spec_lookup(entries, label) matches Option::Some(k) ==> k < n,
    decreases entries.len(),
{
    if entries.len() > 0 {
        assert(entries.first() == entries[0]);
        assert(forall|i: int|
            0 <= i < entries.drop_first().len() ==> (#[trigger] entries.drop_first()[i])
                == entries[i + 1]);
        lemma_lookup_in_range(entries.drop_first(), label, n);
    }
}

/// An exact copy of a string.
pub fn clone_string(s: &String) -> (r: String)
    ensures
        r@ == s@,
{
    String::from_str(s.as_str())
}


/// One entry of a supplied localization table.
pub struct LocalEntry {
    pub kind: ElementKind,
    pub lang: Lang,
    pub name: String,
}

/// The first table entry for a kind and language, if any.
pub open spec fn spec_localized(table: Seq<LocalEntry>, kind: ElementKind, lang: Lang) -> Option<
    Seq<char>,
>
    decreases table.len(),
{
    if table.len() == 0 {
        Option::None
    } else if table.first().kind == kind && table.first().lang == lang {
        Option::Some(table.first().name@)
    } else {
        spec_localized(table.drop_first(), kind, lang)
    }
}

/// The display name of a kind in a language: the supplied table's entry,
/// or the built-in names of `LocalName` when the table has none.
pub open spec fn display_name_spec(table: Seq<LocalEntry>, kind: ElementKind, lang: Lang) -> Seq<
    char,
> {
    match spec_localized(table, kind, lang) {
        Option::Some(name) => name,
        Option::None => local_name_spec(kind, lang),
    }
}

/// Looks a display name up in a supplied localization table; the built-in
/// names of `LocalName` are the fallback when the table has no entry.
#[verifier::loop_isolation(false)]
pub fn localized_name(table: &Vec<LocalEntry>, kind: ElementKind, lang: Lang) -> (r: String)
    ensures
        r@ == display_name_spec(table@, kind, lang),
{
    let ghost whole = table@;
    let mut i: usize = 0;
    proof {
        assert(whole.skip(0) =~= whole);
    }
    while i < table.len()
        invariant
            i <= whole.len(),
            spec_localized(whole, kind, lang) == spec_localized(whole.skip(i as int), kind, lang),
        decreases whole.len() - i,
    {
        proof {
            assert(whole.skip(i as int).first() == whole[i as int]);
            assert(whole.skip(i as int).drop_first() =~= whole.skip(i + 1));
        }
        let e = &table[i];
        if e.kind == kind && e.lang == lang {
            return clone_string(&e.name);
        }
        i += 1;
    }
    String::from_str(kind.local_name(lang))
}

} // verus!
