use crossref_core::bibliography::{cite, find_record, render_bibliography, render_in_text, str_le, unique_keys, BibRecord, BibStyle, Citation};
use crossref_core::counter::{counter_at, counter_display, step, Registry};
use crossref_core::diag::Diagnostic;
use crossref_core::driver::{drive, empty_snapshot, run_pass, snapshots_equal, Instr, Outcome};
use crossref_core::link::{check_uri, resolve_link, LinkTarget, ResolvedLink};
use crossref_core::location::{LocOrder, Location};
use crossref_core::numbering::{display, parse_pattern};
use crossref_core::outline::{build_outline, entry_text};
use crossref_core::reference::{localized_name, resolve, LabelRegistry, Lang, LocalEntry, LocalName};
use crossref_core::state::{record, value_at, value_final, Entry, Update};
use crossref_core::structural::{ElementKind, StructuralNode};

fn loc(path: Vec<u32>) -> Location {
    Location { path, disambiguator: 0 }
}

fn pattern(src: &[u8]) -> crossref_core::numbering::Pattern {
    parse_pattern(&src.to_vec()).unwrap()
}

#[test]
fn location_order_is_lexicographic() {
    let a = loc(vec![1, 2]);
    let b = loc(vec![1, 3]);
    let c = loc(vec![1, 2, 1]);
    assert!(a.is_before(&b));
    assert!(a.is_before(&c));
    assert!(c.is_before(&b));
    assert!(matches!(a.compare(&loc(vec![1, 2])), LocOrder::Same));
    assert!(matches!(b.compare(&a), LocOrder::After));
    let d = Location { path: vec![1, 2], disambiguator: 1 };
    assert!(a.is_before(&d));
}

#[test]
fn counter_query_reflects_only_earlier_steps() {
    // The monotonic prefix property on concrete values: a query at `a`
    // sees exactly the steps with location at or before `a`.
    let entries = vec![
        Entry { loc: loc(vec![1]), update: Update::Step { level: 0, amount: 1 } },
        Entry { loc: loc(vec![3]), update: Update::Step { level: 0, amount: 1 } },
    ];
    assert_eq!(value_at(&entries, &loc(vec![0])), vec![0]);
    assert_eq!(value_at(&entries, &loc(vec![2])), vec![1]);
    assert_eq!(value_at(&entries, &loc(vec![3])), vec![2]);
    assert_eq!(value_final(&entries), vec![2]);
}

#[test]
fn untouched_counter_reads_all_zero() {
    let entries: Vec<Entry> = Vec::new();
    assert_eq!(value_at(&entries, &loc(vec![9])), vec![0]);
}

#[test]
fn step_zeroes_deeper_components() {
    let entries = vec![
        Entry { loc: loc(vec![1]), update: Update::Step { level: 1, amount: 2 } },
        Entry { loc: loc(vec![2]), update: Update::Step { level: 0, amount: 1 } },
    ];
    assert_eq!(value_at(&entries, &loc(vec![1])), vec![0, 2]);
    assert_eq!(value_at(&entries, &loc(vec![2])), vec![1, 0]);
}

#[test]
fn assign_update_replaces_value() {
    let entries = vec![
        Entry { loc: loc(vec![1]), update: Update::Assign(vec![4, 5]) },
        Entry { loc: loc(vec![2]), update: Update::Step { level: 0, amount: 1 } },
    ];
    assert_eq!(value_final(&entries), vec![5, 0]);
}

#[test]
fn reset_rule_zeroes_target_counter() {
    // Stepping A's first component twice, then reading B, yields B = [0].
    let mut registry = Registry::new();
    let a = registry.register(String::from("alpha"));
    let b = registry.register(String::from("beta"));
    registry.add_reset_rule(a, b);
    let mut logs: Vec<Vec<Entry>> = vec![Vec::new(), Vec::new()];
    step(&registry, &mut logs, a, &loc(vec![1]), 0, 1);
    step(&registry, &mut logs, a, &loc(vec![2]), 0, 1);
    assert_eq!(counter_at(&logs, b, &loc(vec![9])), vec![0]);
    assert_eq!(counter_at(&logs, a, &loc(vec![9])), vec![2]);
}

#[test]
fn reset_rule_clears_stepped_target() {
    let mut registry = Registry::new();
    let a = registry.register(String::from("chapter"));
    let b = registry.register(String::from("section"));
    registry.add_reset_rule(a, b);
    let mut logs: Vec<Vec<Entry>> = vec![Vec::new(), Vec::new()];
    step(&registry, &mut logs, b, &loc(vec![1]), 0, 1);
    assert_eq!(counter_at(&logs, b, &loc(vec![1])), vec![1]);
    step(&registry, &mut logs, a, &loc(vec![2]), 0, 1);
    assert_eq!(counter_at(&logs, b, &loc(vec![9])), vec![0]);
}

#[test]
fn display_two_arabic_components() {
    let p = pattern(b"1.1");
    assert_eq!(display(&p, &vec![1, 2]), "1.2");
}

#[test]
fn display_roman_upper() {
    let p = pattern(b"I");
    assert_eq!(display(&p, &vec![1]), "I");
    assert_eq!(display(&p, &vec![1990]), "MCMXC");
    assert_eq!(display(&p, &vec![4]), "IV");
}

#[test]
fn display_cycles_last_placeholder() {
    // One letter placeholder with a dot suffix, applied to three
    // components: the piece cycles, so every component renders as a letter
    // followed by the dot.
    let p = pattern(b"A.");
    assert_eq!(display(&p, &vec![3, 1, 4]), "C.A.D.");
}

#[test]
fn display_letters_are_bijective() {
    let p = pattern(b"a");
    assert_eq!(display(&p, &vec![1]), "a");
    assert_eq!(display(&p, &vec![26]), "z");
    assert_eq!(display(&p, &vec![27]), "aa");
}

#[test]
fn display_symbol_cycle_doubles() {
    let p = pattern(b"*");
    assert_eq!(display(&p, &vec![1]), "*");
    assert_eq!(display(&p, &vec![2]), "+");
    assert_eq!(display(&p, &vec![5]), "**");
}

#[test]
fn display_prefix_and_suffix_literals() {
    let p = pattern(b"<1-a>");
    assert_eq!(display(&p, &vec![2, 3]), "<2-c>");
}

#[test]
fn pattern_without_placeholder_is_malformed() {
    assert!(matches!(
        parse_pattern(&b"..".to_vec()),
        Err(Diagnostic::MalformedNumberingPattern)
    ));
    assert!(matches!(
        parse_pattern(&Vec::new()),
        Err(Diagnostic::MalformedNumberingPattern)
    ));
    assert!(matches!(
        parse_pattern(&vec![b'1', 200]),
        Err(Diagnostic::MalformedNumberingPattern)
    ));
}

fn heading(level: u16, title: &str, label: Option<&str>, at: Vec<u32>) -> StructuralNode {
    StructuralNode {
        kind: ElementKind::Heading,
        level,
        label: label.map(String::from),
        pattern: pattern(b"1.1"),
        title: String::from(title),
        counter: 0,
        loc: loc(at),
    }
}

#[test]
fn outline_nests_by_level() {
    let nodes = vec![
        heading(1, "one", None, vec![1]),
        heading(2, "one.one", None, vec![2]),
        heading(2, "one.two", None, vec![3]),
        heading(1, "two", None, vec![4]),
    ];
    let tree = build_outline(&nodes);
    assert_eq!(tree[0].parent, None);
    assert_eq!(tree[1].parent, Some(0));
    assert_eq!(tree[2].parent, Some(0));
    assert_eq!(tree[3].parent, None);
}

#[test]
fn outline_skip_level_attaches_to_shallower_ancestor() {
    // A depth-one heading directly followed by a depth-three heading: the
    // deep node becomes a child of the shallow one, not an error.
    let nodes = vec![heading(1, "one", None, vec![1]), heading(3, "deep", None, vec![2])];
    let tree = build_outline(&nodes);
    assert_eq!(tree[0].parent, None);
    assert_eq!(tree[1].parent, Some(0));
}

#[test]
fn duplicate_label_keeps_first_declaration() {
    let mut registry = LabelRegistry::new();
    assert!(registry.declare_label(String::from("intro"), 0).is_none());
    let diag = registry.declare_label(String::from("intro"), 1);
    assert!(matches!(diag, Some(Diagnostic::DuplicateLabel(l)) if l == "intro"));
    assert_eq!(registry.lookup(&String::from("intro")), Some(0));
}

#[test]
fn resolve_builds_localized_supplement() {
    let mut registry = LabelRegistry::new();
    let _ = registry.declare_label(String::from("sec:intro"), 0);
    let mut nodes = vec![heading(1, "Intro", Some("sec:intro"), vec![2])];
    nodes[0].pattern = pattern(b"1");
    let mut logs: Vec<Vec<Entry>> = vec![Vec::new()];
    logs[0].push(Entry { loc: loc(vec![1]), update: Update::Step { level: 0, amount: 1 } });
    let table: Vec<LocalEntry> = Vec::new();
    let text = resolve(&registry, &nodes, &logs, &table, &String::from("sec:intro"), Lang::english());
    assert_eq!(text.unwrap(), "Section 1");
    let text = resolve(&registry, &nodes, &logs, &table, &String::from("sec:intro"), Lang::german());
    assert_eq!(text.unwrap(), "Abschnitt 1");
    let missing = resolve(&registry, &nodes, &logs, &table, &String::from("nowhere"), Lang::english());
    assert!(matches!(missing, Err(Diagnostic::UndefinedLabel(l)) if l == "nowhere"));
    let table = vec![LocalEntry {
        kind: ElementKind::Heading,
        lang: Lang(101, 110),
        name: String::from("Chapter"),
    }];
    let text = resolve(&registry, &nodes, &logs, &table, &String::from("sec:intro"), Lang::english());
    assert_eq!(text.unwrap(), "Chapter 1");
}

#[test]
fn local_names_fall_back_to_english() {
    assert_eq!(ElementKind::Figure.local_name(Lang::english()), "Figure");
    assert_eq!(ElementKind::Figure.local_name(Lang::german()), "Abbildung");
    assert_eq!(ElementKind::Heading.local_name(Lang(120, 120)), "Section");
}

#[test]
fn counter_display_formats_query() {
    let mut registry = Registry::new();
    let c = registry.register(String::from("figure"));
    let mut logs: Vec<Vec<Entry>> = vec![Vec::new()];
    step(&registry, &mut logs, c, &loc(vec![1]), 0, 1);
    step(&registry, &mut logs, c, &loc(vec![2]), 0, 1);
    let p = pattern(b"1");
    assert_eq!(counter_display(&logs, c, &loc(vec![2]), &p), "2");
    assert_eq!(counter_display(&logs, c, &loc(vec![1]), &p), "1");
}

#[test]
fn internal_link_resolves_against_registrations() {
    let nodes = vec![heading(1, "one", None, vec![4])];
    let (ok, diag) = resolve_link(LinkTarget::Internal(loc(vec![4])), &nodes);
    assert!(matches!(ok, ResolvedLink::Position(_)));
    assert!(diag.is_none());
    let (bad, diag) = resolve_link(LinkTarget::Internal(loc(vec![5])), &nodes);
    assert!(matches!(bad, ResolvedLink::Placeholder));
    assert!(matches!(diag, Some(Diagnostic::UnresolvedLink)));
}

#[test]
fn external_link_requires_scheme() {
    let nodes: Vec<StructuralNode> = Vec::new();
    assert!(check_uri(&String::from("https://example.org")));
    assert!(!check_uri(&String::from("example.org/page")));
    assert!(!check_uri(&String::from("")));
    assert!(!check_uri(&String::from(":nothing")));
    let (ok, diag) = resolve_link(LinkTarget::External(String::from("mailto:a@b")), &nodes);
    assert!(matches!(ok, ResolvedLink::Url(u) if u == "mailto:a@b"));
    assert!(diag.is_none());
    let (bad, diag) = resolve_link(LinkTarget::External(String::from("no scheme")), &nodes);
    assert!(matches!(bad, ResolvedLink::Placeholder));
    assert!(matches!(diag, Some(Diagnostic::MalformedLink(m)) if m == "no scheme"));
}

fn records() -> Vec<BibRecord> {
    vec![
        BibRecord {
            key: String::from("knuth84"),
            author: String::from("Knuth"),
            year: 1984,
            title: String::from("Literate Programming"),
        },
        BibRecord {
            key: String::from("lamport94"),
            author: String::from("Lamport"),
            year: 1994,
            title: String::from("LaTeX"),
        },
    ]
}

#[test]
fn citations_group_by_first_appearance() {
    let mut log: Vec<Citation> = Vec::new();
    cite(&mut log, String::from("lamport94"), loc(vec![1]), None);
    cite(&mut log, String::from("knuth84"), loc(vec![2]), Some(String::from("p. 3")));
    cite(&mut log, String::from("lamport94"), loc(vec![3]), None);
    let order = unique_keys(&log);
    assert_eq!(order, vec![String::from("lamport94"), String::from("knuth84")]);
}

#[test]
fn numeric_citation_uses_appearance_position() {
    let recs = records();
    let order = vec![String::from("lamport94"), String::from("knuth84")];
    let c = Citation { key: String::from("knuth84"), loc: loc(vec![2]), locator: None };
    let (text, diag) = render_in_text(&recs, &order, BibStyle::Numeric, &c);
    assert_eq!(text, "[2]");
    assert!(diag.is_none());
}

#[test]
fn author_date_citation_renders_label() {
    let recs = records();
    let order = vec![String::from("knuth84")];
    let c = Citation { key: String::from("knuth84"), loc: loc(vec![2]), locator: None };
    let (text, diag) = render_in_text(&recs, &order, BibStyle::AuthorDate, &c);
    assert_eq!(text, "(Knuth, 1984)");
    assert!(diag.is_none());
}

#[test]
fn unknown_citation_key_renders_placeholder() {
    // The unknown key yields a placeholder and a diagnostic; the rest of
    // the log still renders.
    let recs = records();
    let mut log: Vec<Citation> = Vec::new();
    cite(&mut log, String::from("missing00"), loc(vec![1]), None);
    cite(&mut log, String::from("knuth84"), loc(vec![2]), None);
    let order = unique_keys(&log);
    let (text, diag) = render_in_text(&recs, &order, BibStyle::Numeric, &log[0]);
    assert_eq!(text, "[?]");
    assert!(matches!(diag, Some(Diagnostic::CitationKeyNotFound(k)) if k == "missing00"));
    let (text, diag) = render_in_text(&recs, &order, BibStyle::Numeric, &log[1]);
    assert_eq!(text, "[2]");
    assert!(diag.is_none());
    assert!(find_record(&recs, &String::from("missing00")).is_none());
}

#[test]
fn pure_document_stabilizes_in_two_passes() {
    // A document whose queries feed nothing back: one pass to discover,
    // one to confirm.
    let mut registry = Registry::new();
    let c = registry.register(String::from("heading"));
    let doc = vec![
        Instr::Register { node: heading(1, "One", None, vec![1]) },
        Instr::StepCounter { counter: c, loc: loc(vec![2]), level: 1, amount: 1 },
        Instr::Cite { key: String::from("knuth84"), loc: loc(vec![3]), locator: None },
    ];
    match drive(&registry, &doc, 5) {
        Outcome::Stable { snapshot, passes } => {
            assert_eq!(passes, 2);
            assert_eq!(snapshot.nodes.len(), 1);
            assert_eq!(snapshot.cites.len(), 1);
            assert_eq!(counter_at(&snapshot.logs, c, &loc(vec![9])), vec![0, 2]);
        }
        Outcome::Diverged { .. } => panic!("expected a stable outcome"),
    }
}

#[test]
fn mutually_reading_counters_diverge() {
    // Two counters each stepping by one more than the other's value at the
    // same location: every pass grows both, so the budget runs out and the
    // report names both counters.
    let mut registry = Registry::new();
    let a = registry.register(String::from("alpha"));
    let b = registry.register(String::from("beta"));
    let doc = vec![
        Instr::StepByOther { counter: a, loc: loc(vec![1]), level: 0, other: b },
        Instr::StepByOther { counter: b, loc: loc(vec![1]), level: 0, other: a },
    ];
    match drive(&registry, &doc, 5) {
        Outcome::Stable { .. } => panic!("expected divergence"),
        Outcome::Diverged { changed } => {
            assert_eq!(changed, vec![String::from("alpha"), String::from("beta")]);
        }
    }
}

#[test]
fn passes_compare_structurally() {
    let mut registry = Registry::new();
    let c = registry.register(String::from("x"));
    let doc = vec![Instr::SetState { state: c, loc: loc(vec![1]), value: vec![7] }];
    let empty = empty_snapshot(&registry);
    let first = run_pass(&registry, &doc, &empty);
    let second = run_pass(&registry, &doc, &first);
    assert!(!snapshots_equal(&first, &empty));
    assert!(snapshots_equal(&first, &second));
    assert_eq!(counter_at(&first.logs, c, &loc(vec![1])), vec![7]);
}

#[test]
fn bibliography_list_in_appearance_order() {
    let recs = records();
    let mut log: Vec<Citation> = Vec::new();
    cite(&mut log, String::from("lamport94"), loc(vec![1]), None);
    cite(&mut log, String::from("knuth84"), loc(vec![2]), None);
    cite(&mut log, String::from("lamport94"), loc(vec![3]), None);
    let (entries, diags) = render_bibliography(&recs, &log, BibStyle::Numeric);
    assert_eq!(
        entries,
        vec![
            String::from("Lamport, LaTeX (1994)."),
            String::from("Knuth, Literate Programming (1984).")
        ]
    );
    assert!(diags.is_empty());
}

#[test]
fn bibliography_list_author_date_is_sorted() {
    let recs = records();
    let mut log: Vec<Citation> = Vec::new();
    cite(&mut log, String::from("lamport94"), loc(vec![1]), None);
    cite(&mut log, String::from("knuth84"), loc(vec![2]), None);
    let (entries, diags) = render_bibliography(&recs, &log, BibStyle::AuthorDate);
    assert_eq!(
        entries,
        vec![
            String::from("Knuth, Literate Programming (1984)."),
            String::from("Lamport, LaTeX (1994).")
        ]
    );
    assert!(diags.is_empty());
}

#[test]
fn bibliography_list_keeps_going_past_unknown_keys() {
    let recs = records();
    let mut log: Vec<Citation> = Vec::new();
    cite(&mut log, String::from("missing00"), loc(vec![1]), None);
    cite(&mut log, String::from("knuth84"), loc(vec![2]), None);
    let (entries, diags) = render_bibliography(&recs, &log, BibStyle::Numeric);
    assert_eq!(
        entries,
        vec![
            String::from("[?] missing00"),
            String::from("Knuth, Literate Programming (1984).")
        ]
    );
    assert_eq!(diags.len(), 1);
    assert!(matches!(&diags[0], Diagnostic::CitationKeyNotFound(k) if k == "missing00"));
}

#[test]
fn string_order_is_lexicographic() {
    assert!(str_le(&String::from("abc"), &String::from("abd")));
    assert!(str_le(&String::from("ab"), &String::from("abc")));
    assert!(!str_le(&String::from("b"), &String::from("abc")));
    assert!(str_le(&String::from("same"), &String::from("same")));
}

#[test]
fn author_date_list_orders_same_author_by_year() {
    // Two works by one author: the list sorts by the in-text label
    // "(author, year)", so the earlier year comes first even though the
    // titles would order the other way.
    let recs = vec![
        BibRecord {
            key: String::from("knuth84"),
            author: String::from("Knuth"),
            year: 1984,
            title: String::from("Literate Programming"),
        },
        BibRecord {
            key: String::from("knuth68"),
            author: String::from("Knuth"),
            year: 1968,
            title: String::from("The Art of Computer Programming"),
        },
    ];
    let mut log: Vec<Citation> = Vec::new();
    cite(&mut log, String::from("knuth84"), loc(vec![1]), None);
    cite(&mut log, String::from("knuth68"), loc(vec![2]), None);
    let (entries, diags) = render_bibliography(&recs, &log, BibStyle::AuthorDate);
    assert_eq!(
        entries,
        vec![
            String::from("Knuth, The Art of Computer Programming (1968)."),
            String::from("Knuth, Literate Programming (1984).")
        ]
    );
    assert!(diags.is_empty());
}

#[test]
fn scheme_accepts_the_uri_alphabet() {
    assert!(check_uri(&String::from("web+app:payload")));
    assert!(check_uri(&String::from("x-scheme.v2:thing")));
    assert!(!check_uri(&String::from("1ab:thing")));
    assert!(!check_uri(&String::from("+ab:thing")));
    assert!(!check_uri(&String::from("we b:thing")));
}

#[test]
fn set_and_record_extend_the_log() {
    let mut log: Vec<Entry> = Vec::new();
    crossref_core::state::set(&mut log, &loc(vec![1]), vec![3]);
    record(&mut log, &loc(vec![2]), Update::Step { level: 0, amount: 2 });
    assert_eq!(value_final(&log), vec![5]);
    record(&mut log, &loc(vec![3]), Update::Reset { level: 0 });
    assert_eq!(value_final(&log), vec![0]);
}

#[test]
fn outline_entry_text_joins_number_and_title() {
    let mut node = heading(1, "Introduction", None, vec![2]);
    node.pattern = pattern(b"1");
    let mut log: Vec<Entry> = Vec::new();
    record(&mut log, &loc(vec![1]), Update::Step { level: 0, amount: 1 });
    assert_eq!(entry_text(&node, &log), "1 Introduction");
}

#[test]
fn localization_table_overrides_builtin_names() {
    let table = vec![LocalEntry {
        kind: ElementKind::Figure,
        lang: Lang(102, 114),
        name: String::from("Illustration"),
    }];
    assert_eq!(
        localized_name(&table, ElementKind::Figure, Lang(102, 114)),
        "Illustration"
    );
    assert_eq!(
        localized_name(&table, ElementKind::Figure, Lang::english()),
        "Figure"
    );
    assert_eq!(
        localized_name(&table, ElementKind::Heading, Lang(102, 114)),
        "Section"
    );
}
