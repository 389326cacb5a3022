//! Citations and the rendered reference list.
//!
//! The bibliography consumes an already-parsed record set, keyed by citation
//! identifier.  Citing appends to a citation log; the log's order within a
//! stabilized pass is citation order.  Rendering groups citations by key:
//! under the numeric style both the in-text mark and the list follow
//! appearance order (first citation of each key); under the author-date
//! style the in-text mark is "(author, year)" and the list is sorted by that
//! rendered label.  A key the record set does not hold renders as a visible
//! placeholder with a non-fatal diagnostic, and never blocks the rest.

use vstd::prelude::*;
use crate::diag::Diagnostic;
use crate::location::Location;
use crate::numbering::{ascii_chars, dec_bytes, render_dec, string_from_ascii};
use crate::reference::clone_string;

verus! {

/// One bibliographic record, supplied by the external record source.
pub struct BibRecord {
    pub key: String,
    pub author: String,
    pub year: u64,
    pub title: String,
}

/// One use of a citation key at a point in the document.
pub struct Citation {
    pub key: String,
    pub loc: Location,
    /// A page or section locator, if the author gave one.
    pub locator: Option<String>,
}

/// How citations and the reference list are rendered.
#[derive(Clone, Copy, PartialEq, Eq, Structural)]
pub enum BibStyle {
    /// "(author, year)" marks; the list sorted by rendered label.
    AuthorDate,
    /// "[n]" marks by appearance order; the list in appearance order.
    Numeric,
}

/// Records a citation: appends it to the citation log.
pub fn cite(log: &mut Vec<Citation>, key: String, loc: Location, locator: Option<String>)
    ensures
        final(log)@.len() == old(log)@.len() + 1,
        final(log)@ == old(log)@.push(Citation { key, loc, locator }),
{
    log.push(Citation { key, loc, locator });
}

/// The keys of a record set.
pub open spec fn record_keys(records: Seq<BibRecord>) -> Seq<Seq<char>> {
    records.map_values(|r: BibRecord| r.key@)
}

/// The text of each string in a sequence.
pub open spec fn strings_model(s: Seq<String>) -> Seq<Seq<char>> {
    s.map_values(|x: String| x@)
}

/// The first record with the given key, if any.
pub open spec fn spec_find_record(records: Seq<BibRecord>, key: Seq<char>) -> Option<int>
    decreases records.len(),
{
    if records.len() == 0 {
        Option::None
    } else if records.first().key@ == key {
        Option::Some(0int)
    } else {
        match spec_find_record(records.drop_first(), key) {
            Option::Some(i) => Option::Some(i + 1),
            Option::None => Option::None,
        }
    }
}

/// Finds the record a key refers to.
#[verifier::loop_isolation(false)]
pub fn find_record<'a>(records: &'a Vec<BibRecord>, key: &String) -> (r: Option<&'a BibRecord>)
    ensures
        match spec_find_record(records@, key@) {
            Option::Some(i) => r matches Option::Some(rec) && *rec == records@[i],
            Option::None => r is None,
        },
{
    let ghost whole = records@;
    let mut i: usize = 0;
    proof {
        lemma_find_record_in_range(records@, key@);
    }
    while i < records.len()
        invariant
            i <= records@.len(),
            spec_find_record(records@, key@) matches Option::Some(j) ==> i <= j,
            forall|j: int| 0 <= j < i ==> (#[trigger] records@[j]).key@ != key@,
        decreases records@.len() - i,
    {
        proof {
            lemma_find_record_step(records@, key@, i as int);
        }
        if records[i].key == *key {
            proof {
                lemma_find_record_hit(records@, key@, i as int);
            }
            return Option::Some(&records[i]);
        }
        i += 1;
    }
    proof {
        if spec_find_record(records@, key@) is Some {
            let j = spec_find_record(records@, key@).unwrap();
            lemma_find_record_in_range(records@, key@);
        }
    }
    Option::None
}

/// A found index lies in range and carries the key.
proof fn lemma_find_record_in_range(records: Seq<BibRecord>, key: Seq<char>)
    ensures
        spec_find_record(records, key) matches Option::Some(i) ==> 0 <= i < records.len()
            && records[i].key@ == key,
    decreases records.len(),
{
    if records.len() > 0 {
        assert(records.first() == records[0]);
        lemma_find_record_in_range(records.drop_first(), key);
        assert(forall|j: int|
            0 <= j < records.drop_first().len() ==> (#[trigger] records.drop_first()[j])
                == records[j + 1]);
    }
}

/// If the first `i` records miss the key, the search result is at or past
/// `i`; if record `i` carries the key, the result is exactly `i`.
proof fn lemma_find_record_step(records: Seq<BibRecord>, key: Seq<char>, i: int)
    requires
        0 <= i < records.len(),
        forall|j: int| 0 <= j < i ==> (#[trigger] records[j]).key@ != key,
    ensures
        records[i].key@ == key ==> spec_find_record(records, key) == Option::Some(i),
        records[i].key@ != key ==> (spec_find_record(records, key) matches Option::Some(j) ==> j
            > i),
    decreases i,
{
    if records.len() > 0 {
        assert(records.first() == records[0]);
        lemma_find_record_in_range(records.drop_first(), key);
        assert(forall|j: int|
            0 <= j < records.drop_first().len() ==> (#[trigger] records.drop_first()[j])
                == records[j + 1]);
        if i > 0 {
            assert(forall|j: int|
                0 <= j < records.drop_first().len() ==> (#[trigger] records.drop_first()[j])
                    == records[j + 1]);
            lemma_find_record_step(records.drop_first(), key, i - 1);
        }
    }
}

proof fn lemma_find_record_hit(records: Seq<BibRecord>, key: Seq<char>, i: int)
    requires
        0 <= i < records.len(),
        forall|j: int| 0 <= j < i ==> (#[trigger] records[j]).key@ != key,
        records[i].key@ == key,
    ensures
        spec_find_record(records, key) == Option::Some(i),
{
    lemma_find_record_step(records, key, i);
}

/// The cited keys in appearance order, first citation of each key.
pub open spec fn appearance_order(cites: Seq<Citation>) -> Seq<Seq<char>>
    decreases cites.len(),
{
    if cites.len() == 0 {
        Seq::empty()
    } else {
        let done = appearance_order(cites.drop_last());
        if done.contains(cites.last().key@) {
            done
        } else {
            done.push(cites.last().key@)
        }
    }
}

/// Collects the cited keys in appearance order, one entry per key.
#[verifier::loop_isolation(false)]
pub fn unique_keys(cites: &Vec<Citation>) -> (r: Vec<String>)
    ensures
        strings_model(r@) == appearance_order(cites@),
{
    let mut r: Vec<String> = Vec::new();
    let mut i: usize = 0;
    proof {
        assert(strings_model(r@) =~= appearance_order(cites@.subrange(0, 0)));
    }
    while i < cites.len()
        invariant
            i <= cites@.len(),
            strings_model(r@) == appearance_order(cites@.subrange(0, i as int)),
        decreases cites@.len() - i,
    {
        let key = &cites[i].key;
        let mut seen = false;
        let mut j: usize = 0;
        while j < r.len()
            invariant
                j <= r@.len(),
                seen == exists|k: int| 0 <= k < j && (#[trigger] r@[k])@ == key@,
            decreases r@.len() - j,
        {
            if r[j] == *key {
                seen = true;
                proof {
                    assert(r@[j as int]@ == key@);
                }
                break;
            }
            proof {
                assert(forall|k: int|
                    0 <= k < j + 1 ==> (#[trigger] r@[k])@ == key@ ==> k < j && r@[k]@ == key@
                        || k == j);
            }
            j += 1;
        }
        proof {
            let m = strings_model(r@);
            assert(seen == m.contains(key@)) by {
                if seen {
                    assert(exists|k: int| 0 <= k < r@.len() && (#[trigger] r@[k])@ == key@);
                    let k = choose|k: int| 0 <= k < r@.len() && (#[trigger] r@[k])@ == key@;
                    assert(m[k] == key@);
                }
                if m.contains(key@) {
                    let k = choose|k: int| 0 <= k < m.len() && m[k] == key@;
                    assert(r@[k]@ == key@);
                }
            }
        }
        if !seen {
            r.push(clone_string(key));
        }
        proof {
            let pre = cites@.subrange(0, i as int);
            let post = cites@.subrange(0, i + 1);
            assert(post.drop_last() =~= pre);
            assert(post.last() == cites@[i as int]);
            assert(strings_model(r@) =~= appearance_order(post));
        }
        i += 1;
    }
    proof {
        assert(cites@.subrange(0, cites@.len() as int) =~= cites@);
    }
    r
}

/// The position of a key in an order.
pub open spec fn spec_index_of(order: Seq<Seq<char>>, key: Seq<char>) -> Option<int>
    decreases order.len(),
{
    if order.len() == 0 {
        Option::None
    } else if order.first() == key {
        Option::Some(0int)
    } else {
        match spec_index_of(order.drop_first(), key) {
            Option::Some(i) => Option::Some(i + 1),
            Option::None => Option::None,
        }
    }
}

/// The in-text mark of one citation.  An unknown key renders as the visible
/// placeholder with a key-not-found diagnostic; a known key renders as
/// "[n]" under the numeric style, with n its one-based position in
/// appearance order, and as "(author, year)" under the author-date style.
pub open spec fn spec_in_text(
    records: Seq<BibRecord>,
    order: Seq<Seq<char>>,
    style: BibStyle,
    key: Seq<char>,
) -> Seq<char> {
    match spec_find_record(records, key) {
        Option::None => "[?]"@,
        Option::Some(i) => match style {
            BibStyle::Numeric => match spec_index_of(order, key) {
                Option::Some(j) => ascii_chars(
                    seq![91u8] + dec_bytes((j + 1) as nat) + seq![93u8],
                ),
                Option::None => "[?]"@,
            },
            BibStyle::AuthorDate => "("@ + records[i].author@ + ", "@ + ascii_chars(
                dec_bytes(records[i].year as nat),
            ) + ")"@,
        },
    }
}

/// Renders the in-text mark of one cited key, with its diagnostic if the
/// key is unknown.
#[verifier::loop_isolation(false)]
pub fn render_key_mark(
    records: &Vec<BibRecord>,
    order: &Vec<String>,
    style: BibStyle,
    key: &String,
) -> (r: (String, Option<Diagnostic>))
    requires
        style is Numeric ==> order@.len() < u64::MAX,
    ensures
        r.0@ == spec_in_text(
            records@,
            strings_model(order@),
            style,
            key@,
        ),
        spec_find_record(records@, key@) is None <==> (r.1 matches Option::Some(d)
            && (d matches Diagnostic::CitationKeyNotFound(k) && k@ == key@)),
        spec_find_record(records@, key@) is Some ==> r.1 is None,
{
    match find_record(records, key) {
        Option::None => {
            proof {
                reveal_strlit("[?]");
            }
            (String::from_str("[?]"), Option::Some(
                Diagnostic::CitationKeyNotFound(clone_string(key)),
            ))
        },
        Option::Some(rec) => {
            match style {
                BibStyle::Numeric => {
                    let pos = index_of_key(order, key);
                    match pos {
                        Option::Some(j) => {
                            let mut bytes: Vec<u8> = Vec::new();
                            bytes.push(91);
                            let mut digits = render_dec((j as u64) + 1);
                            bytes.append(&mut digits);
                            bytes.push(93);
                            proof {
                                assert(bytes@ =~= seq![91u8] + dec_bytes((j + 1) as nat)
                                    + seq![93u8]);
                            }
                            proof {
                                vstd::std_specs::vec::axiom_spec_len(order);
                                assert(spec_index_of(strings_model(order@), key@)
                                    == Option::Some(j as int));
                            }
                            (string_from_ascii(bytes), Option::None)
                        },
                        Option::None => {
                            proof {
                                reveal_strlit("[?]");
                            }
                            (String::from_str("[?]"), Option::None)
                        },
                    }
                },
                BibStyle::AuthorDate => {
                    let mut text = String::from_str("(");
                    text.append(rec.author.as_str());
                    text.append(", ");
                    let year = string_from_ascii(render_dec(rec.year));
                    text.append(year.as_str());
                    text.append(")");
                    proof {
                        assert(text@ =~= "("@ + rec.author@ + ", "@ + ascii_chars(
                            dec_bytes(rec.year as nat),
                        ) + ")"@);
                    }
                    (text, Option::None)
                },
            }
        },
    }
}

/// Renders the in-text mark of one citation, with its diagnostic if the
/// key is unknown.
pub fn render_in_text(
    records: &Vec<BibRecord>,
    order: &Vec<String>,
    style: BibStyle,
    citation: &Citation,
) -> (r: (String, Option<Diagnostic>))
    requires
        style is Numeric ==> order@.len() < u64::MAX,
    ensures
        r.0@ == spec_in_text(
            records@,
            strings_model(order@),
            style,
            citation.key@,
        ),
        spec_find_record(records@, citation.key@) is None <==> (r.1 matches Option::Some(d)
            && (d matches Diagnostic::CitationKeyNotFound(k) && k@ == citation.key@)),
        spec_find_record(records@, citation.key@) is Some ==> r.1 is None,
{
    render_key_mark(records, order, style, &citation.key)
}

/// Finds a key's position in an order.
#[verifier::loop_isolation(false)]
pub fn index_of_key(order: &Vec<String>, key: &String) -> (r: Option<usize>)
    ensures
        match spec_index_of(strings_model(order@), key@) {
            Option::Some(i) => r == Option::Some(i as usize) && 0 <= i < order@.len(),
            Option::None => r is None,
        },
{
    let ghost m = strings_model(order@);
    let mut i: usize = 0;
    while i < order.len()
        invariant
            i <= order@.len(),
            forall|j: int| 0 <= j < i ==> m[j] != key@,
        decreases order@.len() - i,
    {
        if order[i] == *key {
            proof {
                lemma_index_of_found(m, key@, i as int);
            }
            return Option::Some(i);
        }
        i += 1;
    }
    proof {
        lemma_index_of_missing(m, key@);
    }
    Option::None
}

proof fn lemma_index_of_found(order: Seq<Seq<char>>, key: Seq<char>, i: int)
    requires
        0 <= i < order.len(),
        forall|j: int| 0 <= j < i ==> order[j] != key,
        order[i] == key,
    ensures
        spec_index_of(order, key) == Option::Some(i),
    decreases i,
{
    assert(order.first() == order[0]);
    if i > 0 {
        assert(forall|j: int|
            0 <= j < order.drop_first().len() ==> (#[trigger] order.drop_first()[j]) == order[j
                + 1]);
        lemma_index_of_found(order.drop_first(), key, i - 1);
    }
}

proof fn lemma_index_of_missing(order: Seq<Seq<char>>, key: Seq<char>)
    requires
        forall|j: int| 0 <= j < order.len() ==> order[j] != key,
    ensures
        spec_index_of(order, key) is None,
    decreases order.len(),
{
    if order.len() > 0 {
        assert(order.first() == order[0]);
        assert(forall|j: int|
            0 <= j < order.drop_first().len() ==> (#[trigger] order.drop_first()[j]) == order[j
                + 1]);
        lemma_index_of_missing(order.drop_first(), key);
    }
}


/// Lexicographic order on text, by character code.
pub open spec fn chars_le(a: Seq<char>, b: Seq<char>) -> bool
    decreases a.len(),
{
    if a.len() == 0 {
        true
    } else if b.len() == 0 {
        false
    } else if a.first() < b.first() {
        true
    } else if a.first() > b.first() {
        false
    } else {
        chars_le(a.drop_first(), b.drop_first())
    }
}

/// The order is total.
pub proof fn lemma_chars_le_total(a: Seq<char>, b: Seq<char>)
    ensures
        chars_le(a, b) || chars_le(b, a),
    decreases a.len(),
{
    if a.len() > 0 && b.len() > 0 && a.first() == b.first() {
        lemma_chars_le_total(a.drop_first(), b.drop_first());
    }
}

/// The order is transitive.
pub proof fn lemma_chars_le_trans(a: Seq<char>, b: Seq<char>, c: Seq<char>)
    requires
        chars_le(a, b),
        chars_le(b, c),
    ensures
        chars_le(a, c),
    decreases a.len(),
{
    if a.len() > 0 {
        if a.first() == b.first() && b.first() == c.first() {
            lemma_chars_le_trans(a.drop_first(), b.drop_first(), c.drop_first());
        }
    }
}

/// Compares two strings in the lexicographic order.
#[verifier::loop_isolation(false)]
pub fn str_le(a: &String, b: &String) -> (r: bool)
    ensures
        r == chars_le(a@, b@),
{
    let sa = a.as_str();
    let sb = b.as_str();
    let na = sa.unicode_len();
    let nb = sb.unicode_len();
    let mut i: usize = 0;
    proof {
        assert(a@.skip(0) =~= a@);
        assert(b@.skip(0) =~= b@);
    }
    while i < na && i < nb
        invariant
            i <= na,
            i <= nb,
            chars_le(a@, b@) == chars_le(a@.skip(i as int), b@.skip(i as int)),
        decreases na - i,
    {
        let ca = sa.get_char(i);
        let cb = sb.get_char(i);
        if ca < cb {
            return true;
        }
        if ca > cb {
            return false;
        }
        proof {
            assert(a@.skip(i as int).drop_first() =~= a@.skip(i + 1));
            assert(b@.skip(i as int).drop_first() =~= b@.skip(i + 1));
        }
        i += 1;
    }
    i >= na
}


/// The label and entry texts of a (label, entry) pair list.
pub open spec fn pairs_model(s: Seq<(String, String)>) -> Seq<(Seq<char>, Seq<char>)> {
    s.map_values(|p: (String, String)| (p.0@, p.1@))
}

/// The entry texts of a (label, entry) list, in order.
pub open spec fn seconds_of(ps: Seq<(Seq<char>, Seq<char>)>) -> Seq<Seq<char>> {
    ps.map_values(|p: (Seq<char>, Seq<char>)| p.1)
}

/// Sorts (label, entry) pairs into nondecreasing label order.  The result
/// holds exactly the same pairs, as a multiset.
#[verifier::loop_isolation(false)]
fn sort_pairs(v: Vec<(String, String)>) -> (r: Vec<(String, String)>)
    ensures
        pairs_model(r@).to_multiset() == pairs_model(v@).to_multiset(),
        forall|i: int, j: int|
            0 <= i < j < r@.len() ==> chars_le((#[trigger] r@[i]).0@, (#[trigger] r@[j]).0@),
{
    broadcast use vstd::seq_lib::group_to_multiset_ensures;

    let mut rest = v;
    let mut out: Vec<(String, String)> = Vec::new();
    let ghost whole = pairs_model(rest@).to_multiset();
    proof {
        assert(pairs_model(out@).to_multiset().add(pairs_model(rest@).to_multiset()) =~= whole);
    }
    while rest.len() > 0
        invariant
            pairs_model(out@).to_multiset().add(pairs_model(rest@).to_multiset()) == whole,
            forall|i: int, j: int|
                0 <= i < j < out@.len() ==> chars_le(
                    (#[trigger] out@[i]).0@,
                    (#[trigger] out@[j]).0@,
                ),
            forall|i: int, j: int|
                0 <= i < out@.len() && 0 <= j < rest@.len() ==> chars_le(
                    (#[trigger] out@[i]).0@,
                    (#[trigger] rest@[j]).0@,
                ),
        decreases rest@.len(),
    {
        let mut m: usize = 0;
        let mut k: usize = 1;
        proof {
            lemma_chars_le_total(rest@[0].0@, rest@[0].0@);
        }
        while k < rest.len()
            invariant
                m < k <= rest@.len(),
                forall|j: int|
                    0 <= j < k ==> chars_le(rest@[m as int].0@, (#[trigger] rest@[j]).0@),
            decreases rest@.len() - k,
        {
            if str_le(&rest[k].0, &rest[m].0) {
                proof {
                    assert forall|j: int| 0 <= j < k + 1 implies chars_le(
                        rest@[k as int].0@,
                        (#[trigger] rest@[j]).0@,
                    ) by {
                        if j < k {
                            lemma_chars_le_trans(
                                rest@[k as int].0@,
                                rest@[m as int].0@,
                                rest@[j].0@,
                            );
                        } else {
                            lemma_chars_le_total(rest@[k as int].0@, rest@[k as int].0@);
                        }
                    }
                }
                m = k;
            } else {
                proof {
                    lemma_chars_le_total(rest@[m as int].0@, rest@[k as int].0@);
                }
            }
            k += 1;
        }
        let ghost pre_rest = rest@;
        let ghost pre_out = out@;
        let s = rest.remove(m);
        proof {
            assert(pairs_model(rest@) =~= pairs_model(pre_rest).remove(m as int));
            assert(pairs_model(rest@).to_multiset() =~= pairs_model(pre_rest).to_multiset()
                .remove((pre_rest[m as int].0@, pre_rest[m as int].1@)));
        }
        out.push(s);
        proof {
            assert(pairs_model(out@) =~= pairs_model(pre_out).push(
                (pre_rest[m as int].0@, pre_rest[m as int].1@),
            ));
            assert(pairs_model(out@).to_multiset().add(pairs_model(rest@).to_multiset())
                =~= whole);
            assert forall|i: int, j: int|
                0 <= i < out@.len() && 0 <= j < rest@.len() implies chars_le(
                (#[trigger] out@[i]).0@,
                (#[trigger] rest@[j]).0@,
            ) by {
                if i < pre_out.len() {
                    if j < m {
                        assert(rest@[j] == pre_rest[j]);
                    } else {
                        assert(rest@[j] == pre_rest[j + 1]);
                    }
                } else {
                    assert(out@[i].0@ == pre_rest[m as int].0@);
                    if j < m {
                        assert(rest@[j] == pre_rest[j]);
                    } else {
                        assert(rest@[j] == pre_rest[j + 1]);
                    }
                }
            }
        }
    }
    out
}

/// Whether `out` is the entry texts of the cited keys' (label, entry)
/// pairs, reordered into nondecreasing label order.
pub open spec fn label_sorted_entries(
    records: Seq<BibRecord>,
    order: Seq<Seq<char>>,
    out: Seq<Seq<char>>,
) -> bool {
    exists|ps: Seq<(Seq<char>, Seq<char>)>|
        #[trigger] sorted_pairing(ps, spec_pairs(records, order, order), out)
}

/// A pairing witness: `ps` holds exactly the pairs of `pairs`, as a
/// multiset, in nondecreasing label order, and `out` is its entry texts in
/// that order.
pub open spec fn sorted_pairing(
    ps: Seq<(Seq<char>, Seq<char>)>,
    pairs: Seq<(Seq<char>, Seq<char>)>,
    out: Seq<Seq<char>>,
) -> bool {
    &&& ps.to_multiset() == pairs.to_multiset()
    &&& forall|i: int, j: int|
        0 <= i < j < ps.len() ==> chars_le((#[trigger] ps[i]).0, (#[trigger] ps[j]).0)
    &&& out == seconds_of(ps)
}

/// The rendered reference-list entry of one key: for a known record,
/// "author, title (year)."; for an unknown key, the placeholder and the
/// key.
pub open spec fn spec_bib_entry(records: Seq<BibRecord>, key: Seq<char>) -> Seq<char> {
    match spec_find_record(records, key) {
        Option::None => "[?] "@ + key,
        Option::Some(i) => records[i].author@ + ", "@ + records[i].title@ + " ("@ + ascii_chars(
            dec_bytes(records[i].year as nat),
        ) + ")."@,
    }
}

/// Renders one reference-list entry, with its diagnostic if the key is
/// unknown.
pub fn render_entry(records: &Vec<BibRecord>, key: &String) -> (r: (String, Option<Diagnostic>))
    ensures
        r.0@ == spec_bib_entry(records@, key@),
        spec_find_record(records@, key@) is None <==> (r.1 matches Option::Some(d) && (
        d matches Diagnostic::CitationKeyNotFound(k) && k@ == key@)),
{
    match find_record(records, key) {
        Option::None => {
            let mut text = String::from_str("[?] ");
            text.append(key.as_str());
            proof {
                assert(text@ =~= "[?] "@ + key@);
            }
            (text, Option::Some(Diagnostic::CitationKeyNotFound(clone_string(key))))
        },
        Option::Some(rec) => {
            let mut text = clone_string(&rec.author);
            text.append(", ");
            text.append(rec.title.as_str());
            text.append(" (");
            let year = string_from_ascii(render_dec(rec.year));
            text.append(year.as_str());
            text.append(").");
            proof {
                assert(text@ =~= rec.author@ + ", "@ + rec.title@ + " ("@ + ascii_chars(
                    dec_bytes(rec.year as nat),
                ) + ")."@);
            }
            (text, Option::None)
        },
    }
}

/// The entries of the cited keys in appearance order.
pub open spec fn spec_entries(records: Seq<BibRecord>, order: Seq<Seq<char>>) -> Seq<Seq<char>>
    decreases order.len(),
{
    if order.len() == 0 {
        Seq::empty()
    } else {
        spec_entries(records, order.drop_last()).push(spec_bib_entry(records, order.last()))
    }
}

/// The (in-text label, list entry) pair of each cited key, in the given
/// key order, labels under the author-date style.
pub open spec fn spec_pairs(
    records: Seq<BibRecord>,
    order: Seq<Seq<char>>,
    keys: Seq<Seq<char>>,
) -> Seq<(Seq<char>, Seq<char>)>
    decreases keys.len(),
{
    if keys.len() == 0 {
        Seq::empty()
    } else {
        spec_pairs(records, order, keys.drop_last()).push(
            (
                spec_in_text(records, order, BibStyle::AuthorDate, keys.last()),
                spec_bib_entry(records, keys.last()),
            ),
        )
    }
}

/// Renders the reference list for a citation log.  Each cited key yields
/// one entry; unknown keys yield placeholder entries and diagnostics but
/// never block the rest.  Under the numeric style the list follows
/// appearance order; under the author-date style it holds exactly the same
/// entries sorted by their in-text labels — "(author, year)" — so two
/// works by one author order by year.
#[verifier::loop_isolation(false)]
pub fn render_bibliography(
    records: &Vec<BibRecord>,
    cites: &Vec<Citation>,
    style: BibStyle,
) -> (r: (Vec<String>, Vec<Diagnostic>))
    ensures
        ({
            let order = appearance_order(cites@);
            match style {
                BibStyle::Numeric => strings_model(r.0@) == spec_entries(records@, order),
                BibStyle::AuthorDate => label_sorted_entries(
                    records@,
                    order,
                    strings_model(r.0@),
                ),
            }
        }),
{
    let order = unique_keys(cites);
    let ghost order_model = appearance_order(cites@);
    let mut diags: Vec<Diagnostic> = Vec::new();
    match style {
        BibStyle::Numeric => {
            let mut entries: Vec<String> = Vec::new();
            let mut i: usize = 0;
            proof {
                assert(strings_model(entries@) =~= spec_entries(
                    records@,
                    order_model.subrange(0, 0),
                ));
            }
            while i < order.len()
                invariant
                    i <= order@.len(),
                    strings_model(order@) == order_model,
                    strings_model(entries@) == spec_entries(
                        records@,
                        order_model.subrange(0, i as int),
                    ),
                decreases order@.len() - i,
            {
                let (text, diag) = render_entry(records, &order[i]);
                entries.push(text);
                if let Option::Some(d) = diag {
                    diags.push(d);
                }
                proof {
                    let pre = order_model.subrange(0, i as int);
                    let post = order_model.subrange(0, i + 1);
                    assert(post.drop_last() =~= pre);
                    assert(post.last() == order_model[i as int]);
                    assert(order_model[i as int] == order@[i as int]@);
                    assert(strings_model(entries@) =~= spec_entries(records@, post));
                }
                i += 1;
            }
            proof {
                assert(order_model.subrange(0, order_model.len() as int) =~= order_model);
            }
            (entries, diags)
        },
        BibStyle::AuthorDate => {
            let mut pairs: Vec<(String, String)> = Vec::new();
            let mut i: usize = 0;
            proof {
                assert(pairs_model(pairs@) =~= spec_pairs(
                    records@,
                    order_model,
                    order_model.subrange(0, 0),
                ));
            }
            while i < order.len()
                invariant
                    i <= order@.len(),
                    strings_model(order@) == order_model,
                    pairs_model(pairs@) == spec_pairs(
                        records@,
                        order_model,
                        order_model.subrange(0, i as int),
                    ),
                decreases order@.len() - i,
            {
                let (label, _) = render_key_mark(records, &order, BibStyle::AuthorDate, &order[i]);
                let (entry, diag) = render_entry(records, &order[i]);
                pairs.push((label, entry));
                if let Option::Some(d) = diag {
                    diags.push(d);
                }
                proof {
                    let pre = order_model.subrange(0, i as int);
                    let post = order_model.subrange(0, i + 1);
                    assert(post.drop_last() =~= pre);
                    assert(post.last() == order_model[i as int]);
                    assert(order_model[i as int] == order@[i as int]@);
                    assert(pairs_model(pairs@) =~= spec_pairs(records@, order_model, post));
                }
                i += 1;
            }
            proof {
                assert(order_model.subrange(0, order_model.len() as int) =~= order_model);
            }
            let sorted = sort_pairs(pairs);
            let mut out: Vec<String> = Vec::new();
            let mut i: usize = 0;
            proof {
                assert(strings_model(out@) =~= seconds_of(pairs_model(sorted@)).subrange(0, 0));
            }
            while i < sorted.len()
                invariant
                    i <= sorted@.len(),
                    strings_model(out@) == seconds_of(pairs_model(sorted@)).subrange(0, i as int),
                decreases sorted@.len() - i,
            {
                out.push(clone_string(&sorted[i].1));
                proof {
                    assert(strings_model(out@) =~= seconds_of(pairs_model(sorted@)).subrange(
                        0,
                        i + 1,
                    ));
                }
                i += 1;
            }
            proof {
                let ps = pairs_model(sorted@);
                assert(seconds_of(ps).subrange(0, seconds_of(ps).len() as int) =~= seconds_of(ps));
                assert forall|a: int, b: int| 0 <= a < b < ps.len() implies chars_le(
                    (#[trigger] ps[a]).0,
                    (#[trigger] ps[b]).0,
                ) by {
                    assert(ps[a].0 == sorted@[a].0@);
                    assert(ps[b].0 == sorted@[b].0@);
                }
                assert(sorted_pairing(
                    ps,
                    spec_pairs(records@, order_model, order_model),
                    strings_model(out@),
                ));
                assert(label_sorted_entries(
                    records@,
                    appearance_order(cites@),
                    strings_model(out@),
                )) by {
                    assert(sorted_pairing(
                        ps,
                        spec_pairs(
                            records@,
                            appearance_order(cites@),
                            appearance_order(cites@),
                        ),
                        strings_model(out@),
                    ));
                }
            }
            (out, diags)
        },
    }
}

} // verus!
