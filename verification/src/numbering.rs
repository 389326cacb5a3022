//! Pure formatting of counter values through numbering patterns.
//!
//! A pattern is an ordered sequence of segments, each either literal text or
//! a counting-style placeholder.  Applying a pattern to a counter vector
//! renders one placeholder per component; if the vector is longer than the
//! pattern, the last placeholder (with its trailing literal text) cycles for
//! the remaining components.  Patterns are ASCII; a pattern without a
//! placeholder, or with non-ASCII text, is malformed.
//!
//! Placeholder characters: `1` arabic, `i`/`I` roman, `a`/`A` letters
//! (bijective, so 27 renders as AA), `*` a cycle of the symbols `*`, `+`,
//! `^`, `#`, doubled on each full turn of the cycle.

use vstd::prelude::*;
use crate::diag::Diagnostic;

verus! {

/// A counting style for one placeholder.
#[derive(Clone, Copy, PartialEq, Eq, Structural)]
pub enum CountStyle {
    Arabic,
    RomanLower,
    RomanUpper,
    LetterLower,
    LetterUpper,
    Symbol,
}

/// One placeholder with the literal text that follows it.
pub struct Piece {
    pub style: CountStyle,
    pub suffix: Vec<u8>,
}

/// A parsed numbering pattern: literal text before the first placeholder,
/// then one piece per placeholder.
pub struct Pattern {
    pub prefix: Vec<u8>,
    pub pieces: Vec<Piece>,
}

/// Model of a piece.
#[verifier::ext_equal]
pub struct PieceModel {
    pub style: CountStyle,
    pub suffix: Seq<u8>,
}

/// Model of a pattern.
#[verifier::ext_equal]
pub struct PatternModel {
    pub prefix: Seq<u8>,
    pub pieces: Seq<PieceModel>,
}

impl Piece {
    pub open spec fn model(&self) -> PieceModel {
        PieceModel { style: self.style, suffix: self.suffix@ }
    }
}

impl Pattern {
    pub open spec fn model(&self) -> PatternModel {
        PatternModel { prefix: self.prefix@, pieces: self.pieces@.map_values(|p: Piece| p.model()) }
    }
}

/// Every byte is ASCII.
pub open spec fn ascii_seq(s: Seq<u8>) -> bool {
    forall|i: int| 0 <= i < s.len() ==> s[i] < 128
}

/// A usable pattern: at least one placeholder, and ASCII text throughout.
pub open spec fn pattern_wf(p: PatternModel) -> bool {
    &&& p.pieces.len() > 0
    &&& ascii_seq(p.prefix)
    &&& forall|i: int| 0 <= i < p.pieces.len() ==> ascii_seq((#[trigger] p.pieces[i]).suffix)
}

/// The placeholder style a byte stands for, if any.
pub open spec fn style_of(b: u8) -> Option<CountStyle> {
    if b == 49 {  // '1'
        Option::Some(CountStyle::Arabic)
    } else if b == 105 {  // 'i'
        Option::Some(CountStyle::RomanLower)
    } else if b == 73 {  // 'I'
        Option::Some(CountStyle::RomanUpper)
    } else if b == 97 {  // 'a'
        Option::Some(CountStyle::LetterLower)
    } else if b == 65 {  // 'A'
        Option::Some(CountStyle::LetterUpper)
    } else if b == 42 {  // '*'
        Option::Some(CountStyle::Symbol)
    } else {
        Option::None
    }
}

/// One parsing step: a placeholder byte opens a new piece; any other byte
/// joins the prefix (before the first placeholder) or the last piece's
/// suffix.
pub open spec fn parse_byte(p: PatternModel, b: u8) -> PatternModel {
    match style_of(b) {
        Option::Some(style) => PatternModel {
            prefix: p.prefix,
            pieces: p.pieces.push(PieceModel { style, suffix: Seq::empty() }),
        },
        Option::None => {
            if p.pieces.len() == 0 {
                PatternModel { prefix: p.prefix.push(b), pieces: p.pieces }
            } else {
                let last = p.pieces.last();
                PatternModel {
                    prefix: p.prefix,
                    pieces: p.pieces.update(
                        p.pieces.len() - 1,
                        PieceModel { style: last.style, suffix: last.suffix.push(b) },
                    ),
                }
            }
        },
    }
}

/// The pattern a byte string parses to.
pub open spec fn spec_parse(s: Seq<u8>) -> PatternModel
    decreases s.len(),
{
    if s.len() == 0 {
        PatternModel { prefix: Seq::empty(), pieces: Seq::empty() }
    } else {
        parse_byte(spec_parse(s.drop_last()), s.last())
    }
}

/// Parses a pattern from its source bytes.  The result is the malformed-
/// pattern diagnostic exactly when the source is not ASCII or holds no
/// placeholder.
#[verifier::loop_isolation(false)]
pub fn parse_pattern(source: &Vec<u8>) -> (r: Result<Pattern, Diagnostic>)
    ensures
        match r {
            Result::Ok(p) => p.model() == spec_parse(source@) && pattern_wf(p.model()) && ascii_seq(
                source@,
            ),
            Result::Err(d) => d is MalformedNumberingPattern && (!ascii_seq(source@) || spec_parse(
                source@,
            ).pieces.len() == 0),
        },
{
    let mut prefix: Vec<u8> = Vec::new();
    let mut pieces: Vec<Piece> = Vec::new();
    let mut i: usize = 0;
    proof {
        assert(Pattern { prefix, pieces }.model() =~~= spec_parse(source@.subrange(0, 0)));
    }
    while i < source.len()
        invariant
            i <= source.len(),
            (PatternModel {
                prefix: prefix@,
                pieces: pieces@.map_values(|p: Piece| p.model()),
            }) == spec_parse(source@.subrange(0, i as int)),
            ascii_seq(source@.subrange(0, i as int)),
        decreases source.len() - i,
    {
        let b = source[i];
        if b >= 128 {
            return Result::Err(Diagnostic::MalformedNumberingPattern);
        }
        let style = if b == 49 {
            Option::Some(CountStyle::Arabic)
        } else if b == 105 {
            Option::Some(CountStyle::RomanLower)
        } else if b == 73 {
            Option::Some(CountStyle::RomanUpper)
        } else if b == 97 {
            Option::Some(CountStyle::LetterLower)
        } else if b == 65 {
            Option::Some(CountStyle::LetterUpper)
        } else if b == 42 {
            Option::Some(CountStyle::Symbol)
        } else {
            Option::None
        };
        proof {
            assert(match style {
                Option::Some(st) => style_of(b) == Option::Some(st),
                Option::None => style_of(b) is None,
            });
        }
        match style {
            Option::Some(st) => {
                pieces.push(Piece { style: st, suffix: Vec::new() });
            },
            Option::None => {
                if pieces.len() == 0 {
                    prefix.push(b);
                } else {
                    let n = pieces.len() - 1;
                    pieces[n].suffix.push(b);
                }
            },
        }
        proof {
            let pre = source@.subrange(0, i as int);
            let post = source@.subrange(0, i + 1);
            assert(post.drop_last() =~= pre);
            assert(post.last() == source@[i as int]);
            assert(PatternModel {
                prefix: prefix@,
                pieces: pieces@.map_values(|p: Piece| p.model()),
            } =~~= parse_byte(spec_parse(pre), b));
        }
        i += 1;
    }
    proof {
        assert(source@.subrange(0, source@.len() as int) =~= source@);
    }
    if pieces.len() == 0 {
        return Result::Err(Diagnostic::MalformedNumberingPattern);
    }
    let p = Pattern { prefix, pieces };
    proof {
        lemma_parse_ascii(source@);
    }
    Result::Ok(p)
}

/// A parse of ASCII source yields ASCII prefix and suffixes.
proof fn lemma_parse_ascii(s: Seq<u8>)
    requires
        ascii_seq(s),
    ensures
        ascii_seq(spec_parse(s).prefix),
        forall|i: int|
            0 <= i < spec_parse(s).pieces.len() ==> ascii_seq(
                (#[trigger] spec_parse(s).pieces[i]).suffix,
            ),
    decreases s.len(),
{
    if s.len() > 0 {
        assert(ascii_seq(s.drop_last())) by {
            assert(forall|i: int| 0 <= i < s.len() - 1 ==> s.drop_last()[i] == s[i]);
        }
        lemma_parse_ascii(s.drop_last());
        let p = spec_parse(s.drop_last());
        let b = s.last();
        if style_of(b) is None && p.pieces.len() > 0 {
            let last = p.pieces.last();
            assert(ascii_seq(last.suffix.push(b))) by {
                assert(forall|i: int|
                    0 <= i < last.suffix.len() ==> last.suffix.push(b)[i] == last.suffix[i]);
            }
        }
        if style_of(b) is None && p.pieces.len() == 0 {
            assert(ascii_seq(p.prefix.push(b))) by {
                assert(forall|i: int|
                    0 <= i < p.prefix.len() ==> p.prefix.push(b)[i] == p.prefix[i]);
            }
        }
    }
}

/// Decimal digits of `n`.
pub open spec fn dec_bytes(n: nat) -> Seq<u8>
    decreases n,
{
    if n < 10 {
        seq![(48 + n) as u8]
    } else {
        dec_bytes(n / 10).push((48 + n % 10) as u8)
    }
}

/// The byte of a roman numeral letter, in the requested case.
pub open spec fn cased(b: u8, upper: bool) -> u8 {
    if upper {
        b
    } else {
        (b + 32) as u8
    }
}

/// Roman numeral for `n`, by the subtractive convention; zero renders as
/// nothing.
pub open spec fn roman_bytes(n: nat, upper: bool) -> Seq<u8>
    decreases n,
{
    if n >= 1000 {
        seq![cased(77, upper)] + roman_bytes((n - 1000) as nat, upper)
    } else if n >= 900 {
        seq![cased(67, upper), cased(77, upper)] + roman_bytes((n - 900) as nat, upper)
    } else if n >= 500 {
        seq![cased(68, upper)] + roman_bytes((n - 500) as nat, upper)
    } else if n >= 400 {
        seq![cased(67, upper), cased(68, upper)] + roman_bytes((n - 400) as nat, upper)
    } else if n >= 100 {
        seq![cased(67, upper)] + roman_bytes((n - 100) as nat, upper)
    } else if n >= 90 {
        seq![cased(88, upper), cased(67, upper)] + roman_bytes((n - 90) as nat, upper)
    } else if n >= 50 {
        seq![cased(76, upper)] + roman_bytes((n - 50) as nat, upper)
    } else if n >= 40 {
        seq![cased(88, upper), cased(76, upper)] + roman_bytes((n - 40) as nat, upper)
    } else if n >= 10 {
        seq![cased(88, upper)] + roman_bytes((n - 10) as nat, upper)
    } else if n >= 9 {
        seq![cased(73, upper), cased(88, upper)] + roman_bytes((n - 9) as nat, upper)
    } else if n >= 5 {
        seq![cased(86, upper)] + roman_bytes((n - 5) as nat, upper)
    } else if n >= 4 {
        seq![cased(73, upper), cased(86, upper)] + roman_bytes((n - 4) as nat, upper)
    } else if n >= 1 {
        seq![cased(73, upper)] + roman_bytes((n - 1) as nat, upper)
    } else {
        Seq::empty()
    }
}

/// Bijective base-26 letters for `n`: 1 is A, 26 is Z, 27 is AA; zero
/// renders as nothing.
pub open spec fn letter_bytes(n: nat, upper: bool) -> Seq<u8>
    decreases n,
{
    if n == 0 {
        Seq::empty()
    } else {
        letter_bytes((n - 1) as nat / 26, upper).push(
            ((if upper { 65int } else { 97int }) + (n - 1) % 26) as u8,
        )
    }
}

/// The symbol cycle: `*`, `+`, `^`, `#`.
pub open spec fn symbol_byte(i: int) -> u8 {
    if i == 0 {
        42
    } else if i == 1 {
        43
    } else if i == 2 {
        94
    } else {
        35
    }
}

/// Symbol rendering for `n`: the cycle position repeated once more for each
/// full turn of the cycle; zero renders as nothing.
pub open spec fn symbol_bytes(n: nat) -> Seq<u8> {
    if n == 0 {
        Seq::empty()
    } else {
        Seq::new(((n - 1) / 4 + 1) as nat, |i: int| symbol_byte((n - 1) as int % 4))
    }
}

/// What one placeholder style renders a component value to.
pub open spec fn render_value(style: CountStyle, n: u64) -> Seq<u8> {
    match style {
        CountStyle::Arabic => dec_bytes(n as nat),
        CountStyle::RomanLower => roman_bytes(n as nat, false),
        CountStyle::RomanUpper => roman_bytes(n as nat, true),
        CountStyle::LetterLower => letter_bytes(n as nat, false),
        CountStyle::LetterUpper => letter_bytes(n as nat, true),
        CountStyle::Symbol => symbol_bytes(n as nat),
    }
}

/// The piece a component at index `i` uses: its own while the pattern lasts,
/// the last one cycling beyond it.
pub open spec fn piece_for(pieces: Seq<PieceModel>, i: int) -> PieceModel {
    if i < pieces.len() {
        pieces[i]
    } else {
        pieces.last()
    }
}

/// The rendering of all components through the pattern's pieces, in order.
pub open spec fn render_components(pieces: Seq<PieceModel>, values: Seq<u64>) -> Seq<u8>
    decreases values.len(),
{
    if values.len() == 0 {
        Seq::empty()
    } else {
        let p = piece_for(pieces, values.len() - 1);
        render_components(pieces, values.drop_last()) + render_value(p.style, values.last())
            + p.suffix
    }
}

/// Applying a pattern to a counter vector: the literal prefix, then each
/// component rendered through its piece followed by that piece's literal
/// suffix, the last piece cycling when the vector is longer than the
/// pattern.
pub open spec fn apply_pattern(p: PatternModel, values: Seq<u64>) -> Seq<u8> {
    p.prefix + render_components(p.pieces, values)
}

/// Renders decimal digits.
pub fn render_dec(n: u64) -> (r: Vec<u8>)
    ensures
        r@ == dec_bytes(n as nat),
        ascii_seq(r@),
    decreases n,
{
    if n < 10 {
        let mut r: Vec<u8> = Vec::new();
        r.push(48 + n as u8);
        proof {
            assert(r@ =~= dec_bytes(n as nat));
        }
        r
    } else {
        let mut r = render_dec(n / 10);
        r.push(48 + (n % 10) as u8);
        r
    }
}

/// Renders a roman numeral.
pub fn render_roman(n: u64, upper: bool) -> (r: Vec<u8>)
    ensures
        r@ == roman_bytes(n as nat, upper),
        ascii_seq(r@),
    decreases n,
{
    let mut r: Vec<u8> = Vec::new();
    let (head, rest): (&[u8], u64) = if n >= 1000 {
        (&[77], n - 1000)
    } else if n >= 900 {
        (&[67, 77], n - 900)
    } else if n >= 500 {
        (&[68], n - 500)
    } else if n >= 400 {
        (&[67, 68], n - 400)
    } else if n >= 100 {
        (&[67], n - 100)
    } else if n >= 90 {
        (&[88, 67], n - 90)
    } else if n >= 50 {
        (&[76], n - 50)
    } else if n >= 40 {
        (&[88, 76], n - 40)
    } else if n >= 10 {
        (&[88], n - 10)
    } else if n >= 9 {
        (&[73, 88], n - 9)
    } else if n >= 5 {
        (&[86], n - 5)
    } else if n >= 4 {
        (&[73, 86], n - 4)
    } else if n >= 1 {
        (&[73], n - 1)
    } else {
        return r;
    };
    let mut i: usize = 0;
    #[verifier::loop_isolation(false)]
    while i < head.len()
        invariant
            i <= head@.len(),
            r@.len() == i,
            forall|j: int| 0 <= j < i ==> r@[j] == cased(head@[j], upper),
        decreases head@.len() - i,
    {
        let b = head[i];
        r.push(if upper {
            b
        } else {
            b + 32
        });
        i += 1;
    }
    let mut tail = render_roman(rest, upper);
    r.append(&mut tail);
    proof {
        assert(r@ =~= roman_bytes(n as nat, upper));
    }
    r
}

/// Renders bijective base-26 letters.
pub fn render_letter(n: u64, upper: bool) -> (r: Vec<u8>)
    ensures
        r@ == letter_bytes(n as nat, upper),
        ascii_seq(r@),
    decreases n,
{
    if n == 0 {
        let r: Vec<u8> = Vec::new();
        proof {
            assert(r@ =~= letter_bytes(0, upper));
        }
        r
    } else {
        let q = (n - 1) / 26;
        proof {
            assert(q < n) by (nonlinear_arith)
                requires
                    n >= 1,
                    q == (n - 1) / 26,
            ;
        }
        let mut r = render_letter(q, upper);
        let base: u8 = if upper {
            65
        } else {
            97
        };
        r.push(base + ((n - 1) % 26) as u8);
        r
    }
}

/// Renders the symbol cycle.
#[verifier::loop_isolation(false)]
pub fn render_symbol(n: u64) -> (r: Vec<u8>)
    ensures
        r@ == symbol_bytes(n as nat),
        ascii_seq(r@),
{
    let mut r: Vec<u8> = Vec::new();
    if n == 0 {
        proof {
            assert(r@ =~= symbol_bytes(0));
        }
        return r;
    }
    let idx = (n - 1) % 4;
    let b: u8 = if idx == 0 {
        42
    } else if idx == 1 {
        43
    } else if idx == 2 {
        94
    } else {
        35
    };
    let count = (n - 1) / 4 + 1;
    let mut i: u64 = 0;
    while i < count
        invariant
            i <= count,
            r@.len() == i,
            forall|j: int| 0 <= j < i ==> r@[j] == symbol_byte((n - 1) as int % 4),
        decreases count - i,
    {
        r.push(b);
        i += 1;
    }
    proof {
        assert(r@ =~= symbol_bytes(n as nat));
    }
    r
}

/// Renders one component through one placeholder style.
pub fn render_style(style: &CountStyle, n: u64) -> (r: Vec<u8>)
    ensures
        r@ == render_value(*style, n),
        ascii_seq(r@),
{
    match style {
        CountStyle::Arabic => render_dec(n),
        CountStyle::RomanLower => render_roman(n, false),
        CountStyle::RomanUpper => render_roman(n, true),
        CountStyle::LetterLower => render_letter(n, false),
        CountStyle::LetterUpper => render_letter(n, true),
        CountStyle::Symbol => render_symbol(n),
    }
}

/// Copies a byte string.
pub fn copy_bytes(v: &Vec<u8>) -> (r: Vec<u8>)
    ensures
        r@ == v@,
{
    let mut r: Vec<u8> = Vec::new();
    let mut i: usize = 0;
    #[verifier::loop_isolation(false)]
    while i < v.len()
        invariant
            i <= v.len(),
            r@ == v@.subrange(0, i as int),
        decreases v.len() - i,
    {
        r.push(v[i]);
        proof {
            assert(v@.subrange(0, i + 1) =~= v@.subrange(0, i as int).push(v@[i as int]));
        }
        i += 1;
    }
    proof {
        assert(r@ =~= v@);
    }
    r
}

/// Applies a pattern to a counter vector, as bytes.
#[verifier::loop_isolation(false)]
pub fn apply_pattern_bytes(p: &Pattern, values: &Vec<u64>) -> (r: Vec<u8>)
    requires
        pattern_wf(p.model()),
    ensures
        r@ == apply_pattern(p.model(), values@),
        ascii_seq(r@),
{
    let mut r = copy_bytes(&p.prefix);
    let mut i: usize = 0;
    proof {
        assert(r@ =~= apply_pattern(p.model(), values@.subrange(0, 0)));
    }
    while i < values.len()
        invariant
            i <= values.len(),
            r@ == apply_pattern(p.model(), values@.subrange(0, i as int)),
        decreases values.len() - i,
    {
        let pi = if i < p.pieces.len() {
            i
        } else {
            p.pieces.len() - 1
        };
        let piece = &p.pieces[pi];
        proof {
            assert(piece.model() == piece_for(p.model().pieces, i as int));
        }
        let mut rendered = render_style(&piece.style, values[i]);
        r.append(&mut rendered);
        let mut suffix = copy_bytes(&piece.suffix);
        r.append(&mut suffix);
        proof {
            let pre = values@.subrange(0, i as int);
            let post = values@.subrange(0, i + 1);
            assert(post.drop_last() =~= pre);
            assert(post.last() == values@[i as int]);
            assert(r@ =~= apply_pattern(p.model(), post));
        }
        i += 1;
    }
    proof {
        assert(values@.subrange(0, values@.len() as int) =~= values@);
        lemma_apply_pattern_ascii(p.model(), values@);
    }
    r
}

/// Rendering always yields ASCII bytes.
proof fn lemma_render_value_ascii(style: CountStyle, n: u64)
    ensures
        ascii_seq(render_value(style, n)),
{
    match style {
        CountStyle::Arabic => lemma_dec_ascii(n as nat),
        CountStyle::RomanLower => lemma_roman_ascii(n as nat, false),
        CountStyle::RomanUpper => lemma_roman_ascii(n as nat, true),
        CountStyle::LetterLower => lemma_letter_ascii(n as nat, false),
        CountStyle::LetterUpper => lemma_letter_ascii(n as nat, true),
        CountStyle::Symbol => (),
    }
}

proof fn lemma_dec_ascii(n: nat)
    ensures
        ascii_seq(dec_bytes(n)),
    decreases n,
{
    if n >= 10 {
        lemma_dec_ascii(n / 10);
    }
}

proof fn lemma_roman_ascii(n: nat, upper: bool)
    ensures
        ascii_seq(roman_bytes(n, upper)),
    decreases n,
{
    if n >= 1 {
        if n >= 1000 {
            lemma_roman_ascii((n - 1000) as nat, upper);
        } else if n >= 900 {
            lemma_roman_ascii((n - 900) as nat, upper);
        } else if n >= 500 {
            lemma_roman_ascii((n - 500) as nat, upper);
        } else if n >= 400 {
            lemma_roman_ascii((n - 400) as nat, upper);
        } else if n >= 100 {
            lemma_roman_ascii((n - 100) as nat, upper);
        } else if n >= 90 {
            lemma_roman_ascii((n - 90) as nat, upper);
        } else if n >= 50 {
            lemma_roman_ascii((n - 50) as nat, upper);
        } else if n >= 40 {
            lemma_roman_ascii((n - 40) as nat, upper);
        } else if n >= 10 {
            lemma_roman_ascii((n - 10) as nat, upper);
        } else if n >= 9 {
            lemma_roman_ascii((n - 9) as nat, upper);
        } else if n >= 5 {
            lemma_roman_ascii((n - 5) as nat, upper);
        } else if n >= 4 {
            lemma_roman_ascii((n - 4) as nat, upper);
        } else {
            lemma_roman_ascii((n - 1) as nat, upper);
        }
    }
}

proof fn lemma_letter_ascii(n: nat, upper: bool)
    ensures
        ascii_seq(letter_bytes(n, upper)),
    decreases n,
{
    if n > 0 {
        lemma_letter_ascii((n - 1) as nat / 26, upper);
    }
}

/// Applying a well-formed pattern yields ASCII bytes.
pub proof fn lemma_apply_pattern_ascii(p: PatternModel, values: Seq<u64>)
    requires
        pattern_wf(p),
    ensures
        ascii_seq(apply_pattern(p, values)),
    decreases values.len(),
{
    if values.len() == 0 {
        assert(apply_pattern(p, values) =~= p.prefix);
    } else {
        lemma_apply_pattern_ascii(p, values.drop_last());
        let piece = piece_for(p.pieces, values.len() - 1);
        lemma_render_value_ascii(piece.style, values.last());
        assert(ascii_seq(piece.suffix)) by {
            if values.len() - 1 < p.pieces.len() {
                assert(piece == p.pieces[values.len() - 1]);
            } else {
                assert(piece == p.pieces[p.pieces.len() - 1]);
            }
        }
        let a = apply_pattern(p, values.drop_last());
        let b = render_value(piece.style, values.last());
        let c = piece.suffix;
        assert(apply_pattern(p, values) =~= a + b + c);
        assert forall|i: int| 0 <= i < (a + b + c).len() implies (a + b + c)[i] < 128 by {
            if i < a.len() {
                assert((a + b + c)[i] == a[i]);
            } else if i < a.len() + b.len() {
                assert((a + b + c)[i] == b[i - a.len()]);
            } else {
                assert((a + b + c)[i] == c[i - a.len() - b.len()]);
            }
        }
    }
}


/// The characters that ASCII bytes denote, one per byte.
pub open spec fn ascii_chars(s: Seq<u8>) -> Seq<char> {
    s.map_values(|b: u8| b as char)
}

/// Relies on String::from_utf8: ASCII bytes are valid UTF-8 and decode to
/// exactly the characters they denote.  The default-on-error branch is never
/// taken for ASCII input.
#[verifier::external_body]
pub(crate) fn string_from_ascii(bytes: Vec<u8>) -> (r: String)
    requires
        ascii_seq(bytes@),
    ensures
        r@ == ascii_chars(bytes@),
{
    String::from_utf8(bytes).unwrap_or_default()
}

/// Formats a counter vector through a pattern, as text.
pub fn display(p: &Pattern, values: &Vec<u64>) -> (r: String)
    requires
        pattern_wf(p.model()),
    ensures
        r@ == ascii_chars(apply_pattern(p.model(), values@)),
{
    string_from_ascii(apply_pattern_bytes(p, values))
}

} // verus!
