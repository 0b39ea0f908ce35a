//! Captcha arithmetic: from the text the OCR model read off a captcha image
//! (`digit op digit = ?`, possibly with junk characters around it) to the
//! integer answer, plus the greedy CTC collapse that turns per-frame class
//! indices into that text.

use vstd::prelude::*;

use crate::text::{digit_value, i64_to_string, int_decimal, is_digit};

verus! {

/// The characters kept from the OCR output: digits, the four operators in
/// their ASCII and typographic forms, `=` and the ASCII / fullwidth `?`.
pub open spec fn is_allowed(c: char) -> bool {
    ||| is_digit(c)
    ||| c == '+'
    ||| c == '-'
    ||| c == '*'
    ||| c == '/'
    ||| c == '='
    ||| c == '?'
    ||| c == '\u{ff1f}'
    ||| c == '\u{d7}'
    ||| c == '\u{f7}'
    ||| c == 'x'
    ||| c == 'X'
}

/// Maps the variant spellings onto ASCII: `x`, `X` and `×` to `*`, `÷` to `/`,
/// the fullwidth `？` to `?`.
pub open spec fn normalize(c: char) -> char {
    if c == 'x' || c == 'X' || c == '\u{d7}' {
        '*'
    } else if c == '\u{f7}' {
        '/'
    } else if c == '\u{ff1f}' {
        '?'
    } else {
        c
    }
}

/// The OCR text filtered to the allowed characters and normalized.
pub open spec fn cleaned(raw: Seq<char>) -> Seq<char>
    decreases raw.len(),
{
    if raw.len() == 0 {
        Seq::empty()
    } else {
        let rest = cleaned(raw.drop_last());
        if is_allowed(raw.last()) {
            rest.push(normalize(raw.last()))
        } else {
            rest
        }
    }
}

pub open spec fn is_operator(c: char) -> bool {
    c == '+' || c == '-' || c == '*' || c == '/'
}

/// `s[i..i+3]` is `digit operator digit`.
pub open spec fn triple_at(s: Seq<char>, i: int) -> bool {
    &&& 0 <= i
    &&& i + 2 < s.len()
    &&& is_digit(s[i])
    &&& is_operator(s[i + 1])
    &&& is_digit(s[i + 2])
}

/// `i` is the leftmost position of a `digit operator digit` triple.
pub open spec fn first_triple_at(s: Seq<char>, i: int) -> bool {
    &&& triple_at(s, i)
    &&& forall|j: int| 0 <= j < i ==> !#[trigger] triple_at(s, j)
}

/// `a op b` with integer division; a zero divisor gives 0.
pub open spec fn apply(a: int, op: char, b: int) -> int {
    if op == '+' {
        a + b
    } else if op == '-' {
        a - b
    } else if op == '*' {
        a * b
    } else if b != 0 {
        a / b
    } else {
        0
    }
}

/// The answer to the captcha whose OCR text is `raw`: the leftmost
/// `digit op digit` triple of the cleaned text, evaluated; `None` if there is
/// no such triple.
pub open spec fn answer(raw: Seq<char>) -> Option<int> {
    let s = cleaned(raw);
    if exists|i: int| first_triple_at(s, i) {
        let i = choose|i: int| first_triple_at(s, i);
        Some(apply(digit_value(s[i]), s[i + 1], digit_value(s[i + 2])))
    } else {
        None
    }
}

/// What [`recognize`] returns for an OCR result.
pub open spec fn recognized(ocr_text: Option<Seq<char>>) -> Option<int> {
    match ocr_text {
        Some(t) => answer(t),
        None => None,
    }
}

fn allowed_char(c: char) -> (r: bool)
    ensures
        r == is_allowed(c),
{
    ('0' <= c && c <= '9') || c == '+' || c == '-' || c == '*' || c == '/' || c == '=' || c
        == '?' || c == '\u{ff1f}' || c == '\u{d7}' || c == '\u{f7}' || c == 'x' || c == 'X'
}

fn normalize_char(c: char) -> (r: char)
    ensures
        r == normalize(c),
{
    if c == 'x' || c == 'X' || c == '\u{d7}' {
        '*'
    } else if c == '\u{f7}' {
        '/'
    } else if c == '\u{ff1f}' {
        '?'
    } else {
        c
    }
}

proof fn lemma_first_triple_unique(s: Seq<char>, i: int, k: int)
    requires
        first_triple_at(s, i),
        first_triple_at(s, k),
    ensures
        i == k,
{
    if i < k {
        assert(!triple_at(s, i));
    } else if k < i {
        assert(!triple_at(s, k));
    }
}

/// Extracts the `digit op digit` expression from OCR text and evaluates it.
///
/// Characters outside the math charset are dropped, variant spellings are
/// normalized, and the leftmost `digit op digit` triple is computed (`=` and
/// `?` need not follow). Returns the answer in decimal, or `None` when no
/// such triple exists.
pub fn evaluate(raw: &str) -> (r: Option<String>)
    ensures
        r.is_some() == answer(raw@).is_some(),
        r matches Some(t) ==> t@ == int_decimal(answer(raw@).unwrap()),
{
    let mut s: Vec<char> = Vec::new();
    for c in it: raw.chars()
        invariant
            it.seq() == raw@,
            s@ == cleaned(it.seq().take(it.index() as int)),
    {
        proof {
            let k = it.index() as int;
            assert(it.seq().take(k + 1).drop_last() =~= it.seq().take(k));
            assert(it.seq().take(k + 1).last() == c);
        }
        if allowed_char(c) {
            s.push(normalize_char(c));
        }
    }
    assert(raw@.take(raw@.len() as int) =~= raw@);
    let ghost sv = s@;
    let mut i: usize = 0;
    while s.len() >= 3 && i < s.len() - 2
        invariant
            i <= s.len(),
            s@ == sv,
            sv == cleaned(raw@),
            forall|j: int| 0 <= j < i ==> !#[trigger] triple_at(sv, j),
        decreases s.len() - i,
    {
        let a = s[i];
        let op = s[i + 1];
        let b = s[i + 2];
        if ('0' <= a && a <= '9') && (op == '+' || op == '-' || op == '*' || op == '/') && ('0'
            <= b && b <= '9') {
            let an = (a as i64) - 48;
            let bn = (b as i64) - 48;
            assert(0 <= an <= 9 && 0 <= bn <= 9);
            assert(0 <= an * bn <= 81) by (nonlinear_arith)
                requires
                    0 <= an <= 9,
                    0 <= bn <= 9,
            ;
            let result: i64 = if op == '+' {
                an + bn
            } else if op == '-' {
                an - bn
            } else if op == '*' {
                an * bn
            } else if bn != 0 {
                an / bn
            } else {
                0
            };
            proof {
                assert(first_triple_at(sv, i as int));
                let k = choose|k: int| first_triple_at(sv, k);
                lemma_first_triple_unique(sv, i as int, k);
            }
            return Some(i64_to_string(result));
        }
        i = i + 1;
    }
    proof {
        if exists|k: int| first_triple_at(sv, k) {
            let k = choose|k: int| first_triple_at(sv, k);
            assert(!triple_at(sv, k));
        }
    }
    None
}

/// Turns the OCR reading of a captcha into its answer.
///
/// `ocr_text` is what the OCR model read off the image, or `None` when it
/// could not read it. Returns `None` on either failure; the caller retries
/// with a fresh captcha.
pub fn recognize(ocr_text: Option<String>) -> (r: Option<String>)
    ensures
        r.is_some() == recognized(
            match ocr_text {
                Some(t) => Some(t@),
                None => None,
            },
        ).is_some(),
        r matches Some(t) ==> ocr_text is Some && t@ == int_decimal(
            answer(ocr_text->0@).unwrap(),
        ),
{
    match ocr_text {
        Some(t) => evaluate(t.as_str()),
        None => None,
    }
}

// ---------------------------------------------------------------------------
// Laws
// ---------------------------------------------------------------------------

proof fn lemma_cleaned_concat(x: Seq<char>, y: Seq<char>)
    ensures
        cleaned(x + y) == cleaned(x) + cleaned(y),
    decreases y.len(),
{
    if y.len() == 0 {
        assert(x + y =~= x);
        assert(cleaned(x) + cleaned(y) =~= cleaned(x));
    } else {
        lemma_cleaned_concat(x, y.drop_last());
        assert((x + y).drop_last() =~= x + y.drop_last());
        assert((x + y).last() == y.last());
        if is_allowed(y.last()) {
            assert(cleaned(x) + cleaned(y) =~= (cleaned(x) + cleaned(y.drop_last())).push(
                normalize(y.last()),
            ));
        }
    }
}

proof fn lemma_cleaned_junk(j: Seq<char>)
    requires
        forall|k: int| 0 <= k < j.len() ==> !is_allowed(#[trigger] j[k]),
    ensures
        cleaned(j) == Seq::<char>::empty(),
    decreases j.len(),
{
    if j.len() > 0 {
        assert forall|k: int| 0 <= k < j.drop_last().len() implies !is_allowed(
            #[trigger] j.drop_last()[k],
        ) by {
            assert(j.drop_last()[k] == j[k]);
        }
        lemma_cleaned_junk(j.drop_last());
        assert(!is_allowed(j[j.len() - 1]));
    }
}

/// Junk insensitivity: inserting characters outside the math charset anywhere
/// in the OCR text does not change the answer.
pub proof fn law_junk_is_ignored(a: Seq<char>, junk: Seq<char>, b: Seq<char>)
    requires
        forall|k: int| 0 <= k < junk.len() ==> !is_allowed(#[trigger] junk[k]),
    ensures
        answer(a + junk + b) == answer(a + b),
{
    lemma_cleaned_concat(a + junk, b);
    lemma_cleaned_concat(a, junk);
    lemma_cleaned_concat(a, b);
    lemma_cleaned_junk(junk);
    assert(cleaned(a) + Seq::<char>::empty() =~= cleaned(a));
}

/// Two OCR readings that agree character by character once the variant
/// spellings are normalized (`x`, `X`, `×` for `*`, `÷` for `/`, `？` for `?`)
/// and junk is ignored have the same answer.
pub proof fn law_variant_spellings_agree(r1: Seq<char>, r2: Seq<char>)
    requires
        r1.len() == r2.len(),
        forall|i: int|
            0 <= i < r1.len() ==> is_allowed(#[trigger] r1[i]) == is_allowed(r2[i]) && (
            is_allowed(r1[i]) ==> normalize(r1[i]) == normalize(r2[i])),
    ensures
        answer(r1) == answer(r2),
{
    lemma_cleaned_agree(r1, r2);
}

proof fn lemma_cleaned_agree(r1: Seq<char>, r2: Seq<char>)
    requires
        r1.len() == r2.len(),
        forall|i: int|
            0 <= i < r1.len() ==> is_allowed(#[trigger] r1[i]) == is_allowed(r2[i]) && (
            is_allowed(r1[i]) ==> normalize(r1[i]) == normalize(r2[i])),
    ensures
        cleaned(r1) == cleaned(r2),
    decreases r1.len(),
{
    if r1.len() > 0 {
        let (a, b) = (r1.drop_last(), r2.drop_last());
        assert forall|i: int| 0 <= i < a.len() implies is_allowed(#[trigger] a[i]) == is_allowed(
            b[i],
        ) && (is_allowed(a[i]) ==> normalize(a[i]) == normalize(b[i])) by {
            assert(a[i] == r1[i] && b[i] == r2[i]);
        }
        lemma_cleaned_agree(a, b);
        assert(is_allowed(r1[r1.len() - 1]) == is_allowed(r2[r2.len() - 1]));
    }
}

/// The answer to the captcha text `a op b=?`, for digits `a`, `b` and an
/// operator `op`, is `a op b` computed on the digits' values: sum,
/// difference, product, or integer quotient when `b` is not zero (a zero
/// divisor answers 0).
pub proof fn law_single_expression(a: char, op: char, b: char)
    requires
        '0' <= a <= '9',
        '0' <= b <= '9',
        op == '+' || op == '-' || op == '*' || op == '/',
    ensures
        ({
            let x = (a as int) - 48;
            let y = (b as int) - 48;
            let r = answer(seq![a, op, b, '=', '?']);
            &&& op == '+' ==> r == Some(x + y)
            &&& op == '-' ==> r == Some(x - y)
            &&& op == '*' ==> r == Some(x * y)
            &&& op == '/' && y != 0 ==> r == Some(x / y)
            &&& op == '/' && y == 0 ==> r == Some(0int)
        }),
{
    let raw = seq![a, op, b, '=', '?'];
    reveal_with_fuel(cleaned, 6);
    assert(raw.drop_last() =~= seq![a, op, b, '=']);
    assert(raw.drop_last().drop_last() =~= seq![a, op, b]);
    assert(raw.drop_last().drop_last().drop_last() =~= seq![a, op]);
    assert(raw.drop_last().drop_last().drop_last().drop_last() =~= seq![a]);
    assert(seq![a].drop_last() =~= Seq::<char>::empty());
    let s = cleaned(raw);
    assert(s =~= raw);
    assert(first_triple_at(s, 0));
    let k = choose|k: int| first_triple_at(s, k);
    lemma_first_triple_unique(s, 0, k);
}

/// Division by one: the captcha `d/1=?` answers `d`.
pub proof fn law_divide_by_one(d: char)
    requires
        '0' <= d <= '9',
    ensures
        answer(seq![d, '/', '1', '=', '?']) == Some((d as int) - 48),
{
    law_single_expression(d, '/', '1');
}

/// Every answer is the value of a single-digit expression: between -9 and 81.
pub proof fn law_answer_range(raw: Seq<char>)
    ensures
        answer(raw) matches Some(v) ==> -9 <= v <= 81,
{
    let s = cleaned(raw);
    if exists|i: int| first_triple_at(s, i) {
        let i = choose|i: int| first_triple_at(s, i);
        let a = digit_value(s[i]);
        let b = digit_value(s[i + 2]);
        assert(0 <= a <= 9 && 0 <= b <= 9);
        assert(0 <= a * b <= 81) by (nonlinear_arith)
            requires
                0 <= a <= 9,
                0 <= b <= 9,
        ;
        if b != 0 {
            assert(0 <= a / b <= 9) by (nonlinear_arith)
                requires
                    0 <= a <= 9,
                    1 <= b <= 9,
            ;
        }
    }
}

// ---------------------------------------------------------------------------
// CTC decoding
// ---------------------------------------------------------------------------

/// Greedy CTC collapse over per-frame best class indices: returns the text and
/// the previous frame's index (-1 after a blank and at the start). Index 0 is
/// the blank and separates repeats; a frame equal to the previous frame emits
/// nothing; an index past the charset emits nothing but still counts as the
/// previous index.
pub open spec fn ctc_state(frames: Seq<usize>, charset: Seq<char>) -> (Seq<char>, int)
    decreases frames.len(),
{
    if frames.len() == 0 {
        (Seq::empty(), -1)
    } else {
        let st = ctc_state(frames.drop_last(), charset);
        let idx = frames.last() as int;
        if idx == 0 {
            (st.0, -1)
        } else if idx == st.1 {
            st
        } else if idx < charset.len() {
            (st.0.push(charset[idx]), idx)
        } else {
            (st.0, idx)
        }
    }
}

/// The text a greedy CTC decode emits for the per-frame best class indices:
/// each maximal run of equal non-blank indices gives its character once.
pub fn ctc_collapse(frames: &Vec<usize>, charset: &Vec<char>) -> (r: String)
    ensures
        r@ == ctc_state(frames@, charset@).0,
{
    let mut out = String::new();
    let mut prev: Option<usize> = None;
    let mut i: usize = 0;
    while i < frames.len()
        invariant
            i <= frames.len(),
            out@ == ctc_state(frames@.take(i as int), charset@).0,
            ctc_state(frames@.take(i as int), charset@).1 == match prev {
                Some(p) => p as int,
                None => -1,
            },
            prev matches Some(p) ==> p != 0,
        decreases frames.len() - i,
    {
        let idx = frames[i];
        assert(frames@.take(i + 1).drop_last() =~= frames@.take(i as int));
        assert(frames@.take(i + 1).last() == idx);
        i = i + 1;
        if idx == 0 {
            prev = None;
            continue;
        }
        let repeat = match prev {
            Some(p) => p == idx,
            None => false,
        };
        if repeat {
            continue;
        }
        if idx < charset.len() {
            crate::text::push_char(&mut out, charset[idx]);
        }
        prev = Some(idx);
    }
    assert(frames@.take(frames@.len() as int) =~= frames@);
    out
}

} // verus!
