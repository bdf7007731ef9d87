//! Turning a user's search box text into arXiv API `search_query` syntax.
//!
//! Plain keywords become `all:` terms joined with `AND` (arXiv reads bare
//! white space as `OR`); text that already uses arXiv field prefixes or
//! boolean operators is passed through unchanged.
use vstd::prelude::*;
use crate::text::{
    append_chars, chars_eq, copy_range, find, find_from, is_white_space, is_whitespace, is_word_char,
    lemma_find_from, lemma_replace_char_absent, occurs_at, trim_end, trim_start,
    regex_word_char, replace_all, replace_chars, string_of, string_views, strings_of, trim,
    trim_chars, trimmed_chars, views,
};

verus! {

// ---------------------------------------------------------------------------
// Recognising advanced arXiv syntax
// ---------------------------------------------------------------------------

/// `c` matches the ASCII lowercase letter `lower` case-insensitively under
/// the simple case folding of the `regex` crate (which also folds `ſ` onto
/// `s` and the Kelvin sign onto `k`).
pub open spec fn ci_char(c: char, lower: char) -> bool {
    ||| c == lower
    ||| c as u32 + 32 == lower as u32
    ||| (lower == 's' && c as u32 == 0x17F)
    ||| (lower == 'k' && c as u32 == 0x212A)
}

/// `w` (lowercase ASCII) occurs case-insensitively in `s` at index `i`.
pub open spec fn ci_word_at(s: Seq<char>, i: int, w: Seq<char>) -> bool {
    0 <= i && i + w.len() <= s.len() && forall|k: int|
        0 <= k < w.len() ==> ci_char(#[trigger] s[i + k], w[k])
}

/// The character at `i` exists and is a word character of `\w`.
pub open spec fn word_at(s: Seq<char>, i: int) -> bool {
    0 <= i < s.len() && regex_word_char(s[i])
}

/// The regular-expression word boundary `\b` holds between `i - 1` and `i`.
pub open spec fn word_boundary(s: Seq<char>, i: int) -> bool {
    word_at(s, i - 1) != word_at(s, i)
}

/// The field prefixes of arXiv queries.
pub open spec fn field_names() -> Seq<Seq<char>> {
    seq![
        seq!['a', 'l', 'l'],
        seq!['t', 'i'],
        seq!['a', 'b', 's'],
        seq!['a', 'u'],
        seq!['c', 'a', 't'],
        seq!['i', 'd'],
        seq!['d', 'o', 'i'],
        seq!['j', 'r'],
        seq!['c', 'o'],
        seq!['r', 'n'],
    ]
}

/// `(?i)\b(all|ti|abs|au|cat|id|doi|jr|co|rn):` matches at `i`.
pub open spec fn field_prefix_at(s: Seq<char>, i: int) -> bool {
    word_boundary(s, i) && exists|n: int|
        0 <= n < field_names().len() && #[trigger] ci_word_at(s, i, field_names()[n])
            && i + field_names()[n].len() < s.len() && s[i + field_names()[n].len()] == ':'
}

/// `(?i)\bW\b` matches at `i` for the operator word `w`.
pub open spec fn operator_at(s: Seq<char>, i: int, w: Seq<char>) -> bool {
    word_boundary(s, i) && ci_word_at(s, i, w) && word_boundary(s, i + w.len())
}

/// `(?i)(\bAND\b|\bOR\b|\bANDNOT\b|\(|\))` matches at `i`.
pub open spec fn boolean_at(s: Seq<char>, i: int) -> bool {
    ||| (0 <= i < s.len() && (s[i] == '(' || s[i] == ')'))
    ||| operator_at(s, i, seq!['a', 'n', 'd'])
    ||| operator_at(s, i, seq!['o', 'r'])
    ||| operator_at(s, i, seq!['a', 'n', 'd', 'n', 'o', 't'])
}

/// The query already uses arXiv field prefixes or boolean syntax.
pub open spec fn is_advanced_query(s: Seq<char>) -> bool {
    exists|i: int| 0 <= i < s.len() && (field_prefix_at(s, i) || boolean_at(s, i))
}

fn word_at_exec(s: &Vec<char>, i: usize) -> (b: bool)
    ensures
        b == word_at(s@, i as int),
{
    i < s.len() && is_word_char(s[i])
}

pub fn word_boundary_at(s: &Vec<char>, i: usize) -> (b: bool)
    ensures
        b == word_boundary(s@, i as int),
{
    let before = if i == 0 {
        false
    } else {
        word_at_exec(s, i - 1)
    };
    before != word_at_exec(s, i)
}

fn ci_char_exec(c: char, lower: char) -> (b: bool)
    ensures
        b == ci_char(c, lower),
{
    let cu = c as u32;
    let lu = lower as u32;
    cu == lu || (cu <= 0x10FFFF && cu + 32 == lu) || (lower == 's' && cu == 0x17F) || (lower
        == 'k' && cu == 0x212A)
}

fn ci_word_at_exec(s: &Vec<char>, i: usize, w: &Vec<char>) -> (b: bool)
    ensures
        b == ci_word_at(s@, i as int, w@),
{
    if i > s.len() || w.len() > s.len() - i {
        return false;
    }
    let mut k: usize = 0;
    while k < w.len()
        invariant
            i + w.len() <= s.len(),
            k <= w.len(),
            forall|j: int| 0 <= j < k ==> ci_char(#[trigger] s@[i + j], w@[j]),
        decreases w.len() - k,
    {
        if !ci_char_exec(s[i + k], w[k]) {
            return false;
        }
        k = k + 1;
    }
    true
}

fn field_names_exec() -> (r: Vec<Vec<char>>)
    ensures
        views(r@) == field_names(),
{
    let r = vec![
        vec!['a', 'l', 'l'],
        vec!['t', 'i'],
        vec!['a', 'b', 's'],
        vec!['a', 'u'],
        vec!['c', 'a', 't'],
        vec!['i', 'd'],
        vec!['d', 'o', 'i'],
        vec!['j', 'r'],
        vec!['c', 'o'],
        vec!['r', 'n'],
    ];
    assert(views(r@) =~= field_names());
    r
}

fn field_prefix_at_exec(s: &Vec<char>, i: usize) -> (b: bool)
    ensures
        b == field_prefix_at(s@, i as int),
{
    if !word_boundary_at(s, i) {
        return false;
    }
    let names = field_names_exec();
    let mut n: usize = 0;
    while n < names.len()
        invariant
            n <= names.len(),
            views(names@) == field_names(),
            word_boundary(s@, i as int),
            forall|m: int|
                0 <= m < n ==> !(#[trigger] ci_word_at(s@, i as int, field_names()[m]) && i
                    + field_names()[m].len() < s@.len() && s@[i + field_names()[m].len()]
                    == ':'),
        decreases names.len() - n,
    {
        assert(names@[n as int]@ == field_names()[n as int]);
        let w = &names[n];
        if ci_word_at_exec(s, i, w) {
            let wl = w.len();
            assert(i + wl <= s.len());
            if i + wl < s.len() && s[i + wl] == ':' {
                return true;
            }
        }
        n = n + 1;
    }
    false
}

fn operator_at_exec(s: &Vec<char>, i: usize, w: &Vec<char>) -> (b: bool)
    ensures
        b == operator_at(s@, i as int, w@),
{
    if word_boundary_at(s, i) && ci_word_at_exec(s, i, w) {
        let wl = w.len();
        assert(i + wl <= s.len());
        word_boundary_at(s, i + wl)
    } else {
        false
    }
}

fn boolean_at_exec(s: &Vec<char>, i: usize) -> (b: bool)
    requires
        i < s.len(),
    ensures
        b == boolean_at(s@, i as int),
{
    let and_w = vec!['a', 'n', 'd'];
    let or_w = vec!['o', 'r'];
    let andnot_w = vec!['a', 'n', 'd', 'n', 'o', 't'];
    assert(and_w@ =~= seq!['a', 'n', 'd']);
    assert(or_w@ =~= seq!['o', 'r']);
    assert(andnot_w@ =~= seq!['a', 'n', 'd', 'n', 'o', 't']);
    s[i] == '(' || s[i] == ')' || operator_at_exec(s, i, &and_w) || operator_at_exec(s, i, &or_w)
        || operator_at_exec(s, i, &andnot_w)
}

/// Whether the (trimmed) query already uses arXiv's advanced syntax.
pub fn looks_like_advanced_arxiv_query(s: &Vec<char>) -> (b: bool)
    ensures
        b == is_advanced_query(s@),
{
    let mut i: usize = 0;
    while i < s.len()
        invariant
            i <= s.len(),
            forall|j: int| 0 <= j < i ==> !(field_prefix_at(s@, j) || boolean_at(s@, j)),
        decreases s.len() - i,
    {
        if field_prefix_at_exec(s, i) || boolean_at_exec(s, i) {
            return true;
        }
        i = i + 1;
    }
    false
}

// ---------------------------------------------------------------------------
// Splitting plain queries into terms
// ---------------------------------------------------------------------------

/// Characters that separate plain query terms: white space, ASCII and
/// full-width commas and semicolons.
pub open spec fn is_list_sep(c: char) -> bool {
    is_white_space(c) || c == ',' || c == ';' || c == '，' || c == '；'
}

/// The punctuation trimmed from both ends of a term.
pub open spec fn is_list_punct(c: char) -> bool {
    c == ',' || c == ';' || c == '，' || c == '；'
}

/// `s` without leading list punctuation.
pub open spec fn strip_punct_start(s: Seq<char>) -> Seq<char>
    decreases s.len(),
{
    if s.len() > 0 && is_list_punct(s[0]) {
        strip_punct_start(s.drop_first())
    } else {
        s
    }
}

/// `s` without trailing list punctuation.
pub open spec fn strip_punct_end(s: Seq<char>) -> Seq<char>
    decreases s.len(),
{
    if s.len() > 0 && is_list_punct(s.last()) {
        strip_punct_end(s.drop_last())
    } else {
        s
    }
}

/// A captured term as it is kept: trimmed, stripped of list punctuation at
/// both ends, trimmed again.
pub open spec fn clean_term(raw: Seq<char>) -> Seq<char> {
    trim(strip_punct_end(strip_punct_start(trim(raw))))
}

/// `t` as a one-element list when it is not empty, else the empty list.
pub open spec fn emit(t: Seq<char>) -> Seq<Seq<char>> {
    if t.len() > 0 {
        seq![t]
    } else {
        Seq::empty()
    }
}

/// The end of the quoted term `q...q` that opens at `i`, with at least one
/// character between the quotes.
pub open spec fn quoted_end(s: Seq<char>, i: int, q: char) -> Option<int> {
    if 0 <= i < s.len() && s[i] == q {
        match find_from(s, seq![q], i + 1) {
            Some(j) => if i + 2 <= j < s.len() {
                Some(j)
            } else {
                None
            },
            None => None,
        }
    } else {
        None
    }
}

/// The end of the run of non-separator characters starting at `i`.
pub open spec fn run_end(s: Seq<char>, i: int) -> int
    decreases s.len() - i,
{
    if i < 0 || i >= s.len() || is_list_sep(s[i]) {
        i
    } else {
        run_end(s, i + 1)
    }
}

/// The terms of `s` from index `i` on, as the pattern
/// `"([^"]+)"|'([^']+)'|[^\s,;，；]+` captures them left to right, each
/// cleaned by `clean_term` and kept only when not empty.
pub open spec fn terms_from(s: Seq<char>, i: int) -> Seq<Seq<char>>
    decreases s.len() - i,
{
    if i < 0 || i >= s.len() {
        Seq::empty()
    } else if is_list_sep(s[i]) {
        terms_from(s, i + 1)
    } else {
        match quoted_end(s, i, '"') {
            Some(j) => emit(clean_term(s.subrange(i + 1, j))) + terms_from(s, j + 1),
            None => match quoted_end(s, i, '\'') {
                Some(j) => emit(clean_term(s.subrange(i + 1, j))) + terms_from(s, j + 1),
                None => {
                    let k = run_end(s, i);
                    if i < k <= s.len() {
                        emit(clean_term(s.subrange(i, k))) + terms_from(s, k)
                    } else {
                        Seq::empty()
                    }
                },
            },
        }
    }
}

/// The plain terms of a query.
pub open spec fn plain_terms(s: Seq<char>) -> Seq<Seq<char>> {
    terms_from(s, 0)
}

/// A term that starts and ends with neither a separator nor punctuation is
/// kept as it is.
proof fn lemma_clean_term_plain(t: Seq<char>)
    requires
        t.len() > 0,
        !is_list_sep(t[0]),
        !is_list_sep(t.last()),
    ensures
        clean_term(t) == t,
{
    assert(trim_start(t) == t);
    assert(trim_end(t) == t);
    assert(strip_punct_start(t) == t);
    assert(strip_punct_end(t) == t);
}

/// A run of characters that are not separators ends at the first
/// separator, or at the end of `s`.
proof fn lemma_run_end_at(s: Seq<char>, i: int, j: int)
    requires
        0 <= i <= j <= s.len(),
        forall|k: int| i <= k < j ==> !is_list_sep(#[trigger] s[k]),
        j == s.len() || is_list_sep(s[j]),
    ensures
        run_end(s, i) == j,
    decreases j - i,
{
    if i < j {
        lemma_run_end_at(s, i + 1, j);
    }
}

/// A quoted phrase is one term. In `qaq c`, where the quote `q` is `"` or
/// `'`, the phrase `a` holds no `q`, and `c` is a word (no separator in it,
/// not opening with a quote), the terms are the phrase, cleaned, and the
/// word; a phrase without separators or punctuation at its ends is kept
/// whole, inner white space included.
pub proof fn lemma_quoted_phrase_is_one_term(q: char, a: Seq<char>, c: Seq<char>)
    requires
        q == '"' || q == '\'',
        a.len() > 0,
        forall|k: int| 0 <= k < a.len() ==> #[trigger] a[k] != q,
        clean_term(a).len() > 0,
        c.len() > 0,
        forall|k: int| 0 <= k < c.len() ==> !is_list_sep(#[trigger] c[k]),
        c[0] != '"',
        c[0] != '\'',
    ensures
        plain_terms(seq![q] + a + seq![q, ' '] + c) == seq![clean_term(a), c],
        !is_list_sep(a[0]) && !is_list_sep(a.last()) ==> plain_terms(
            seq![q] + a + seq![q, ' '] + c,
        ) == seq![a, c],
{
    let s = seq![q] + a + seq![q, ' '] + c;
    let n = a.len() as int;
    assert(s[0] == q);
    assert(s[n + 1] == q);
    assert(s[n + 2] == ' ');
    assert(forall|k: int| 1 <= k <= n ==> s[k] == a[k - 1]);
    assert(forall|k: int| n + 3 <= k < s.len() ==> s[k] == c[k - n - 3]);
    lemma_find_from(s, seq![q], 1);
    assert(s.subrange(n + 1, n + 2) =~= seq![q]);
    assert(occurs_at(s, n + 1, seq![q]));
    match find_from(s, seq![q], 1) {
        Some(i) => {
            if i < n + 1 {
                assert(s.subrange(i, i + 1)[0] == s[i]);
                assert(a[i - 1] == q);
            }
            assert(i == n + 1);
        },
        None => {},
    }
    assert(quoted_end(s, 0, q) == Some(n + 1));
    if q == '\'' {
        assert(quoted_end(s, 0, '"') is None);
    }
    assert(s.subrange(1, n + 1) =~= a);
    assert(is_list_sep(' '));
    assert(terms_from(s, n + 2) == terms_from(s, n + 3));
    assert(quoted_end(s, n + 3, '"') is None);
    assert(quoted_end(s, n + 3, '\'') is None);
    lemma_run_end_at(s, n + 3, s.len() as int);
    assert(s.subrange(n + 3, s.len() as int) =~= c);
    lemma_clean_term_plain(c);
    assert(terms_from(s, s.len() as int) =~= Seq::<Seq<char>>::empty());
    assert(terms_from(s, n + 3) =~= seq![c]);
    assert(plain_terms(s) =~= seq![clean_term(a), c]);
    if !is_list_sep(a[0]) && !is_list_sep(a.last()) {
        lemma_clean_term_plain(a);
    }
}

/// Separators split words: two words (no separator in either, neither
/// opening with a quote) with a separator `d` (white space, a comma or a
/// semicolon, ASCII or full-width) between them are two terms.
pub proof fn lemma_separator_splits_words(a: Seq<char>, d: char, c: Seq<char>)
    requires
        is_list_sep(d),
        a.len() > 0,
        forall|k: int| 0 <= k < a.len() ==> !is_list_sep(#[trigger] a[k]),
        a[0] != '"',
        a[0] != '\'',
        c.len() > 0,
        forall|k: int| 0 <= k < c.len() ==> !is_list_sep(#[trigger] c[k]),
        c[0] != '"',
        c[0] != '\'',
    ensures
        plain_terms(a + seq![d] + c) == seq![a, c],
{
    let s = a + seq![d] + c;
    let n = a.len() as int;
    assert(forall|k: int| 0 <= k < n ==> s[k] == a[k]);
    assert(s[n] == d);
    assert(forall|k: int| n + 1 <= k < s.len() ==> s[k] == c[k - n - 1]);
    assert(quoted_end(s, 0, '"') is None);
    assert(quoted_end(s, 0, '\'') is None);
    lemma_run_end_at(s, 0, n);
    assert(s.subrange(0, n) =~= a);
    lemma_clean_term_plain(a);
    assert(terms_from(s, n) == terms_from(s, n + 1));
    assert(quoted_end(s, n + 1, '"') is None);
    assert(quoted_end(s, n + 1, '\'') is None);
    lemma_run_end_at(s, n + 1, s.len() as int);
    assert(s.subrange(n + 1, s.len() as int) =~= c);
    lemma_clean_term_plain(c);
    assert(terms_from(s, s.len() as int) =~= Seq::<Seq<char>>::empty());
    assert(terms_from(s, n + 1) =~= seq![c]);
    assert(plain_terms(s) =~= seq![a, c]);
}

fn is_list_sep_exec(c: char) -> (b: bool)
    ensures
        b == is_list_sep(c),
{
    is_whitespace(c) || c == ',' || c == ';' || c == '，' || c == '；'
}

fn is_list_punct_exec(c: char) -> (b: bool)
    ensures
        b == is_list_punct(c),
{
    c == ',' || c == ';' || c == '，' || c == '；'
}

fn strip_punct(v: &Vec<char>) -> (r: Vec<char>)
    ensures
        r@ == strip_punct_end(strip_punct_start(v@)),
{
    let mut lo: usize = 0;
    assert(v@.skip(0) =~= v@);
    while lo < v.len() && is_list_punct_exec(v[lo])
        invariant
            lo <= v.len(),
            strip_punct_start(v@) == strip_punct_start(v@.skip(lo as int)),
        decreases v.len() - lo,
    {
        assert(v@.skip(lo as int).drop_first() =~= v@.skip(lo + 1));
        lo = lo + 1;
    }
    let ghost t = v@.skip(lo as int);
    assert(strip_punct_start(t) == t);
    assert(t =~= v@.subrange(lo as int, v.len() as int));
    let mut hi: usize = v.len();
    while hi > lo && is_list_punct_exec(v[hi - 1])
        invariant
            lo <= hi <= v.len(),
            strip_punct_end(t) == strip_punct_end(v@.subrange(lo as int, hi as int)),
        decreases hi,
    {
        assert(v@.subrange(lo as int, hi as int).drop_last() =~= v@.subrange(
            lo as int,
            hi - 1,
        ));
        hi = hi - 1;
    }
    copy_range(v, lo, hi)
}

fn clean_term_exec(v: &Vec<char>) -> (r: Vec<char>)
    ensures
        r@ == clean_term(v@),
{
    let a = trim_chars(v);
    let b = strip_punct(&a);
    trim_chars(&b)
}

fn quoted_end_exec(s: &Vec<char>, i: usize, q: char) -> (r: Option<usize>)
    requires
        i < s.len(),
    ensures
        r matches Some(j) ==> quoted_end(s@, i as int, q) == Some(j as int),
        r is None ==> quoted_end(s@, i as int, q) is None,
{
    if s[i] != q {
        return None;
    }
    let mut qv: Vec<char> = Vec::new();
    qv.push(q);
    assert(qv@ =~= seq![q]);
    match find(s, &qv, i + 1) {
        Some(j) => {
            if i + 2 <= j && j < s.len() {
                Some(j)
            } else {
                None
            }
        },
        None => None,
    }
}

proof fn lemma_run_end_bounds(s: Seq<char>, j: int)
    requires
        0 <= j <= s.len(),
    ensures
        j <= run_end(s, j) <= s.len(),
    decreases s.len() - j,
{
    if j < s.len() && !is_list_sep(s[j]) {
        lemma_run_end_bounds(s, j + 1);
    }
}

fn run_end_exec(s: &Vec<char>, i: usize) -> (k: usize)
    requires
        i <= s.len(),
    ensures
        k == run_end(s@, i as int),
        i <= k <= s.len(),
{
    let mut k = i;
    while k < s.len() && !is_list_sep_exec(s[k])
        invariant
            i <= k <= s.len(),
            run_end(s@, i as int) == run_end(s@, k as int),
        decreases s.len() - k,
    {
        k = k + 1;
    }
    k
}

fn push_nonempty(terms: &mut Vec<Vec<char>>, t: Vec<char>)
    ensures
        views(final(terms)@) == views(old(terms)@) + emit(t@),
{
    if t.len() > 0 {
        let ghost tv = t@;
        terms.push(t);
        assert(views(terms@) =~= views(old(terms)@) + seq![tv]);
    } else {
        assert(views(terms@) =~= views(old(terms)@) + Seq::<Seq<char>>::empty());
    }
}

/// The plain terms of the query `s` (`plain_terms`).
pub fn plain_query_terms(s: &Vec<char>) -> (r: Vec<Vec<char>>)
    ensures
        views(r@) == plain_terms(s@),
{
    let mut terms: Vec<Vec<char>> = Vec::new();
    let mut i: usize = 0;
    while i < s.len()
        invariant
            i <= s.len(),
            plain_terms(s@) == views(terms@) + terms_from(s@, i as int),
        decreases s.len() - i,
    {
        let ghost before = views(terms@);
        if is_list_sep_exec(s[i]) {
            i = i + 1;
        } else {
            match quoted_end_exec(s, i, '"') {
                Some(j) => {
                    let raw = copy_range(s, i + 1, j);
                    push_nonempty(&mut terms, clean_term_exec(&raw));
                    assert(views(terms@) + terms_from(s@, j + 1) =~= before + (emit(
                        clean_term(raw@),
                    ) + terms_from(s@, j + 1)));
                    i = j + 1;
                },
                None => match quoted_end_exec(s, i, '\'') {
                    Some(j) => {
                        let raw = copy_range(s, i + 1, j);
                        push_nonempty(&mut terms, clean_term_exec(&raw));
                        assert(views(terms@) + terms_from(s@, j + 1) =~= before + (emit(
                            clean_term(raw@),
                        ) + terms_from(s@, j + 1)));
                        i = j + 1;
                    },
                    None => {
                        let k = run_end_exec(s, i);
                        proof {
                            lemma_run_end_bounds(s@, i + 1);
                        }
                        let raw = copy_range(s, i, k);
                        push_nonempty(&mut terms, clean_term_exec(&raw));
                        assert(views(terms@) + terms_from(s@, k as int) =~= before + (emit(
                            clean_term(raw@),
                        ) + terms_from(s@, k as int)));
                        i = k;
                    },
                },
            }
        }
    }
    assert(views(terms@) + Seq::<Seq<char>>::empty() =~= views(terms@));
    terms
}

// ---------------------------------------------------------------------------
// Formatting terms into arXiv syntax
// ---------------------------------------------------------------------------

/// `t` has a white-space character.
pub open spec fn has_white_space(t: Seq<char>) -> bool {
    exists|k: int| 0 <= k < t.len() && is_white_space(#[trigger] t[k])
}

/// `all:`.
pub open spec fn all_prefix() -> Seq<char> {
    seq!['a', 'l', 'l', ':']
}

/// The `all:` term for `t`: quoted, with inner quotes escaped, when it holds
/// white space.
pub open spec fn format_all_term(t: Seq<char>) -> Seq<char> {
    if has_white_space(t) {
        all_prefix() + seq!['"'] + replace_all(t, seq!['"'], seq!['\\', '"']) + seq!['"']
    } else {
        all_prefix() + t
    }
}

/// The parts joined by `sep`.
pub open spec fn join(parts: Seq<Seq<char>>, sep: Seq<char>) -> Seq<char>
    decreases parts.len(),
{
    if parts.len() == 0 {
        Seq::empty()
    } else if parts.len() == 1 {
        parts[0]
    } else {
        join(parts.drop_last(), sep) + sep + parts.last()
    }
}

/// The terms formatted as `all:` terms and joined by `sep`.
pub open spec fn terms_query(terms: Seq<Seq<char>>, sep: Seq<char>) -> Seq<char> {
    join(terms.map_values(|t: Seq<char>| format_all_term(t)), sep)
}

/// ` AND `.
pub open spec fn and_sep() -> Seq<char> {
    seq![' ', 'A', 'N', 'D', ' ']
}

/// ` OR `.
pub open spec fn or_sep() -> Seq<char> {
    seq![' ', 'O', 'R', ' ']
}

fn has_whitespace_exec(t: &Vec<char>) -> (b: bool)
    ensures
        b == has_white_space(t@),
{
    let mut k: usize = 0;
    while k < t.len()
        invariant
            k <= t.len(),
            forall|j: int| 0 <= j < k ==> !is_white_space(#[trigger] t@[j]),
        decreases t.len() - k,
    {
        if is_whitespace(t[k]) {
            return true;
        }
        k = k + 1;
    }
    false
}

/// `format_all_term(t)`.
pub fn format_arxiv_all_term(t: &Vec<char>) -> (r: Vec<char>)
    ensures
        r@ == format_all_term(t@),
{
    let mut r = vec!['a', 'l', 'l', ':'];
    assert(r@ =~= all_prefix());
    if has_whitespace_exec(t) {
        r.push('"');
        let quote = vec!['"'];
        let escaped = vec!['\\', '"'];
        assert(quote@ =~= seq!['"']);
        assert(escaped@ =~= seq!['\\', '"']);
        let inner = replace_chars(t, &quote, &escaped);
        append_chars(&mut r, &inner);
        r.push('"');
        assert(r@ =~= all_prefix() + seq!['"'] + inner@ + seq!['"']);
    } else {
        append_chars(&mut r, t);
    }
    r
}

/// `join(parts, sep)`.
pub fn join_chars(parts: &Vec<Vec<char>>, sep: &Vec<char>) -> (r: Vec<char>)
    ensures
        r@ == join(views(parts@), sep@),
{
    let mut r: Vec<char> = Vec::new();
    let mut i: usize = 0;
    while i < parts.len()
        invariant
            i <= parts.len(),
            r@ == join(views(parts@.take(i as int)), sep@),
        decreases parts.len() - i,
    {
        assert(views(parts@.take(i + 1)).drop_last() =~= views(parts@.take(i as int)));
        if i > 0 {
            append_chars(&mut r, sep);
        } else {
            assert(r@ =~= Seq::<char>::empty());
        }
        append_chars(&mut r, &parts[i]);
        proof {
            if i == 0 {
                assert(r@ =~= views(parts@.take(1))[0]);
            }
        }
        i = i + 1;
    }
    assert(parts@.take(parts.len() as int) =~= parts@);
    r
}

/// `terms_query(terms, sep)`.
pub fn build_terms_query(terms: &Vec<Vec<char>>, sep: &Vec<char>) -> (r: Vec<char>)
    ensures
        r@ == terms_query(views(terms@), sep@),
{
    let mut formatted: Vec<Vec<char>> = Vec::new();
    let mut i: usize = 0;
    while i < terms.len()
        invariant
            i <= terms.len(),
            views(formatted@) == views(terms@.take(i as int)).map_values(
                |t: Seq<char>| format_all_term(t),
            ),
        decreases terms.len() - i,
    {
        let f = format_arxiv_all_term(&terms[i]);
        let ghost old_f = formatted@;
        let ghost fv = f@;
        formatted.push(f);
        assert(views(formatted@) =~= views(old_f).push(fv));
        let ghost prev = views(terms@.take(i as int));
        assert(views(terms@.take(i + 1)) =~= prev.push(terms@[i as int]@));
        assert(prev.push(terms@[i as int]@).map_values(|t: Seq<char>| format_all_term(t))
            =~= prev.map_values(|t: Seq<char>| format_all_term(t)).push(
            format_all_term(terms@[i as int]@),
        ));
        i = i + 1;
    }
    assert(terms@.take(terms.len() as int) =~= terms@);
    join_chars(&formatted, sep)
}

fn and_sep_exec() -> (r: Vec<char>)
    ensures
        r@ == and_sep(),
{
    let r = vec![' ', 'A', 'N', 'D', ' '];
    assert(r@ =~= and_sep());
    r
}

fn or_sep_exec() -> (r: Vec<char>)
    ensures
        r@ == or_sep(),
{
    let r = vec![' ', 'O', 'R', ' '];
    assert(r@ =~= or_sep());
    r
}

// ---------------------------------------------------------------------------
// The strict query
// ---------------------------------------------------------------------------

/// The `search_query` sent for the user's text `q`: the trimmed text itself
/// when it is empty, uses advanced syntax or has no plain terms; otherwise
/// its terms as `all:` terms joined by ` AND `.
pub open spec fn search_query_for(q: Seq<char>) -> Seq<char> {
    let t = trim(q);
    if t.len() == 0 || is_advanced_query(t) {
        t
    } else if plain_terms(t).len() == 0 {
        t
    } else {
        terms_query(plain_terms(t), and_sep())
    }
}

/// Converts user-entered plain keywords into explicit arXiv API syntax
/// (`search_query_for`).
pub fn build_search_query(query: &str) -> (r: String)
    ensures
        r@ == search_query_for(query@),
{
    let t = trimmed_chars(query);
    if t.len() == 0 || looks_like_advanced_arxiv_query(&t) {
        return string_of(&t);
    }
    let terms = plain_query_terms(&t);
    if terms.len() == 0 {
        return string_of(&t);
    }
    let q = build_terms_query(&terms, &and_sep_exec());
    string_of(&q)
}

// ---------------------------------------------------------------------------
// Relaxed queries for sparse results
// ---------------------------------------------------------------------------

/// The ` AND ` queries of the first `k`, `k - 1`, ..., 2 terms.
pub open spec fn shrinking_queries(terms: Seq<Seq<char>>, k: int) -> Seq<Seq<char>>
    decreases k,
{
    if k < 2 {
        Seq::empty()
    } else {
        seq![terms_query(terms.take(k), and_sep())] + shrinking_queries(terms, k - 1)
    }
}

/// The terms paired in order, each pair joined by one space (a lone last
/// term stays alone): `terms.chunks(2)` with each chunk joined by `" "`.
pub open spec fn term_pairs(terms: Seq<Seq<char>>) -> Seq<Seq<char>>
    decreases terms.len(),
{
    if terms.len() == 0 {
        Seq::empty()
    } else if terms.len() == 1 {
        seq![terms[0]]
    } else {
        seq![terms[0] + seq![' '] + terms[1]] + term_pairs(terms.skip(2))
    }
}

/// How two terms read in a query joined by `sep`: a term with white space
/// (and no double quote) is written `all:"term"`, one without is written
/// `all:term`, and the two are joined by `sep`; so the strict query of the
/// terms [`a b`, `c`] is `all:"a b" AND all:c`.
pub proof fn lemma_two_term_query(a: Seq<char>, c: Seq<char>, sep: Seq<char>)
    requires
        forall|k: int| 0 <= k < a.len() ==> #[trigger] a[k] != '"',
    ensures
        has_white_space(a) && !has_white_space(c) ==> terms_query(seq![a, c], sep) == all_prefix()
            + seq!['"'] + a + seq!['"'] + sep + all_prefix() + c,
        !has_white_space(a) && !has_white_space(c) ==> terms_query(seq![a, c], sep) == all_prefix()
            + a + sep + all_prefix() + c,
{
    lemma_replace_char_absent(a, '"', seq!['\\', '"']);
    let f = seq![a, c].map_values(|t: Seq<char>| format_all_term(t));
    assert(f.drop_last() =~= seq![format_all_term(a)]);
    assert(join(f, sep) == join(f.drop_last(), sep) + sep + f.last());
    assert(join(f, sep) == format_all_term(a) + sep + format_all_term(c));
    if has_white_space(a) && !has_white_space(c) {
        assert(terms_query(seq![a, c], sep) =~= all_prefix() + seq!['"'] + a + seq!['"'] + sep
            + all_prefix() + c);
    }
    if !has_white_space(a) && !has_white_space(c) {
        assert(terms_query(seq![a, c], sep) =~= all_prefix() + a + sep + all_prefix() + c);
    }
}

/// The pairs of `term_pairs`, by position: there are half as many as terms,
/// rounded up; pair `i` is terms `2i` and `2i + 1` joined by a space, or term
/// `2i` alone when it is the last. So every term is in exactly one pair, in
/// order.
pub proof fn lemma_term_pairs(terms: Seq<Seq<char>>)
    ensures
        term_pairs(terms).len() == (terms.len() + 1) / 2,
        forall|i: int|
            0 <= i < term_pairs(terms).len() ==> #[trigger] term_pairs(terms)[i] == if 2 * i + 1
                < terms.len() {
                terms[2 * i] + seq![' '] + terms[2 * i + 1]
            } else {
                terms[2 * i]
            },
    decreases terms.len(),
{
    if terms.len() >= 2 {
        let rest = terms.skip(2);
        lemma_term_pairs(rest);
        let tp = term_pairs(terms);
        assert forall|i: int| 0 <= i < tp.len() implies #[trigger] tp[i] == if 2 * i + 1
            < terms.len() {
            terms[2 * i] + seq![' '] + terms[2 * i + 1]
        } else {
            terms[2 * i]
        } by {
            if i > 0 {
                assert(tp[i] == term_pairs(rest)[i - 1]);
                assert(rest[2 * (i - 1)] == terms[2 * i]);
                if 2 * i + 1 < terms.len() {
                    assert(rest[2 * (i - 1) + 1] == terms[2 * i + 1]);
                }
            }
        }
    }
}

/// `qs` without empty queries, without `excluded` and without repeats,
/// keeping the first occurrence of each.
pub open spec fn unique_excluding(qs: Seq<Seq<char>>, excluded: Seq<char>) -> Seq<Seq<char>>
    decreases qs.len(),
{
    if qs.len() == 0 {
        Seq::empty()
    } else {
        let prev = unique_excluding(qs.drop_last(), excluded);
        let q = qs.last();
        if q.len() > 0 && q != excluded && !prev.contains(q) {
            prev.push(q)
        } else {
            prev
        }
    }
}

/// The relaxed queries tried when the strict query finds too little: the
/// ` AND ` queries of ever shorter leading term lists, the ` OR ` query of
/// term pairs (when there is more than one pair), the ` OR ` query of all
/// terms and the raw trimmed text, without repeats and without the strict
/// query. Empty for advanced syntax and for fewer than two terms.
pub open spec fn relaxed_queries_for(q: Seq<char>) -> Seq<Seq<char>> {
    let t = trim(q);
    let terms = plain_terms(t);
    if t.len() == 0 || is_advanced_query(t) || terms.len() < 2 {
        Seq::empty()
    } else {
        let pairs = term_pairs(terms);
        let candidates = shrinking_queries(terms, terms.len() - 1) + (if pairs.len() > 1 {
            seq![terms_query(pairs, or_sep())]
        } else {
            Seq::empty()
        }) + seq![terms_query(terms, or_sep()), t];
        unique_excluding(candidates, terms_query(terms, and_sep()))
    }
}

/// The relaxed queries hold no empty query, no repeat and not the strict
/// query they are excluded from.
pub proof fn lemma_unique_excluding(qs: Seq<Seq<char>>, excluded: Seq<char>)
    ensures
        forall|i: int|
            0 <= i < unique_excluding(qs, excluded).len() ==> (#[trigger] unique_excluding(
                qs,
                excluded,
            )[i]).len() > 0 && unique_excluding(qs, excluded)[i] != excluded,
        forall|i: int, j: int|
            0 <= i < j < unique_excluding(qs, excluded).len() ==> unique_excluding(
                qs,
                excluded,
            )[i] != unique_excluding(qs, excluded)[j],
    decreases qs.len(),
{
    if qs.len() > 0 {
        lemma_unique_excluding(qs.drop_last(), excluded);
        let prev = unique_excluding(qs.drop_last(), excluded);
        let q = qs.last();
        if q.len() > 0 && q != excluded && !prev.contains(q) {
            let r = prev.push(q);
            assert forall|i: int, j: int| 0 <= i < j < r.len() implies r[i] != r[j] by {
                if j == r.len() - 1 {
                    assert(r[i] == prev[i]);
                }
            }
        }
    }
}

fn take_prefix(terms: &Vec<Vec<char>>, k: usize) -> (r: Vec<Vec<char>>)
    requires
        k <= terms.len(),
    ensures
        views(r@) == views(terms@).take(k as int),
{
    let mut r: Vec<Vec<char>> = Vec::new();
    let mut i: usize = 0;
    while i < k
        invariant
            i <= k <= terms.len(),
            views(r@) == views(terms@).take(i as int),
        decreases k - i,
    {
        let c = copy_range(&terms[i], 0, terms[i].len());
        assert(terms@[i as int]@.subrange(0, terms@[i as int]@.len() as int) =~= terms@[i as int]@);
        let ghost old_r = r@;
        let ghost cv = c@;
        r.push(c);
        assert(views(r@) =~= views(old_r).push(cv));
        assert(views(terms@).take(i + 1) =~= views(terms@).take(i as int).push(terms@[i as int]@));
        i = i + 1;
    }
    r
}

fn pairs_of(terms: &Vec<Vec<char>>) -> (r: Vec<Vec<char>>)
    ensures
        views(r@) == term_pairs(views(terms@)),
{
    let mut r: Vec<Vec<char>> = Vec::new();
    let mut i: usize = 0;
    assert(views(terms@).skip(0) =~= views(terms@));
    while i < terms.len()
        invariant
            i <= terms.len(),
            term_pairs(views(terms@)) == views(r@) + term_pairs(views(terms@).skip(i as int)),
        decreases terms.len() - i,
    {
        let ghost rest = views(terms@).skip(i as int);
        let ghost before = views(r@);
        if i + 1 < terms.len() {
            let mut p = copy_range(&terms[i], 0, terms[i].len());
            p.push(' ');
            append_chars(&mut p, &terms[i + 1]);
            assert(terms@[i as int]@.subrange(0, terms@[i as int]@.len() as int) =~= terms@[
                i as int]@);
            assert(p@ =~= rest[0] + seq![' '] + rest[1]);
            assert(rest.skip(2) =~= views(terms@).skip(i + 2));
            r.push(p);
            assert(views(r@) + term_pairs(views(terms@).skip(i + 2)) =~= before + term_pairs(
                rest,
            ));
            i = i + 2;
        } else {
            let c = copy_range(&terms[i], 0, terms[i].len());
            assert(terms@[i as int]@.subrange(0, terms@[i as int]@.len() as int) =~= terms@[
                i as int]@);
            r.push(c);
            assert(views(terms@).skip(i + 1) =~= Seq::<Seq<char>>::empty());
            assert(views(r@) + term_pairs(views(terms@).skip(i + 1)) =~= before + term_pairs(
                rest,
            ));
            i = i + 1;
        }
    }
    assert(views(terms@).skip(terms.len() as int) =~= Seq::<Seq<char>>::empty());
    assert(views(r@) + Seq::<Seq<char>>::empty() =~= views(r@));
    r
}

fn contains_query(qs: &Vec<Vec<char>>, q: &Vec<char>) -> (b: bool)
    ensures
        b == views(qs@).contains(q@),
{
    let mut i: usize = 0;
    while i < qs.len()
        invariant
            i <= qs.len(),
            forall|j: int| 0 <= j < i ==> views(qs@)[j] != q@,
        decreases qs.len() - i,
    {
        if chars_eq(&qs[i], q) {
            assert(views(qs@)[i as int] == q@);
            return true;
        }
        i = i + 1;
    }
    false
}

/// `unique_excluding(qs, excluded)`.
pub fn unique_queries_excluding(qs: Vec<Vec<char>>, excluded: &Vec<char>) -> (r: Vec<Vec<char>>)
    ensures
        views(r@) == unique_excluding(views(qs@), excluded@),
{
    let mut r: Vec<Vec<char>> = Vec::new();
    let mut i: usize = 0;
    while i < qs.len()
        invariant
            i <= qs.len(),
            views(r@) == unique_excluding(views(qs@).take(i as int), excluded@),
        decreases qs.len() - i,
    {
        assert(views(qs@).take(i + 1).drop_last() =~= views(qs@).take(i as int));
        assert(views(qs@).take(i + 1).last() == qs@[i as int]@);
        let q = &qs[i];
        if q.len() > 0 && !chars_eq(q, excluded) && !contains_query(&r, q) {
            let c = copy_range(q, 0, q.len());
            assert(q@.subrange(0, q@.len() as int) =~= q@);
            r.push(c);
            assert(views(r@) =~= views(r@.drop_last()).push(q@));
        }
        i = i + 1;
    }
    assert(views(qs@).take(qs.len() as int) =~= views(qs@));
    r
}

/// The relaxed queries for the user's text (`relaxed_queries_for`): none
/// empty, none repeated, none equal to the strict query; none at all for
/// blank text, advanced syntax or fewer than two plain terms.
pub fn build_relaxed_search_queries(query: &str) -> (r: Vec<String>)
    ensures
        string_views(r@) == relaxed_queries_for(query@),
        forall|i: int| 0 <= i < r@.len() ==> (#[trigger] r@[i])@.len() > 0 && r@[i]@ != search_query_for(query@),
        forall|i: int, j: int| 0 <= i < j < r@.len() ==> r@[i]@ != r@[j]@,
        trim(query@).len() == 0 || is_advanced_query(trim(query@)) || plain_terms(
            trim(query@),
        ).len() < 2 ==> r@.len() == 0,
{
    let t = trimmed_chars(query);
    let empty: Vec<String> = Vec::new();
    assert(string_views(empty@) =~= Seq::<Seq<char>>::empty());
    if t.len() == 0 || looks_like_advanced_arxiv_query(&t) {
        return empty;
    }
    let terms = plain_query_terms(&t);
    if terms.len() < 2 {
        return empty;
    }
    let ghost tv = views(terms@);
    let and_s = and_sep_exec();
    let or_s = or_sep_exec();
    let strict = build_terms_query(&terms, &and_s);
    let mut queries: Vec<Vec<char>> = Vec::new();
    let mut keep = terms.len() - 1;
    while keep >= 2
        invariant
            tv == views(terms@),
            and_s@ == and_sep(),
            1 <= keep < terms.len(),
            views(queries@) + shrinking_queries(tv, keep as int) == shrinking_queries(
                tv,
                tv.len() - 1,
            ),
        decreases keep,
    {
        let prefix = take_prefix(&terms, keep);
        let q = build_terms_query(&prefix, &and_s);
        let ghost before = views(queries@);
        queries.push(q);
        assert(views(queries@) =~= before.push(terms_query(tv.take(keep as int), and_sep())));
        assert(views(queries@) + shrinking_queries(tv, keep - 1) =~= before + shrinking_queries(
            tv,
            keep as int,
        ));
        keep = keep - 1;
    }
    assert(shrinking_queries(tv, keep as int) =~= Seq::<Seq<char>>::empty());
    assert(views(queries@) + Seq::<Seq<char>>::empty() =~= views(queries@));
    let pairs = pairs_of(&terms);
    let ghost before_pairs = views(queries@);
    if pairs.len() > 1 {
        queries.push(build_terms_query(&pairs, &or_s));
    }
    let ghost pair_part = if views(pairs@).len() > 1 {
        seq![terms_query(views(pairs@), or_sep())]
    } else {
        Seq::<Seq<char>>::empty()
    };
    assert(views(queries@) =~= before_pairs + pair_part);
    let ghost before_last = views(queries@);
    queries.push(build_terms_query(&terms, &or_s));
    let t_copy = copy_range(&t, 0, t.len());
    assert(t@.subrange(0, t@.len() as int) =~= t@);
    queries.push(t_copy);
    assert(views(queries@) =~= before_last + seq![terms_query(tv, or_sep()), t@]);
    let unique = unique_queries_excluding(queries, &strict);
    proof {
        lemma_unique_excluding(views(queries@), strict@);
    }
    let r = strings_of(&unique);
    assert forall|i: int| 0 <= i < r@.len() implies (#[trigger] r@[i])@.len() > 0 && r@[i]@
        != search_query_for(query@) by {
        assert(r@[i]@ == string_views(r@)[i]);
    }
    assert forall|i: int, j: int| 0 <= i < j < r@.len() implies r@[i]@ != r@[j]@ by {
        assert(r@[i]@ == string_views(r@)[i]);
        assert(r@[j]@ == string_views(r@)[j]);
    }
    r
}

} // verus!
