//! Sorting search results: the requested order, the term-overlap signals
//! behind the local relevance score, and a stable sort on several keys.
use vstd::prelude::*;
use crate::digits::{longer_than_one_byte, parse_i32, parse_i32_spec, utf8_len, utf8_len_capped};
use crate::error::{is_validation_error, GscholarError};
use crate::text::{
    char_alphanumeric, chars_eq, chars_of, concat, contains, contains_chars, dedup, is_alphanumeric,
    lemma_dedup,
    replace_all, replace_chars, str_lowercase, string_of, to_lowercase, trim, trim_chars,
    trimmed_chars, views,
};

verus! {

broadcast use vstd::string::group_string_axioms;

/// The order requested for results.
#[derive(Debug, Clone, Copy, PartialEq, Eq, Structural)]
pub enum SortBy {
    /// Most relevant first.
    Relevance,
    /// Highest impact factor first.
    ImpactFactor,
    /// Results without a PDF first.
    HasPdfAsc,
    /// Results with a PDF first.
    HasPdfDesc,
}

impl Default for SortBy {
    fn default() -> (r: Self)
        ensures
            r == SortBy::Relevance,
    {
        SortBy::Relevance
    }
}

/// The name under which an order is recognised: trimmed, lower-cased, `-`
/// replaced by `_`.
pub open spec fn sort_name(v: Seq<char>) -> Seq<char> {
    replace_all(str_lowercase(trim(v)), seq!['-'], seq!['_'])
}

/// The message for an order that is not recognised.
pub open spec fn unsupported_sort_message(raw: Seq<char>) -> Seq<char> {
    "Unsupported sort_by '"@ + raw + "'. Supported values: relevance, impact_factor, has_pdf"@
}

/// The order that a request names, or the message of its error: a missing or
/// blank value means relevance.
pub open spec fn sort_by_for(value: Option<Seq<char>>) -> Result<SortBy, Seq<char>> {
    match value {
        None => Ok(SortBy::Relevance),
        Some(v) => if trim(v).len() == 0 {
            Ok(SortBy::Relevance)
        } else {
            let k = sort_name(v);
            if k == "relevance"@ || k == "relevant"@ || k == "related"@ {
                Ok(SortBy::Relevance)
            } else if k == "impact_factor"@ || k == "if_score"@ || k == "if"@ || k == "sciif"@ {
                Ok(SortBy::ImpactFactor)
            } else if k == "has_pdf"@ || k == "pdf"@ || k == "pdf_first"@ || k == "pdf_url"@ {
                Ok(SortBy::HasPdfDesc)
            } else if k == "pdf_last"@ {
                Ok(SortBy::HasPdfAsc)
            } else {
                Err(unsupported_sort_message(trim(v)))
            }
        },
    }
}

fn is_one_of(k: &Vec<char>, names: &Vec<&str>) -> (b: bool)
    ensures
        b == exists|i: int| 0 <= i < names@.len() && k@ == #[trigger] names@[i]@,
{
    let mut i: usize = 0;
    while i < names.len()
        invariant
            i <= names@.len(),
            forall|j: int| 0 <= j < i ==> k@ != #[trigger] names@[j]@,
        decreases names.len() - i,
    {
        if chars_eq(k, &chars_of(names[i])) {
            return true;
        }
        i = i + 1;
    }
    false
}

impl SortBy {
    /// Reads the requested order (`sort_by_for`).
    pub fn from_request(value: Option<&str>) -> (r: Result<SortBy, GscholarError>)
        ensures
            match sort_by_for(
                match value {
                    Some(v) => Some(v@),
                    None => None,
                },
            ) {
                Ok(s) => r == Ok::<SortBy, GscholarError>(s),
                Err(m) => is_validation_error(r, m),
            },
    {
        let v = match value {
            Some(v) => v,
            None => {
                return Ok(SortBy::Relevance);
            },
        };
        let raw = trimmed_chars(v);
        if raw.len() == 0 {
            return Ok(SortBy::Relevance);
        }
        let lower = to_lowercase(&raw);
        let dash = vec!['-'];
        let underscore = vec!['_'];
        assert(dash@ =~= seq!['-'] && underscore@ =~= seq!['_']);
        let k = replace_chars(&lower, &dash, &underscore);
        let relevance = vec!["relevance", "relevant", "related"];
        let impact = vec!["impact_factor", "if_score", "if", "sciif"];
        let pdf_first = vec!["has_pdf", "pdf", "pdf_first", "pdf_url"];
        if is_one_of(&k, &relevance) {
            assert(k@ == "relevance"@ || k@ == "relevant"@ || k@ == "related"@);
            Ok(SortBy::Relevance)
        } else if is_one_of(&k, &impact) {
            assert(k@ == "impact_factor"@ || k@ == "if_score"@ || k@ == "if"@ || k@ == "sciif"@);
            Ok(SortBy::ImpactFactor)
        } else if is_one_of(&k, &pdf_first) {
            assert(k@ == "has_pdf"@ || k@ == "pdf"@ || k@ == "pdf_first"@ || k@ == "pdf_url"@);
            Ok(SortBy::HasPdfDesc)
        } else if chars_eq(&k, &chars_of("pdf_last")) {
            Ok(SortBy::HasPdfAsc)
        } else {
            assert(relevance@[0]@ == "relevance"@ && relevance@[1]@ == "relevant"@
                && relevance@[2]@ == "related"@);
            assert(impact@[0]@ == "impact_factor"@ && impact@[1]@ == "if_score"@ && impact@[2]@
                == "if"@ && impact@[3]@ == "sciif"@);
            assert(pdf_first@[0]@ == "has_pdf"@ && pdf_first@[1]@ == "pdf"@ && pdf_first@[2]@
                == "pdf_first"@ && pdf_first@[3]@ == "pdf_url"@);
            let head = chars_of("Unsupported sort_by '");
            let tail = chars_of("'. Supported values: relevance, impact_factor, has_pdf");
            let msg = concat(&concat(&head, &raw), &tail);
            Err(GscholarError::Validation(string_of(&msg)))
        }
    }
}

// ---------------------------------------------------------------------------
// Terms
// ---------------------------------------------------------------------------

/// A CJK character: kana, CJK unified ideographs (with extension A),
/// compatibility ideographs, Hangul syllables.
pub open spec fn is_cjk(c: char) -> bool {
    ('\u{3040}' <= c && c <= '\u{30ff}') || ('\u{3400}' <= c && c <= '\u{4dbf}') || ('\u{4e00}'
        <= c && c <= '\u{9fff}') || ('\u{f900}' <= c && c <= '\u{faff}') || ('\u{ac00}' <= c
        && c <= '\u{d7af}')
}

/// `is_cjk`.
pub fn is_cjk_char(c: char) -> (b: bool)
    ensures
        b == is_cjk(c),
{
    ('\u{3040}' <= c && c <= '\u{30ff}') || ('\u{3400}' <= c && c <= '\u{4dbf}') || ('\u{4e00}'
        <= c && c <= '\u{9fff}') || ('\u{f900}' <= c && c <= '\u{faff}') || ('\u{ac00}' <= c
        && c <= '\u{d7af}')
}

/// Where reading terms stands: the terms so far, the current run of
/// alphanumeric characters that are not CJK, the last CJK character of the
/// current CJK run, and whether that run has only one character.
pub type TermState = (Seq<Seq<char>>, Seq<char>, Option<char>, bool);

/// Ends a run of characters that are not CJK: it is a term when, trimmed, its
/// UTF-8 encoding is longer than one byte.
pub open spec fn flush_word(out: Seq<Seq<char>>, word: Seq<char>) -> Seq<Seq<char>> {
    if utf8_len(trim(word)) > 1 {
        out.push(trim(word))
    } else {
        out
    }
}

/// Ends a CJK run: a run of one character is a term by itself (its pairs
/// were emitted as the run grew).
pub open spec fn flush_lone(out: Seq<Seq<char>>, prev: Option<char>, lone: bool) -> Seq<Seq<char>> {
    if lone && prev is Some {
        out.push(seq![prev->0])
    } else {
        out
    }
}

/// Reads one character. A character that is not alphanumeric ends the
/// current run; a CJK character ends a run of other characters and, after
/// another CJK character, gives the pair of the two as a term; any other
/// alphanumeric character ends a CJK run and extends the current word.
pub open spec fn term_step(st: TermState, c: char) -> TermState {
    let (out, word, prev, lone) = st;
    if !char_alphanumeric(c) {
        (flush_lone(flush_word(out, word), prev, lone), Seq::empty(), None, false)
    } else if is_cjk(c) {
        let o = flush_word(out, word);
        match prev {
            Some(p) => (o.push(seq![p, c]), Seq::empty(), Some(c), false),
            None => (o, Seq::empty(), Some(c), true),
        }
    } else {
        (flush_lone(out, prev, lone), word.push(c), None, false)
    }
}

/// The state after reading `s` from the start.
pub open spec fn term_fold(s: Seq<char>) -> TermState
    decreases s.len(),
{
    if s.len() == 0 {
        (Seq::empty(), Seq::empty(), None, false)
    } else {
        term_step(term_fold(s.drop_last()), s.last())
    }
}

/// The terms of a text, lower-cased: its alphanumeric runs of other than CJK
/// characters that are longer than one byte, and from each run of CJK
/// characters every pair of neighbours (a run of one: that character), in
/// order.
pub open spec fn tokens(text: Seq<char>) -> Seq<Seq<char>> {
    let (out, word, prev, lone) = term_fold(str_lowercase(text));
    flush_lone(flush_word(out, word), prev, lone)
}

fn flush_word_exec(out: &mut Vec<Vec<char>>, word: &Vec<char>)
    ensures
        views(final(out)@) == flush_word(views(old(out)@), word@),
{
    let t = trim_chars(word);
    if longer_than_one_byte(&t) {
        out.push(t);
    }
    assert(views(out@) =~= flush_word(views(old(out)@), word@));
}

fn flush_lone_exec(out: &mut Vec<Vec<char>>, prev: Option<char>, lone: bool)
    ensures
        views(final(out)@) == flush_lone(views(old(out)@), prev, lone),
{
    if lone {
        match prev {
            Some(p) => {
                let single = vec![p];
                assert(single@ =~= seq![p]);
                out.push(single);
            },
            None => {},
        }
    }
    assert(views(out@) =~= flush_lone(views(old(out)@), prev, lone));
}

/// The terms of `text` (`tokens`).
pub fn tokenize(text: &Vec<char>) -> (r: Vec<Vec<char>>)
    ensures
        views(r@) == tokens(text@),
{
    let lower = to_lowercase(text);
    let mut out: Vec<Vec<char>> = Vec::new();
    let mut word: Vec<char> = Vec::new();
    let mut prev: Option<char> = None;
    let mut lone = false;
    let mut i: usize = 0;
    assert(lower@.take(0) =~= Seq::<char>::empty());
    assert(views(out@) =~= Seq::<Seq<char>>::empty());
    while i < lower.len()
        invariant
            i <= lower.len(),
            (views(out@), word@, prev, lone) == term_fold(lower@.take(i as int)),
        decreases lower.len() - i,
    {
        let c = lower[i];
        assert(lower@.take(i + 1).drop_last() =~= lower@.take(i as int));
        assert(lower@.take(i + 1).last() == c);
        if !is_alphanumeric(c) {
            flush_word_exec(&mut out, &word);
            flush_lone_exec(&mut out, prev, lone);
            word = Vec::new();
            prev = None;
            lone = false;
        } else if is_cjk_char(c) {
            flush_word_exec(&mut out, &word);
            word = Vec::new();
            match prev {
                Some(p) => {
                    let pair = vec![p, c];
                    assert(pair@ =~= seq![p, c]);
                    out.push(pair);
                    lone = false;
                },
                None => {
                    lone = true;
                },
            }
            prev = Some(c);
        } else {
            flush_lone_exec(&mut out, prev, lone);
            word.push(c);
            prev = None;
            lone = false;
        }
        assert(word@ =~= term_fold(lower@.take(i + 1)).1);
        assert(views(out@) =~= term_fold(lower@.take(i + 1)).0);
        i = i + 1;
    }
    assert(lower@.take(lower.len() as int) =~= lower@);
    flush_word_exec(&mut out, &word);
    flush_lone_exec(&mut out, prev, lone);
    out
}

/// Whether one of `hay` equals `t`.
pub fn contains_term(hay: &Vec<Vec<char>>, t: &Vec<char>) -> (b: bool)
    ensures
        b == views(hay@).contains(t@),
{
    let mut i: usize = 0;
    while i < hay.len()
        invariant
            i <= hay.len(),
            forall|j: int| 0 <= j < i ==> views(hay@)[j] != t@,
        decreases hay.len() - i,
    {
        if chars_eq(&hay[i], t) {
            assert(views(hay@)[i as int] == t@);
            return true;
        }
        i = i + 1;
    }
    false
}

/// Whether one of the first `n` of `hay` equals `t`.
fn contains_term_before(hay: &Vec<Vec<char>>, n: usize, t: &Vec<char>) -> (b: bool)
    requires
        n <= hay.len(),
    ensures
        b == views(hay@).take(n as int).contains(t@),
{
    let mut i: usize = 0;
    while i < n
        invariant
            i <= n <= hay.len(),
            forall|j: int| 0 <= j < i ==> views(hay@)[j] != t@,
        decreases n - i,
    {
        if chars_eq(&hay[i], t) {
            assert(views(hay@).take(n as int)[i as int] == t@);
            return true;
        }
        i = i + 1;
    }
    false
}

/// The distinct terms of `text`, in order of first occurrence.
pub fn unique_terms(text: &Vec<char>) -> (r: Vec<Vec<char>>)
    ensures
        views(r@) == dedup(tokens(text@)),
        forall|i: int, j: int| 0 <= i < j < r@.len() ==> r@[i]@ != r@[j]@,
{
    let ts = tokenize(text);
    let mut out: Vec<Vec<char>> = Vec::new();
    let mut i: usize = 0;
    assert(views(ts@).take(0) =~= Seq::<Seq<char>>::empty());
    assert(views(out@) =~= Seq::<Seq<char>>::empty());
    while i < ts.len()
        invariant
            i <= ts.len(),
            views(out@) == dedup(views(ts@).take(i as int)),
        decreases ts.len() - i,
    {
        let ghost pre = views(ts@).take(i as int);
        assert(views(ts@).take(i + 1).drop_last() =~= pre);
        assert(views(ts@).take(i + 1).last() == ts@[i as int]@);
        if !contains_term_before(&ts, i, &ts[i]) {
            let t = copy_chars(&ts[i]);
            out.push(t);
        }
        assert(views(out@) =~= dedup(views(ts@).take(i + 1)));
        i = i + 1;
    }
    assert(views(ts@).take(ts.len() as int) =~= views(ts@));
    proof {
        lemma_dedup(tokens(text@));
        assert forall|i: int, j: int| 0 <= i < j < out@.len() implies out@[i]@ != out@[j]@ by {
            assert(views(out@)[i] == out@[i]@ && views(out@)[j] == out@[j]@);
        }
    }
    out
}

fn copy_chars(v: &Vec<char>) -> (r: Vec<char>)
    ensures
        r@ == v@,
{
    let mut r: Vec<char> = Vec::new();
    let mut i: usize = 0;
    while i < v.len()
        invariant
            i <= v.len(),
            r@ == v@.take(i as int),
        decreases v.len() - i,
    {
        r.push(v[i]);
        assert(v@.take(i + 1) =~= v@.take(i as int).push(v@[i as int]));
        i = i + 1;
    }
    assert(v@.take(v.len() as int) =~= v@);
    r
}

/// How many of `terms` occur among `hay`.
pub open spec fn count_hits_spec(terms: Seq<Seq<char>>, hay: Seq<Seq<char>>) -> nat
    decreases terms.len(),
{
    if terms.len() == 0 {
        0
    } else {
        count_hits_spec(terms.drop_last(), hay) + if hay.contains(terms.last()) {
            1nat
        } else {
            0nat
        }
    }
}

/// How many of `terms` occur among `hay` (`count_hits_spec`).
pub fn count_hits(terms: &Vec<Vec<char>>, hay: &Vec<Vec<char>>) -> (r: usize)
    ensures
        r == count_hits_spec(views(terms@), views(hay@)),
{
    let mut n: usize = 0;
    let mut i: usize = 0;
    assert(views(terms@).take(0) =~= Seq::<Seq<char>>::empty());
    while i < terms.len()
        invariant
            i <= terms.len(),
            n == count_hits_spec(views(terms@).take(i as int), views(hay@)),
            n <= i,
        decreases terms.len() - i,
    {
        assert(views(terms@).take(i + 1).drop_last() =~= views(terms@).take(i as int));
        assert(views(terms@).take(i + 1).last() == terms@[i as int]@);
        if contains_term(hay, &terms[i]) {
            n = n + 1;
        }
        i = i + 1;
    }
    assert(views(terms@).take(terms.len() as int) =~= views(terms@));
    n
}

// ---------------------------------------------------------------------------
// Relevance signals
// ---------------------------------------------------------------------------

/// The points a phrase earns: 10 when the trimmed, lower-cased phrase (of at
/// least 4 bytes) occurs in the title, else 5 when it occurs in the abstract.
pub open spec fn phrase_bonus(phrase: Seq<char>, title: Seq<char>, abstract_text: Seq<char>) -> int {
    let p = str_lowercase(trim(phrase));
    if utf8_len(p) < 4 {
        0
    } else if contains(title, p) {
        10
    } else if contains(abstract_text, p) {
        5
    } else {
        0
    }
}

/// The phrase points of the keyword and of the focus text, if any.
pub open spec fn phrase_points_spec(
    keyword: Seq<char>,
    content_help: Option<Seq<char>>,
    title: Seq<char>,
    abstract_text: Seq<char>,
) -> int {
    phrase_bonus(keyword, title, abstract_text) + match content_help {
        Some(c) => phrase_bonus(c, title, abstract_text),
        None => 0,
    }
}

fn phrase_bonus_exec(phrase: &str, title: &Vec<char>, abstract_text: &Vec<char>) -> (r: u32)
    ensures
        r == phrase_bonus(phrase@, title@, abstract_text@),
{
    let p = to_lowercase(&trimmed_chars(phrase));
    if utf8_len_capped(&p, 3) < 4 {
        0
    } else if contains_chars(title, &p) {
        10
    } else if contains_chars(abstract_text, &p) {
        5
    } else {
        0
    }
}

/// The phrase points (`phrase_points_spec`).
pub fn phrase_points(keyword: &str, content_help: Option<&str>, title: &Vec<char>, abstract_text: &Vec<char>) -> (r: u32)
    ensures
        r == phrase_points_spec(
            keyword@,
            match content_help {
                Some(c) => Some(c@),
                None => None,
            },
            title@,
            abstract_text@,
        ),
{
    let k = phrase_bonus_exec(keyword, title, abstract_text);
    match content_help {
        Some(c) => k + phrase_bonus_exec(c, title, abstract_text),
        None => k,
    }
}

/// The points for covering the terms: 12 when the title holds at least four
/// fifths of the keyword terms, 8 when title and abstract hits together reach
/// their number, 6 when the focus hits reach the number of focus terms.
pub open spec fn coverage_points_spec(
    title_hits: int,
    abstract_hits: int,
    keyword_terms: int,
    focus_hits: int,
    focus_terms: int,
) -> int {
    (if keyword_terms > 0 && title_hits * 5 >= keyword_terms * 4 {
        12int
    } else {
        0
    }) + (if keyword_terms > 0 && title_hits + abstract_hits >= keyword_terms {
        8int
    } else {
        0
    }) + (if focus_terms > 0 && focus_hits >= focus_terms {
        6int
    } else {
        0
    })
}

/// The coverage points (`coverage_points_spec`).
pub fn coverage_points(title_hits: usize, abstract_hits: usize, keyword_terms: usize, focus_hits: u128, focus_terms: usize) -> (r: u32)
    ensures
        r == coverage_points_spec(
            title_hits as int,
            abstract_hits as int,
            keyword_terms as int,
            focus_hits as int,
            focus_terms as int,
        ),
{
    let th = title_hits as u128;
    let ah = abstract_hits as u128;
    let kt = keyword_terms as u128;
    let mut points: u32 = 0;
    if kt > 0 && th * 5 >= kt * 4 {
        points = points + 12;
    }
    if kt > 0 && th + ah >= kt {
        points = points + 8;
    }
    if focus_terms > 0 && focus_hits >= focus_terms as u128 {
        points = points + 6;
    }
    points
}

/// The term-overlap signals of a paper for a query: counts of query terms
/// and of their hits in title, abstract and venue, and the phrase and coverage
/// points. The score combines them with fractional weights.
#[derive(Debug, Clone, Copy, PartialEq, Eq)]
pub struct RelevanceSignals {
    pub keyword_terms: usize,
    pub focus_terms: usize,
    pub title_hits: usize,
    pub abstract_hits: usize,
    pub focus_title_hits: usize,
    pub focus_abstract_hits: usize,
    pub venue_hits: usize,
    pub phrase_points: u32,
    pub coverage_points: u32,
}

/// The signals of a paper (title, abstract, venue) for a keyword and an
/// optional focus text.
pub open spec fn signals_spec(
    keyword: Seq<char>,
    content_help: Option<Seq<char>>,
    title: Seq<char>,
    abstract_text: Seq<char>,
    venue: Seq<char>,
) -> RelevanceSignals {
    let kw = dedup(tokens(keyword));
    let focus = dedup(
        tokens(
            match content_help {
                Some(c) => c,
                None => Seq::empty(),
            },
        ),
    );
    let tl = str_lowercase(title);
    let al = str_lowercase(abstract_text);
    let tt = tokens(tl);
    let at = tokens(al);
    let vt = tokens(str_lowercase(venue));
    let th = count_hits_spec(kw, tt);
    let ah = count_hits_spec(kw, at);
    let fth = count_hits_spec(focus, tt);
    let fah = count_hits_spec(focus, at);
    RelevanceSignals {
        keyword_terms: kw.len() as usize,
        focus_terms: focus.len() as usize,
        title_hits: th as usize,
        abstract_hits: ah as usize,
        focus_title_hits: fth as usize,
        focus_abstract_hits: fah as usize,
        venue_hits: count_hits_spec(kw, vt) as usize,
        phrase_points: phrase_points_spec(keyword, content_help, tl, al) as u32,
        coverage_points: coverage_points_spec(
            th as int,
            ah as int,
            kw.len() as int,
            (fth + fah) as int,
            focus.len() as int,
        ) as u32,
    }
}

/// The relevance signals of a paper (`signals_spec`).
pub fn relevance_signals(
    keyword: &str,
    content_help: Option<&str>,
    title: &str,
    abstract_text: &str,
    venue: &str,
) -> (r: RelevanceSignals)
    ensures
        r == signals_spec(
            keyword@,
            match content_help {
                Some(c) => Some(c@),
                None => None,
            },
            title@,
            abstract_text@,
            venue@,
        ),
{
    let kw = unique_terms(&chars_of(keyword));
    let focus = match content_help {
        Some(c) => unique_terms(&chars_of(c)),
        None => unique_terms(&Vec::new()),
    };
    let tl = to_lowercase(&chars_of(title));
    let al = to_lowercase(&chars_of(abstract_text));
    let vl = to_lowercase(&chars_of(venue));
    let tt = tokenize(&tl);
    let at = tokenize(&al);
    let vt = tokenize(&vl);
    let th = count_hits(&kw, &tt);
    let ah = count_hits(&kw, &at);
    let fth = count_hits(&focus, &tt);
    let fah = count_hits(&focus, &at);
    let vh = count_hits(&kw, &vt);
    let phrase = phrase_points(keyword, content_help, &tl, &al);
    let coverage = coverage_points(th, ah, kw.len(), fth as u128 + fah as u128, focus.len());
    RelevanceSignals {
        keyword_terms: kw.len(),
        focus_terms: focus.len(),
        title_hits: th,
        abstract_hits: ah,
        focus_title_hits: fth,
        focus_abstract_hits: fah,
        venue_hits: vh,
        phrase_points: phrase,
        coverage_points: coverage,
    }
}

// ---------------------------------------------------------------------------
// Sorting results
// ---------------------------------------------------------------------------

/// What results are ordered by: relevance score, an integer that orders
/// impact factors as the numbers do, year, and whether a PDF is linked.
/// Missing values count as 0.
#[derive(Debug, Clone, Copy, PartialEq, Eq)]
pub struct SortKey {
    pub relevance: u8,
    pub metric: i64,
    pub year: i32,
    pub has_pdf: bool,
}

/// The sort key of a result: its relevance score (0 when missing), the rank
/// of its impact factor, its year read as an `i32` after trimming (0 when it
/// does not read), and whether its PDF link is not blank.
pub fn sort_key(relevance_score: Option<u8>, metric: i64, year: &str, pdf_url: &str) -> (r: SortKey)
    ensures
        r.relevance == match relevance_score {
            Some(s) => s,
            None => 0u8,
        },
        r.metric == metric,
        r.year == match parse_i32_spec(trim(year@)) {
            Some(y) => y,
            None => 0i32,
        },
        r.has_pdf == (trim(pdf_url@).len() > 0),
{
    let relevance = match relevance_score {
        Some(s) => s,
        None => 0,
    };
    let year = match parse_i32(&trimmed_chars(year)) {
        Some(y) => y,
        None => 0,
    };
    SortKey { relevance, metric, year, has_pdf: trimmed_chars(pdf_url).len() > 0 }
}

/// The values compared, most significant first; smaller comes first. For
/// relevance: higher score, then higher impact factor, then newer year. For
/// impact factor: impact factor, then score, then year. The PDF orders put
/// results with (or without) a PDF first, then follow the relevance order.
pub open spec fn sort_components(k: SortKey, by: SortBy) -> (int, int, int, int) {
    let pdf: int = if k.has_pdf {
        1
    } else {
        0
    };
    match by {
        SortBy::Relevance => (0, -(k.relevance as int), -(k.metric as int), -(k.year as int)),
        SortBy::ImpactFactor => (0, -(k.metric as int), -(k.relevance as int), -(k.year as int)),
        SortBy::HasPdfDesc => (-pdf, -(k.relevance as int), -(k.metric as int), -(k.year as int)),
        SortBy::HasPdfAsc => (pdf, -(k.relevance as int), -(k.metric as int), -(k.year as int)),
    }
}

/// Lexicographic "less than" on four values.
pub open spec fn lex_before(a: (int, int, int, int), b: (int, int, int, int)) -> bool {
    a.0 < b.0 || (a.0 == b.0 && (a.1 < b.1 || (a.1 == b.1 && (a.2 < b.2 || (a.2 == b.2 && a.3
        < b.3)))))
}

/// `a` comes strictly before `b` in the order `by`.
pub open spec fn sorts_before(a: SortKey, b: SortKey, by: SortBy) -> bool {
    lex_before(sort_components(a, by), sort_components(b, by))
}

/// `a` and `b` are level in the order `by`.
pub open spec fn sorts_level(a: SortKey, b: SortKey, by: SortBy) -> bool {
    sort_components(a, by) == sort_components(b, by)
}

/// One number per key that orders keys as `sorts_before` does.
pub open spec fn sort_rank(k: SortKey, by: SortBy) -> int {
    let rel = 255 - k.relevance as int;
    let met = 9223372036854775807 - k.metric as int;
    let yr = 2147483647 - k.year as int;
    let pdf: int = if k.has_pdf {
        1
    } else {
        0
    };
    let by_relevance = rel * 79228162514264337593543950336 + met * 4294967296 + yr;
    match by {
        SortBy::Relevance => by_relevance,
        SortBy::ImpactFactor => met * 1099511627776 + rel * 4294967296 + yr,
        SortBy::HasPdfDesc => (1 - pdf) * 20282409603651670423947251286016 + by_relevance,
        SortBy::HasPdfAsc => pdf * 20282409603651670423947251286016 + by_relevance,
    }
}

/// Ranks order keys exactly as the lexicographic comparison does.
pub proof fn lemma_sort_rank(a: SortKey, b: SortKey, by: SortBy)
    ensures
        (sort_rank(a, by) < sort_rank(b, by)) == sorts_before(a, b, by),
        (sort_rank(a, by) == sort_rank(b, by)) == sorts_level(a, b, by),
{
}

/// `sort_rank`.
fn rank_of(k: SortKey, by: SortBy) -> (r: u128)
    ensures
        r == sort_rank(k, by),
{
    let rel = (255 - k.relevance) as u128;
    let met = (9223372036854775807i128 - k.metric as i128) as u128;
    let yr = (2147483647i64 - k.year as i64) as u128;
    let by_relevance = rel * 79228162514264337593543950336u128 + met * 4294967296u128 + yr;
    match by {
        SortBy::Relevance => by_relevance,
        SortBy::ImpactFactor => met * 1099511627776u128 + rel * 4294967296u128 + yr,
        SortBy::HasPdfDesc => {
            if k.has_pdf {
                by_relevance
            } else {
                20282409603651670423947251286016u128 + by_relevance
            }
        },
        SortBy::HasPdfAsc => {
            if k.has_pdf {
                20282409603651670423947251286016u128 + by_relevance
            } else {
                by_relevance
            }
        },
    }
}

/// The positions `0..ranks.len()` ordered by rank, equal ranks keeping their
/// order.
pub fn stable_order(ranks: &Vec<u128>) -> (r: Vec<usize>)
    ensures
        r.len() == ranks.len(),
        forall|i: int| 0 <= i < r.len() ==> r[i] < ranks.len(),
        forall|i: int, j: int| 0 <= i < j < r.len() ==> r[i] != r[j],
        forall|i: int, j: int| 0 <= i < j < r.len() ==> ranks[r[i] as int] <= ranks[r[j] as int],
        forall|i: int, j: int|
            0 <= i < j < r.len() && ranks[r[i] as int] == ranks[r[j] as int] ==> r[i] < r[j],
        (forall|i: int, j: int| 0 <= i < j < ranks.len() ==> ranks[i] <= ranks[j]) ==> forall|
            i: int,
        | 0 <= i < r.len() ==> r[i] == i,
{
    let mut r: Vec<usize> = Vec::new();
    let mut m: usize = 0;
    while m < ranks.len()
        invariant
            m <= ranks.len(),
            r.len() == m,
            forall|i: int| 0 <= i < r.len() ==> r[i] < m,
            forall|i: int, j: int| 0 <= i < j < r.len() ==> r[i] != r[j],
            forall|i: int, j: int|
                0 <= i < j < r.len() ==> ranks[r[i] as int] <= ranks[r[j] as int],
            forall|i: int, j: int|
                0 <= i < j < r.len() && ranks[r[i] as int] == ranks[r[j] as int] ==> r[i] < r[j],
            (forall|i: int, j: int| 0 <= i < j < m ==> ranks[i] <= ranks[j]) ==> forall|q: int|
                0 <= q < m ==> r[q] == q,
        decreases ranks.len() - m,
    {
        let key = ranks[m];
        let mut p: usize = 0;
        while p < r.len() && ranks[r[p]] <= key
            invariant
                p <= r.len(),
                r.len() == m,
                m < ranks.len(),
                key == ranks[m as int],
                forall|i: int| 0 <= i < r.len() ==> r[i] < m,
                forall|q: int| 0 <= q < p ==> ranks[r[q] as int] <= key,
                (forall|i: int, j: int| 0 <= i < j < m ==> ranks[i] <= ranks[j]) ==> forall|q: int|
                    0 <= q < m ==> r[q] == q,
            decreases r.len() - p,
        {
            p = p + 1;
        }
        let ghost old_r = r@;
        proof {
            if forall|i: int, j: int| 0 <= i < j < m + 1 ==> ranks[i] <= ranks[j] {
                if p < m {
                    assert(old_r[p as int] == p);
                    assert(ranks[p as int] <= ranks[m as int]);
                }
            }
        }
        r.insert(p, m);
        proof {
            assert(r@ == old_r.insert(p as int, m));
            assert forall|i: int| 0 <= i < r.len() implies #[trigger] r@[i] == if i < p {
                old_r[i]
            } else if i == p {
                m
            } else {
                old_r[i - 1]
            } by {}
            assert forall|q: int| p <= q < old_r.len() implies key < ranks[old_r[q] as int] by {
                assert(key < ranks[old_r[p as int] as int]);
                if q > p {
                    assert(ranks[old_r[p as int] as int] <= ranks[old_r[q] as int]);
                }
            }
        }
        m = m + 1;
    }
    r
}

/// The order in which to list results with keys `keys` (positions into
/// `keys`): a permutation, never putting a key after one that sorts after it,
/// and keeping level keys in the order they were given.
pub fn sort_order(keys: &Vec<SortKey>, by: SortBy) -> (r: Vec<usize>)
    ensures
        r.len() == keys.len(),
        forall|i: int| 0 <= i < r.len() ==> r[i] < keys.len(),
        forall|i: int, j: int| 0 <= i < j < r.len() ==> r[i] != r[j],
        forall|i: int, j: int|
            0 <= i < j < r.len() ==> !sorts_before(keys[r[j] as int], keys[r[i] as int], by),
        forall|i: int, j: int|
            0 <= i < j < r.len() && sorts_level(keys[r[i] as int], keys[r[j] as int], by) ==> r[i]
                < r[j],
        in_order(keys@, by) ==> forall|i: int| 0 <= i < r.len() ==> r[i] == i,
{
    let mut ranks: Vec<u128> = Vec::new();
    let mut i: usize = 0;
    while i < keys.len()
        invariant
            i <= keys.len(),
            ranks.len() == i,
            forall|j: int| 0 <= j < i ==> ranks[j] == sort_rank(keys[j], by),
        decreases keys.len() - i,
    {
        ranks.push(rank_of(keys[i], by));
        i = i + 1;
    }
    let r = stable_order(&ranks);
    proof {
        assert forall|i: int, j: int| 0 <= i < j < r.len() implies !sorts_before(
            keys[r[j] as int],
            keys[r[i] as int],
            by,
        ) by {
            lemma_sort_rank(keys[r[j] as int], keys[r[i] as int], by);
        }
        assert forall|i: int, j: int|
            0 <= i < j < r.len() && sorts_level(keys[r[i] as int], keys[r[j] as int], by) implies r[i]
            < r[j] by {
            lemma_sort_rank(keys[r[i] as int], keys[r[j] as int], by);
        }
        if in_order(keys@, by) {
            assert forall|i: int, j: int| 0 <= i < j < ranks.len() implies ranks[i] <= ranks[j] by {
                lemma_sort_rank(keys[j], keys[i], by);
            }
        }
    }
    r
}

/// No key sorts before one that comes earlier.
pub open spec fn in_order(keys: Seq<SortKey>, by: SortBy) -> bool {
    forall|i: int, j: int| 0 <= i < j < keys.len() ==> !sorts_before(keys[j], keys[i], by)
}

/// `a` sorts before `b` by relevance: higher relevance score, then higher
/// impact-factor rank, then newer year.
pub open spec fn more_relevant(a: SortKey, b: SortKey) -> bool {
    ||| a.relevance > b.relevance
    ||| a.relevance == b.relevance && a.metric > b.metric
    ||| a.relevance == b.relevance && a.metric == b.metric && a.year > b.year
}

/// The four orders, in terms of the keys' fields. By relevance: higher
/// score first, then higher impact factor, then newer year. By impact
/// factor: higher impact factor first, then higher score, then newer year.
/// With a PDF first (last): results with a PDF link before (after) those
/// without, and among results that agree on it, the relevance order. Keys
/// level in an order agree on every field that order looks at.
pub proof fn lemma_sort_orders(a: SortKey, b: SortKey)
    ensures
        sorts_before(a, b, SortBy::Relevance) == more_relevant(a, b),
        sorts_before(a, b, SortBy::ImpactFactor) == (a.metric > b.metric || (a.metric == b.metric
            && a.relevance > b.relevance) || (a.metric == b.metric && a.relevance == b.relevance
            && a.year > b.year)),
        sorts_before(a, b, SortBy::HasPdfDesc) == ((a.has_pdf && !b.has_pdf) || (a.has_pdf
            == b.has_pdf && more_relevant(a, b))),
        sorts_before(a, b, SortBy::HasPdfAsc) == ((!a.has_pdf && b.has_pdf) || (a.has_pdf
            == b.has_pdf && more_relevant(a, b))),
        a.has_pdf == b.has_pdf ==> sorts_before(a, b, SortBy::HasPdfDesc) == sorts_before(
            a,
            b,
            SortBy::Relevance,
        ) && sorts_before(a, b, SortBy::HasPdfAsc) == sorts_before(a, b, SortBy::Relevance),
        sorts_level(a, b, SortBy::Relevance) == (a.relevance == b.relevance && a.metric
            == b.metric && a.year == b.year),
        sorts_level(a, b, SortBy::ImpactFactor) == (a.relevance == b.relevance && a.metric
            == b.metric && a.year == b.year),
        sorts_level(a, b, SortBy::HasPdfDesc) == (a.has_pdf == b.has_pdf && a.relevance
            == b.relevance && a.metric == b.metric && a.year == b.year),
        sorts_level(a, b, SortBy::HasPdfAsc) == (a.has_pdf == b.has_pdf && a.relevance
            == b.relevance && a.metric == b.metric && a.year == b.year),
{
}

/// `sort_order` puts the keys in the order `by` describes
/// (`lemma_sort_orders`): no key is placed after one it sorts before.
pub proof fn lemma_sort_order_places(keys: Seq<SortKey>, r: Seq<usize>, by: SortBy, i: int, j: int)
    requires
        0 <= i < j < r.len(),
        forall|x: int, y: int|
            0 <= x < y < r.len() ==> !sorts_before(keys[#[trigger] r[y] as int], keys[#[trigger] r[x] as int], by),
    ensures
        by == SortBy::Relevance ==> !more_relevant(keys[r[j] as int], keys[r[i] as int]),
        by == SortBy::HasPdfDesc ==> (keys[r[j] as int].has_pdf ==> keys[r[i] as int].has_pdf),
        by == SortBy::HasPdfAsc ==> (keys[r[i] as int].has_pdf ==> keys[r[j] as int].has_pdf),
{
    lemma_sort_orders(keys[r[j] as int], keys[r[i] as int]);
}

/// Keys listed in the order that `sort_order` gives are in order, so sorting
/// them again with the same order leaves them where they are.
pub proof fn lemma_sorting_again_changes_nothing(keys: Seq<SortKey>, r: Seq<usize>, by: SortBy)
    requires
        r.len() == keys.len(),
        forall|i: int| 0 <= i < r.len() ==> r[i] < keys.len(),
        forall|i: int, j: int|
            0 <= i < j < r.len() ==> !sorts_before(keys[r[j] as int], keys[r[i] as int], by),
    ensures
        in_order(r.map_values(|i: usize| keys[i as int]), by),
{
}

} // verus!
