//! Reading arXiv's HTML search page, the fallback when the API fails.
use vstd::prelude::*;
use crate::arxiv::model::{present, result_views, ArxivResult, ResultView};
use crate::arxiv::scan::{
    all_matches, all_matches_exec, first_match, first_match_exec, group1, group2, idx, Match,
    MatchIdx, Pattern,
};
use crate::digits::{
    byte_prefix, byte_prefix_chars, decimal, decimal_chars, digit_char, digit_to_char,
    parse_unsigned,
};
use crate::markup::{
    absolute_arxiv_url, absolute_url, arxiv_origin, clean_html, clean_html_text, decode_html,
    http_prefix, https_prefix, strip_tags,
};
use crate::text::{
    chars_of, copy_range, is_tidy, lemma_collapse_ws_tidy, lemma_single_spaced_subrange,
    lemma_trim_tidy, matches_at, occurs_at, starts_with, string_of, trim, trim_chars,
};

verus! {

broadcast use vstd::string::group_string_axioms;

/// `s` without any number of leading copies of `p` (`trim_start_matches`).
pub open spec fn strip_prefix_all(s: Seq<char>, p: Seq<char>) -> Seq<char>
    decreases s.len(),
{
    if p.len() > 0 && occurs_at(s, 0, p) {
        strip_prefix_all(s.skip(p.len() as int), p)
    } else {
        s
    }
}

/// Stripping leading copies of a pattern leaves a tail.
pub proof fn lemma_strip_prefix_all_tail(s: Seq<char>, p: Seq<char>) -> (k: int)
    ensures
        0 <= k <= s.len(),
        strip_prefix_all(s, p) == s.subrange(k, s.len() as int),
    decreases s.len(),
{
    if p.len() > 0 && occurs_at(s, 0, p) {
        let k = lemma_strip_prefix_all_tail(s.skip(p.len() as int), p);
        assert(s.skip(p.len() as int).subrange(k, s.len() - p.len()) =~= s.subrange(
            k + p.len(),
            s.len() as int,
        ));
        k + p.len()
    } else {
        assert(s.subrange(0, s.len() as int) =~= s);
        0
    }
}

fn strip_prefix_all_exec(s: &Vec<char>, p: &Vec<char>) -> (r: Vec<char>)
    ensures
        r@ == strip_prefix_all(s@, p@),
{
    let mut i: usize = 0;
    assert(s@.skip(0) =~= s@);
    while p.len() > 0 && matches_at(s, i, p)
        invariant
            i <= s.len(),
            strip_prefix_all(s@, p@) == strip_prefix_all(s@.skip(i as int), p@),
        decreases s.len() - i,
    {
        let pl = p.len();
        assert(i + pl <= s.len());
        assert(s@.skip(i as int).subrange(0, pl as int) =~= s@.subrange(i as int, i + pl));
        assert(s@.skip(i as int).skip(pl as int) =~= s@.skip(i + pl));
        i = i + pl;
    }
    assert(!(p@.len() > 0 && occurs_at(s@.skip(i as int), 0, p@))) by {
        if p@.len() > 0 && s@.skip(i as int).len() >= p@.len() {
            assert(s@.skip(i as int).subrange(0, p@.len() as int) =~= s@.subrange(
                i as int,
                i + p@.len(),
            ));
        }
    }
    assert(s@.skip(i as int) =~= s@.subrange(i as int, s@.len() as int));
    copy_range(s, i, s.len())
}

/// The two-digit numeral of `y` (`format!("{y:02}")` for `y < 100`).
pub open spec fn two_digits(y: int) -> Seq<char> {
    if y < 10 {
        seq!['0', digit_char(y)]
    } else {
        decimal(y as nat)
    }
}

/// The year implied by an arXiv identifier `YYMM.NNNNN`: the first two bytes
/// read as a number, `19YY` from 91 on and `20YY` below; empty when they do
/// not form a number.
pub open spec fn year_from_id(id: Seq<char>) -> Seq<char> {
    match byte_prefix(id, 2) {
        Some(p) => match parse_unsigned(p) {
            Some(y) => if y >= 91 {
                seq!['1', '9'] + two_digits(y)
            } else {
                seq!['2', '0'] + two_digits(y)
            },
            None => Seq::empty(),
        },
        None => Seq::empty(),
    }
}

/// The year read from an arXiv identifier (`year_from_id`).
pub fn year_from_arxiv_id(id: &Vec<char>) -> (r: Vec<char>)
    ensures
        r@ == year_from_id(id@),
{
    let p = match byte_prefix_chars(id, 2) {
        Some(p) => p,
        None => {
            return Vec::new();
        },
    };
    proof {
        lemma_byte_prefix_short(id@, 2);
    }
    let y: u64 = match crate::digits::parse_u64(&p) {
        Some(y) => y,
        None => {
            assert(crate::digits::parse_u64_spec(p@) is None);
            proof {
                lemma_small_numeral(p@);
            }
            return Vec::new();
        },
    };
    proof {
        lemma_small_numeral(p@);
    }
    let mut r = if y >= 91 {
        vec!['1', '9']
    } else {
        vec!['2', '0']
    };
    if y < 10 {
        r.push('0');
        r.push(digit_to_char(y));
        assert(r@ =~= (if y >= 91 {
            seq!['1', '9']
        } else {
            seq!['2', '0']
        }) + two_digits(y as int));
    } else {
        let d = decimal_chars(y);
        let ghost head = r@;
        crate::text::append_chars(&mut r, &d);
    }
    r
}

proof fn lemma_byte_prefix_short(s: Seq<char>, n: int)
    requires
        0 <= n,
    ensures
        byte_prefix(s, n) matches Some(p) ==> p.len() <= n,
    decreases s.len(),
{
    if n != 0 && s.len() != 0 && n >= crate::digits::utf8_width(s[0]) {
        lemma_byte_prefix_short(s.drop_first(), n - crate::digits::utf8_width(s[0]));
    }
}

proof fn lemma_small_numeral(p: Seq<char>)
    requires
        p.len() <= 2,
    ensures
        parse_unsigned(p) matches Some(y) ==> 0 <= y < 100 && crate::digits::parse_u64_spec(p)
            == Some(y as u64),
        parse_unsigned(p) is None ==> crate::digits::parse_u64_spec(p) is None,
{
    let body = if p.len() > 0 && p[0] == '+' {
        p.drop_first()
    } else {
        p
    };
    if body.len() > 0 && crate::digits::all_digits(body) {
        assert(crate::digits::is_digit(body[0]));
        assert(0 <= crate::digits::digit_value(body[0]) <= 9);
        if body.len() == 2 {
            assert(crate::digits::is_digit(body[1]));
            assert(0 <= crate::digits::digit_value(body[1]) <= 9);
            assert(body.drop_last().drop_last().len() == 0);
            assert(body.drop_last().last() == body[0]);
            assert(crate::digits::digits_value(body.drop_last().drop_last()) == 0);
            assert(crate::digits::digits_value(body.drop_last()) == crate::digits::digit_value(
                body[0],
            ));
            assert(crate::digits::digits_value(body) == crate::digits::digit_value(body[0]) * 10
                + crate::digits::digit_value(body[1]));
        } else {
            assert(body.drop_last().len() == 0);
            assert(crate::digits::digits_value(body.drop_last()) == 0);
            assert(crate::digits::digits_value(body) == crate::digits::digit_value(body[0]));
        }
    }
}

// ---------------------------------------------------------------------------
// Search result items
// ---------------------------------------------------------------------------

/// The first group of the first match of `p` in `s`, passed through `f`, or
/// empty.
pub open spec fn first_group_or_empty(p: Pattern, s: Seq<char>) -> Option<Seq<char>> {
    match first_match(p, s, 0) {
        Some(m) => Some(group1(s, m)),
        None => None,
    }
}

/// The year of a search result item: the first `19xx`/`20xx` word of its
/// submission line, else the year of its identifier.
pub open spec fn item_year(e: Seq<char>, arxiv_id: Seq<char>) -> Seq<char> {
    match first_group_or_empty(Pattern::Date, e) {
        Some(text) => match first_match(Pattern::Year, text, 0) {
            Some(ym) => group1(text, ym),
            None => year_from_id(arxiv_id),
        },
        None => year_from_id(arxiv_id),
    }
}

/// The title of the result item with text `e`: the text of its title
/// paragraph, or empty.
pub open spec fn html_title(e: Seq<char>) -> Seq<char> {
    match first_group_or_empty(Pattern::HtmlTitle, e) {
        Some(t) => clean_html(t),
        None => Seq::empty(),
    }
}

/// The result read from the text `e` of one `<li class="arxiv-result">`,
/// or `None` when it has no abstract link or no title.
pub open spec fn html_record(e: Seq<char>) -> Option<ResultView> {
    match first_match(Pattern::Abs, e, 0) {
        None => None,
        Some(abs) => {
            let title = html_title(e);
            if title.len() == 0 {
                None
            } else {
                Some(
                    ResultView {
                        title: title,
                        authors: match first_group_or_empty(Pattern::HtmlAuthors, e) {
                            Some(t) => trim(strip_prefix_all(clean_html(t), "Authors:"@)),
                            None => Seq::empty(),
                        },
                        year: item_year(e, group2(e, abs)),
                        doi: Seq::empty(),
                        url: absolute_url(group1(e, abs)),
                        pdf_url: match first_group_or_empty(Pattern::Pdf, e) {
                            Some(t) => absolute_url(t),
                            None => Seq::empty(),
                        },
                        abstract_text: match first_group_or_empty(Pattern::Abstract, e) {
                            Some(t) => clean_html(t),
                            None => Seq::empty(),
                        },
                    },
                )
            }
        },
    }
}

/// The records of the result items `ms` of `html` that have one.
pub open spec fn html_records_of(html: Seq<char>, ms: Seq<Match>) -> Seq<ResultView>
    decreases ms.len(),
{
    if ms.len() == 0 {
        Seq::empty()
    } else {
        let prev = html_records_of(html, ms.drop_last());
        match html_record(group1(html, ms.last())) {
            Some(r) => prev.push(r),
            None => prev,
        }
    }
}

/// The results listed on an arXiv search page, in order.
pub open spec fn html_records(html: Seq<char>) -> Seq<ResultView> {
    html_records_of(html, all_matches(Pattern::Result, html, 0))
}

fn first_group_exec(p: Pattern, s: &Vec<char>) -> (r: Option<Vec<char>>)
    ensures
        r matches Some(t) ==> first_group_or_empty(p, s@) == Some(t@),
        r is None ==> first_group_or_empty(p, s@) is None,
{
    match first_match_exec(p, s, 0) {
        Some(m) => Some(copy_range(s, m.0, m.1)),
        None => None,
    }
}

fn item_year_exec(e: &Vec<char>, arxiv_id: &Vec<char>) -> (r: Vec<char>)
    ensures
        r@ == item_year(e@, arxiv_id@),
{
    match first_group_exec(Pattern::Date, e) {
        Some(text) => match first_match_exec(Pattern::Year, &text, 0) {
            Some(ym) => copy_range(&text, ym.0, ym.1),
            None => year_from_arxiv_id(arxiv_id),
        },
        None => year_from_arxiv_id(arxiv_id),
    }
}

/// `html_record(e)`.
pub fn html_record_exec(e: &Vec<char>) -> (r: Option<ArxivResult>)
    ensures
        r matches Some(x) ==> html_record(e@) == Some(x@),
        r is None ==> html_record(e@) is None,
{
    let abs = match first_match_exec(Pattern::Abs, e, 0) {
        Some(m) => m,
        None => {
            return None;
        },
    };
    let title = match first_group_exec(Pattern::HtmlTitle, e) {
        Some(t) => clean_html_text(&t),
        None => Vec::new(),
    };
    if title.len() == 0 {
        return None;
    }
    let authors = match first_group_exec(Pattern::HtmlAuthors, e) {
        Some(t) => {
            let c = clean_html_text(&t);
            let prefix = chars_of("Authors:");
            let stripped = strip_prefix_all_exec(&c, &prefix);
            trim_chars(&stripped)
        },
        None => Vec::new(),
    };
    let arxiv_id = copy_range(e, abs.2, abs.3);
    let year = item_year_exec(e, &arxiv_id);
    let link = copy_range(e, abs.0, abs.1);
    let url = absolute_arxiv_url(&link);
    let pdf_url = match first_group_exec(Pattern::Pdf, e) {
        Some(t) => absolute_arxiv_url(&t),
        None => Vec::new(),
    };
    let abstract_text = match first_group_exec(Pattern::Abstract, e) {
        Some(t) => clean_html_text(&t),
        None => Vec::new(),
    };
    let r = ArxivResult {
        title: string_of(&title),
        authors: string_of(&authors),
        year: string_of(&year),
        doi: String::new(),
        url: string_of(&url),
        pdf_url: string_of(&pdf_url),
        abstract_text: string_of(&abstract_text),
    };
    assert(authors@ == html_record(e@).unwrap().authors);
    assert(pdf_url@ == html_record(e@).unwrap().pdf_url);
    assert(abstract_text@ == html_record(e@).unwrap().abstract_text);
    Some(r)
}

/// A link made absolute starts with `http://` or `https://`.
pub proof fn lemma_absolute_url(v: Seq<char>)
    ensures
        starts_with(absolute_url(v), http_prefix()) || starts_with(absolute_url(v), https_prefix()),
{
    let d = decode_html(trim(v));
    if !(starts_with(d, http_prefix()) || starts_with(d, https_prefix())) {
        assert((arxiv_origin() + d).subrange(0, 8) =~= https_prefix());
    }
}

/// A web link: it starts with `http://` or `https://`.
pub open spec fn is_web_link(u: Seq<char>) -> bool {
    starts_with(u, http_prefix()) || starts_with(u, https_prefix())
}

/// The results read from result items have a title, no DOI, a web link to
/// the abstract page and no PDF link or a web one; title, authors and
/// abstract are words separated by single spaces; there are no more results
/// than items.
pub proof fn lemma_html_records_shape(html: Seq<char>, ms: Seq<Match>)
    ensures
        html_records_of(html, ms).len() <= ms.len(),
        forall|i: int|
            0 <= i < html_records_of(html, ms).len() ==> {
                let r = #[trigger] html_records_of(html, ms)[i];
                &&& r.title.len() > 0
                &&& r.doi.len() == 0
                &&& is_web_link(r.url)
                &&& (r.pdf_url.len() == 0 || is_web_link(r.pdf_url))
                &&& is_tidy(r.title)
                &&& is_tidy(r.authors)
                &&& is_tidy(r.abstract_text)
            },
    decreases ms.len(),
{
    if ms.len() > 0 {
        lemma_html_records_shape(html, ms.drop_last());
        let e = group1(html, ms.last());
        match first_match(Pattern::Abs, e, 0) {
            Some(abs) => {
                lemma_absolute_url(group1(e, abs));
                match first_group_or_empty(Pattern::Pdf, e) {
                    Some(t) => lemma_absolute_url(t),
                    None => {},
                }
                match first_group_or_empty(Pattern::HtmlTitle, e) {
                    Some(t) => lemma_collapse_ws_tidy(decode_html(strip_tags(t))),
                    None => {},
                }
                match first_group_or_empty(Pattern::HtmlAuthors, e) {
                    Some(t) => {
                        let c = clean_html(t);
                        lemma_collapse_ws_tidy(decode_html(strip_tags(t)));
                        let k = lemma_strip_prefix_all_tail(c, "Authors:"@);
                        lemma_single_spaced_subrange(c, k, c.len() as int);
                        lemma_trim_tidy(strip_prefix_all(c, "Authors:"@));
                    },
                    None => {},
                }
                match first_group_or_empty(Pattern::Abstract, e) {
                    Some(t) => lemma_collapse_ws_tidy(decode_html(strip_tags(t))),
                    None => {},
                }
            },
            None => {},
        }
    }
}

/// The text of each `<li class="arxiv-result">` item of a page, in order.
pub open spec fn html_blocks(html: Seq<char>) -> Seq<Seq<char>> {
    all_matches(Pattern::Result, html, 0).map_values(|m: Match| group1(html, m))
}

proof fn lemma_html_records_present(html: Seq<char>, ms: Seq<Match>)
    ensures
        html_records_of(html, ms) == present(
            ms.map_values(|m: Match| group1(html, m)).map_values(|e: Seq<char>| html_record(e)),
        ),
    decreases ms.len(),
{
    let opts = ms.map_values(|m: Match| group1(html, m)).map_values(|e: Seq<char>| html_record(e));
    if ms.len() > 0 {
        lemma_html_records_present(html, ms.drop_last());
        assert(opts.drop_last() =~= ms.drop_last().map_values(|m: Match| group1(html, m)).map_values(
            |e: Seq<char>| html_record(e),
        ));
        assert(opts.last() == html_record(group1(html, ms.last())));
    } else {
        assert(opts.len() == 0);
    }
}

/// The law of reading a search page: one result for each result item that
/// has one, in the order of the items (`present`, `lemma_present`); an item
/// gives none exactly when it has no `arXiv:` abstract link or an empty
/// title; every result has a title, no DOI, a web link to its abstract page,
/// no PDF link or a web one, and title, authors and abstract made of words
/// separated by single spaces.
pub proof fn lemma_html_page(html: Seq<char>)
    ensures
        html_records(html) == present(html_blocks(html).map_values(|e: Seq<char>| html_record(e))),
        forall|e: Seq<char>|
            (#[trigger] html_record(e)) is None <==> (first_match(Pattern::Abs, e, 0) is None
                || html_title(e).len() == 0),
        forall|i: int|
            0 <= i < html_records(html).len() ==> {
                let r = #[trigger] html_records(html)[i];
                &&& r.title.len() > 0
                &&& r.doi.len() == 0
                &&& is_web_link(r.url)
                &&& (r.pdf_url.len() == 0 || is_web_link(r.pdf_url))
                &&& is_tidy(r.title)
                &&& is_tidy(r.authors)
                &&& is_tidy(r.abstract_text)
            },
{
    lemma_html_records_present(html, all_matches(Pattern::Result, html, 0));
    lemma_html_records_shape(html, all_matches(Pattern::Result, html, 0));
}

/// Reads the results out of an arXiv search page (`html_records`): at most
/// one per result item, each with a title, no DOI, a web link to its abstract
/// page and no PDF link or a web one, and title, authors and abstract made of
/// words separated by single spaces.
pub fn parse_search_html_results(html: &str) -> (r: Vec<ArxivResult>)
    ensures
        result_views(r@) == html_records(html@),
        r@.len() <= all_matches(Pattern::Result, html@, 0).len(),
        forall|i: int|
            0 <= i < r@.len() ==> {
                let p = #[trigger] r@[i];
                &&& p.title@.len() > 0
                &&& p.doi@.len() == 0
                &&& is_web_link(p.url@)
                &&& (p.pdf_url@.len() == 0 || is_web_link(p.pdf_url@))
                &&& is_tidy(p.title@)
                &&& is_tidy(p.authors@)
                &&& is_tidy(p.abstract_text@)
            },
{
    let s = chars_of(html);
    let ms = all_matches_exec(Pattern::Result, &s);
    let ghost gms = all_matches(Pattern::Result, s@, 0);
    let mut out: Vec<ArxivResult> = Vec::new();
    let mut n: usize = 0;
    while n < ms.len()
        invariant
            n <= ms.len(),
            ms@.map_values(|m: MatchIdx| idx(m)) == gms,
            forall|k: int|
                0 <= k < ms@.len() ==> (#[trigger] ms@[k]).0 <= ms@[k].1 <= s.len(),
            result_views(out@) == html_records_of(s@, gms.take(n as int)),
        decreases ms.len() - n,
    {
        let m = ms[n];
        assert(gms[n as int] == idx(m));
        assert(gms.take(n + 1).drop_last() =~= gms.take(n as int));
        let e = copy_range(&s, m.0, m.1);
        match html_record_exec(&e) {
            Some(rec) => {
                let ghost before = out@;
                out.push(rec);
                assert(result_views(out@) =~= result_views(before).push(out@.last()@));
            },
            None => {},
        }
        n = n + 1;
    }
    assert(gms.take(ms@.len() as int) =~= gms);
    assert(result_views(out@).len() == out@.len());
    proof {
        lemma_html_records_shape(html@, gms);
    }
    assert forall|i: int| 0 <= i < out@.len() implies {
        let p = #[trigger] out@[i];
        &&& p.title@.len() > 0
        &&& p.doi@.len() == 0
        &&& is_web_link(p.url@)
        &&& (p.pdf_url@.len() == 0 || is_web_link(p.pdf_url@))
        &&& is_tidy(p.title@)
        &&& is_tidy(p.authors@)
        &&& is_tidy(p.abstract_text@)
    } by {
        assert(result_views(out@)[i] == out@[i]@);
        assert(html_records_of(html@, gms)[i] == out@[i]@);
    }
    out
}

} // verus!
