//! The fixed patterns by which arXiv's Atom feed and search page are read,
//! and leftmost, non-overlapping matching of them.
//!
//! Each pattern is given by what it matches at a position: the bounds of its
//! captured groups and the end of the match. A search takes the leftmost
//! position at which the pattern matches, and a scan continues after the end
//! of each match, as the regular-expression searches for the same patterns
//! do (lazy groups end at the first closing text that lets the rest match;
//! greedy white-space runs take all the white space).
use vstd::prelude::*;
use crate::text::{
    chars_of, find, find_from, is_white_space, is_whitespace, matches_at, occurs_at,
    regex_digit_char, is_regex_digit,
};
use crate::arxiv::query::{word_boundary};

verus! {

broadcast use vstd::string::group_string_axioms;

/// The patterns read from arXiv responses.
#[derive(Clone, Copy, Debug)]
pub enum Pattern {
    /// `<entry>(.*?)</entry>`
    Entry,
    /// `<title>(.*?)</title>`
    Title,
    /// `<summary>(.*?)</summary>`
    Summary,
    /// `<published>(.*?)</published>`
    Published,
    /// `<id>(.*?)</id>`
    Id,
    /// `<arxiv:doi[^>]*>(.*?)</arxiv:doi>`
    Doi,
    /// `<author>\s*<name>(.*?)</name>\s*</author>`
    Author,
    /// `<link\b([^>]*)>`
    Link,
    /// `<li class="arxiv-result">(.*?)</li>`
    Result,
    /// `<p class="list-title[^"]*"[^>]*>\s*<a href="([^"]+)">arXiv:([^<]+)</a>`
    Abs,
    /// `<a href="([^"]+)">pdf</a>`
    Pdf,
    /// `<p class="title is-5 mathjax">\s*(.*?)\s*</p>`
    HtmlTitle,
    /// `<p class="authors">\s*(.*?)\s*</p>`
    HtmlAuthors,
    /// `<span class="abstract-full[^"]*"[^>]*>\s*(.*?)\s*<a class="is-size-7"`
    Abstract,
    /// `<p class="is-size-7">(.*?)</p>`
    Date,
    /// `\b((?:19|20)\d{2})\b`
    Year,
}

/// A match: the bounds of the first group, the bounds of the second group
/// (the first again for one-group patterns) and the end of the match.
pub type Match = (int, int, int, int, int);

/// The first index `>= i` that is not white space (or the end of `s`).
pub open spec fn ws_end(s: Seq<char>, i: int) -> int
    decreases s.len() - i,
{
    if i < 0 || i >= s.len() || !is_white_space(s[i]) {
        i
    } else {
        ws_end(s, i + 1)
    }
}

/// `open(.*?)close` at `i`.
pub open spec fn lazy_at(s: Seq<char>, i: int, open: Seq<char>, close: Seq<char>) -> Option<
    Match,
> {
    if occurs_at(s, i, open) {
        match find_from(s, close, i + open.len()) {
            Some(j) => Some((i + open.len(), j, i + open.len(), j, j + close.len())),
            None => None,
        }
    } else {
        None
    }
}

/// The least `m >= from` such that `close` follows the white space that
/// starts at `m`: where a lazy group followed by `\s*close` ends.
pub open spec fn lazy_ws_close(s: Seq<char>, from: int, close: Seq<char>) -> Option<int>
    decreases s.len() + 1 - from,
{
    if from < 0 || from > s.len() {
        None
    } else if occurs_at(s, ws_end(s, from), close) {
        Some(from)
    } else {
        lazy_ws_close(s, from + 1, close)
    }
}

/// `\s*(.*?)\s*close` from `k`.
pub open spec fn padded_from(s: Seq<char>, k: int, close: Seq<char>) -> Option<Match> {
    let start = ws_end(s, k);
    match lazy_ws_close(s, start, close) {
        Some(m) => Some((start, m, start, m, ws_end(s, m) + close.len())),
        None => None,
    }
}

/// `open\s*(.*?)\s*close` at `i`.
pub open spec fn padded_at(s: Seq<char>, i: int, open: Seq<char>, close: Seq<char>) -> Option<
    Match,
> {
    if occurs_at(s, i, open) {
        padded_from(s, i + open.len(), close)
    } else {
        None
    }
}

/// The index just after the `>` that ends the attributes `[^"]*"[^>]*>`
/// that follow index `k`.
pub open spec fn after_attrs(s: Seq<char>, k: int) -> Option<int> {
    match find_from(s, seq!['"'], k) {
        Some(q) => match find_from(s, seq!['>'], q + 1) {
            Some(g) => Some(g + 1),
            None => None,
        },
        None => None,
    }
}

/// `<arxiv:doi[^>]*>(.*?)</arxiv:doi>` at `i`.
pub open spec fn doi_at(s: Seq<char>, i: int) -> Option<Match> {
    let open = "<arxiv:doi"@;
    let close = "</arxiv:doi>"@;
    if occurs_at(s, i, open) {
        match find_from(s, seq!['>'], i + open.len()) {
            Some(g) => match find_from(s, close, g + 1) {
                Some(j) => Some((g + 1, j, g + 1, j, j + close.len())),
                None => None,
            },
            None => None,
        }
    } else {
        None
    }
}

/// The least `j >= from` at which `</name>`, white space and `</author>`
/// follow each other, with the end of that text.
pub open spec fn author_close(s: Seq<char>, from: int) -> Option<(int, int)>
    decreases s.len() + 1 - from,
{
    let name_close = "</name>"@;
    let author_close_tag = "</author>"@;
    if from < 0 || from > s.len() {
        None
    } else if occurs_at(s, from, name_close) && occurs_at(
        s,
        ws_end(s, from + name_close.len()),
        author_close_tag,
    ) {
        Some((from, ws_end(s, from + name_close.len()) + author_close_tag.len()))
    } else {
        author_close(s, from + 1)
    }
}

/// `<author>\s*<name>(.*?)</name>\s*</author>` at `i`.
pub open spec fn author_at(s: Seq<char>, i: int) -> Option<Match> {
    let open = "<author>"@;
    let name_open = "<name>"@;
    if occurs_at(s, i, open) && occurs_at(s, ws_end(s, i + open.len()), name_open) {
        let c = ws_end(s, i + open.len()) + name_open.len();
        match author_close(s, c) {
            Some((j, e)) => Some((c, j, c, j, e)),
            None => None,
        }
    } else {
        None
    }
}

/// `<link\b([^>]*)>` at `i`.
pub open spec fn link_at(s: Seq<char>, i: int) -> Option<Match> {
    let open = "<link"@;
    if occurs_at(s, i, open) && word_boundary(s, i + open.len()) {
        match find_from(s, seq!['>'], i + open.len()) {
            Some(g) => Some((i + open.len(), g, i + open.len(), g, g + 1)),
            None => None,
        }
    } else {
        None
    }
}

/// `<p class="list-title[^"]*"[^>]*>\s*<a href="([^"]+)">arXiv:([^<]+)</a>`
/// at `i`.
pub open spec fn abs_at(s: Seq<char>, i: int) -> Option<Match> {
    let open = "<p class=\"list-title"@;
    let anchor = "<a href=\""@;
    let mid = "\">arXiv:"@;
    let close = "</a>"@;
    if occurs_at(s, i, open) {
        match after_attrs(s, i + open.len()) {
            Some(g) => {
                let k = ws_end(s, g);
                if occurs_at(s, k, anchor) {
                    let h0 = k + anchor.len();
                    match find_from(s, seq!['"'], h0) {
                        Some(h) => if h > h0 && occurs_at(s, h, mid) {
                            match find_from(s, seq!['<'], h + mid.len()) {
                                Some(m) => if m > h + mid.len() && occurs_at(s, m, close) {
                                    Some((h0, h, h + mid.len(), m, m + close.len()))
                                } else {
                                    None
                                },
                                None => None,
                            }
                        } else {
                            None
                        },
                        None => None,
                    }
                } else {
                    None
                }
            },
            None => None,
        }
    } else {
        None
    }
}

/// `<a href="([^"]+)">pdf</a>` at `i`.
pub open spec fn pdf_at(s: Seq<char>, i: int) -> Option<Match> {
    let anchor = "<a href=\""@;
    let tail = "\">pdf</a>"@;
    if occurs_at(s, i, anchor) {
        let h0 = i + anchor.len();
        match find_from(s, seq!['"'], h0) {
            Some(h) => if h > h0 && occurs_at(s, h, tail) {
                Some((h0, h, h0, h, h + tail.len()))
            } else {
                None
            },
            None => None,
        }
    } else {
        None
    }
}

/// `<span class="abstract-full[^"]*"[^>]*>\s*(.*?)\s*<a class="is-size-7"`
/// at `i`.
pub open spec fn abstract_at(s: Seq<char>, i: int) -> Option<Match> {
    let open = "<span class=\"abstract-full"@;
    let close = "<a class=\"is-size-7\""@;
    if occurs_at(s, i, open) {
        match after_attrs(s, i + open.len()) {
            Some(g) => padded_from(s, g, close),
            None => None,
        }
    } else {
        None
    }
}

/// `\b((?:19|20)\d{2})\b` at `i`.
pub open spec fn year_at(s: Seq<char>, i: int) -> Option<Match> {
    if word_boundary(s, i) && (occurs_at(s, i, "19"@) || occurs_at(s, i, "20"@)) && i + 4
        <= s.len() && regex_digit_char(s[i + 2]) && regex_digit_char(s[i + 3])
        && word_boundary(s, i + 4) {
        Some((i, i + 4, i, i + 4, i + 4))
    } else {
        None
    }
}

/// What `p` matches at index `i` of `s`.
pub open spec fn match_at(p: Pattern, s: Seq<char>, i: int) -> Option<Match> {
    match p {
        Pattern::Entry => lazy_at(s, i, "<entry>"@, "</entry>"@),
        Pattern::Title => lazy_at(s, i, "<title>"@, "</title>"@),
        Pattern::Summary => lazy_at(s, i, "<summary>"@, "</summary>"@),
        Pattern::Published => lazy_at(s, i, "<published>"@, "</published>"@),
        Pattern::Id => lazy_at(s, i, "<id>"@, "</id>"@),
        Pattern::Doi => doi_at(s, i),
        Pattern::Author => author_at(s, i),
        Pattern::Link => link_at(s, i),
        Pattern::Result => lazy_at(s, i, "<li class=\"arxiv-result\">"@, "</li>"@),
        Pattern::Abs => abs_at(s, i),
        Pattern::Pdf => pdf_at(s, i),
        Pattern::HtmlTitle => padded_at(s, i, "<p class=\"title is-5 mathjax\">"@, "</p>"@),
        Pattern::HtmlAuthors => padded_at(s, i, "<p class=\"authors\">"@, "</p>"@),
        Pattern::Abstract => abstract_at(s, i),
        Pattern::Date => lazy_at(s, i, "<p class=\"is-size-7\">"@, "</p>"@),
        Pattern::Year => year_at(s, i),
    }
}

/// A match of `p` at `i` that ends after `i` and within `s`.
pub open spec fn advancing_match(p: Pattern, s: Seq<char>, i: int) -> Option<Match> {
    match match_at(p, s, i) {
        Some(m) => if i < m.4 <= s.len() && 0 <= m.0 <= m.1 <= s.len() && 0 <= m.2 <= m.3
            <= s.len() {
            Some(m)
        } else {
            None
        },
        None => None,
    }
}

/// The leftmost match of `p` at or after `from`.
pub open spec fn first_match(p: Pattern, s: Seq<char>, from: int) -> Option<Match>
    decreases s.len() - from,
{
    if from < 0 || from >= s.len() {
        None
    } else {
        match advancing_match(p, s, from) {
            Some(m) => Some(m),
            None => first_match(p, s, from + 1),
        }
    }
}

/// All matches of `p` from `from` on, left to right without overlap.
pub open spec fn all_matches(p: Pattern, s: Seq<char>, from: int) -> Seq<Match>
    decreases s.len() - from,
{
    if from < 0 || from >= s.len() {
        Seq::empty()
    } else {
        match advancing_match(p, s, from) {
            Some(m) => seq![m] + all_matches(p, s, m.4),
            None => all_matches(p, s, from + 1),
        }
    }
}

/// The text of the first group of `m`.
pub open spec fn group1(s: Seq<char>, m: Match) -> Seq<char> {
    s.subrange(m.0, m.1)
}

/// The text of the second group of `m`.
pub open spec fn group2(s: Seq<char>, m: Match) -> Seq<char> {
    s.subrange(m.2, m.3)
}

// ---------------------------------------------------------------------------
// Executable matching
// ---------------------------------------------------------------------------

/// A match as indices.
pub type MatchIdx = (usize, usize, usize, usize, usize);

/// The ghost view of a match.
pub open spec fn idx(m: MatchIdx) -> Match {
    (m.0 as int, m.1 as int, m.2 as int, m.3 as int, m.4 as int)
}

/// `ws_end(s, i)`.
pub fn ws_end_exec(s: &Vec<char>, i: usize) -> (k: usize)
    requires
        i <= s.len(),
    ensures
        k == ws_end(s@, i as int),
        i <= k <= s.len(),
{
    let mut k = i;
    while k < s.len() && is_whitespace(s[k])
        invariant
            i <= k <= s.len(),
            ws_end(s@, i as int) == ws_end(s@, k as int),
        decreases s.len() - k,
    {
        k = k + 1;
    }
    k
}

fn find_char(s: &Vec<char>, c: char, from: usize) -> (r: Option<usize>)
    ensures
        r matches Some(j) ==> find_from(s@, seq![c], from as int) == Some(j as int) && j < s.len(),
        r is None ==> find_from(s@, seq![c], from as int) is None,
{
    let mut cv: Vec<char> = Vec::new();
    cv.push(c);
    assert(cv@ =~= seq![c]);
    let r = find(s, &cv, from);
    proof {
        crate::text::lemma_find_from(s@, seq![c], from as int);
    }
    r
}

fn lazy_at_exec(s: &Vec<char>, i: usize, open: &str, close: &str) -> (r: Option<MatchIdx>)
    ensures
        r matches Some(m) ==> lazy_at(s@, i as int, open@, close@) == Some(idx(m)),
        r is None ==> lazy_at(s@, i as int, open@, close@) is None,
{
    let o = chars_of(open);
    let c = chars_of(close);
    if !matches_at(s, i, &o) {
        return None;
    }
    let o_len = o.len();
    assert(i + o_len <= s.len());
    match find(s, &c, i + o_len) {
        Some(j) => {
            proof {
                crate::text::lemma_find_from(s@, c@, i + o@.len());
            }
            Some((i + o_len, j, i + o_len, j, j + c.len()))
        },
        None => None,
    }
}

fn lazy_ws_close_exec(s: &Vec<char>, from: usize, close: &Vec<char>) -> (r: Option<usize>)
    requires
        from <= s.len(),
    ensures
        r matches Some(m) ==> lazy_ws_close(s@, from as int, close@) == Some(m as int) && m
            <= s.len(),
        r is None ==> lazy_ws_close(s@, from as int, close@) is None,
{
    let mut m = from;
    loop
        invariant
            from <= m <= s.len(),
            lazy_ws_close(s@, from as int, close@) == lazy_ws_close(s@, m as int, close@),
        decreases s.len() - m,
    {
        let k = ws_end_exec(s, m);
        if matches_at(s, k, close) {
            return Some(m);
        }
        if m == s.len() {
            assert(lazy_ws_close(s@, m + 1, close@) is None);
            return None;
        }
        m = m + 1;
    }
}

fn padded_from_exec(s: &Vec<char>, k: usize, close: &Vec<char>) -> (r: Option<MatchIdx>)
    requires
        k <= s.len(),
    ensures
        r matches Some(m) ==> padded_from(s@, k as int, close@) == Some(idx(m)),
        r is None ==> padded_from(s@, k as int, close@) is None,
{
    let start = ws_end_exec(s, k);
    match lazy_ws_close_exec(s, start, close) {
        Some(m) => {
            let e = ws_end_exec(s, m);
            if matches_at(s, e, close) {
                Some((start, m, start, m, e + close.len()))
            } else {
                proof {
                    assert(false) by {
                        lemma_lazy_ws_close(s@, start as int, close@);
                    }
                }
                None
            }
        },
        None => None,
    }
}

proof fn lemma_lazy_ws_close(s: Seq<char>, from: int, close: Seq<char>)
    ensures
        lazy_ws_close(s, from, close) matches Some(m) ==> occurs_at(s, ws_end(s, m), close),
    decreases s.len() + 1 - from,
{
    if 0 <= from <= s.len() && !occurs_at(s, ws_end(s, from), close) {
        lemma_lazy_ws_close(s, from + 1, close);
    }
}

fn padded_at_exec(s: &Vec<char>, i: usize, open: &str, close: &str) -> (r: Option<MatchIdx>)
    ensures
        r matches Some(m) ==> padded_at(s@, i as int, open@, close@) == Some(idx(m)),
        r is None ==> padded_at(s@, i as int, open@, close@) is None,
{
    let o = chars_of(open);
    let c = chars_of(close);
    if !matches_at(s, i, &o) {
        return None;
    }
    let o_len = o.len();
    assert(i + o_len <= s.len());
    padded_from_exec(s, i + o_len, &c)
}

fn after_attrs_exec(s: &Vec<char>, k: usize) -> (r: Option<usize>)
    ensures
        r matches Some(g) ==> after_attrs(s@, k as int) == Some(g as int) && g <= s.len(),
        r is None ==> after_attrs(s@, k as int) is None,
{
    match find_char(s, '"', k) {
        Some(q) => match find_char(s, '>', q + 1) {
            Some(g) => Some(g + 1),
            None => None,
        },
        None => None,
    }
}

fn doi_at_exec(s: &Vec<char>, i: usize) -> (r: Option<MatchIdx>)
    ensures
        r matches Some(m) ==> doi_at(s@, i as int) == Some(idx(m)),
        r is None ==> doi_at(s@, i as int) is None,
{
    let open = chars_of("<arxiv:doi");
    let close = chars_of("</arxiv:doi>");
    if !matches_at(s, i, &open) {
        return None;
    }
    let open_len = open.len();
    assert(i + open_len <= s.len());
    match find_char(s, '>', i + open_len) {
        Some(g) => match find(s, &close, g + 1) {
            Some(j) => {
                proof {
                    crate::text::lemma_find_from(s@, close@, g + 1);
                }
                Some((g + 1, j, g + 1, j, j + close.len()))
            },
            None => None,
        },
        None => None,
    }
}

fn author_close_exec(s: &Vec<char>, from: usize) -> (r: Option<(usize, usize)>)
    requires
        from <= s.len(),
    ensures
        r matches Some(p) ==> author_close(s@, from as int) == Some((p.0 as int, p.1 as int)),
        r is None ==> author_close(s@, from as int) is None,
{
    let name_close = chars_of("</name>");
    let author_close_tag = chars_of("</author>");
    let mut j = from;
    loop
        invariant
            from <= j <= s.len(),
            name_close@ == "</name>"@,
            author_close_tag@ == "</author>"@,
            author_close(s@, from as int) == author_close(s@, j as int),
        decreases s.len() - j,
    {
        if matches_at(s, j, &name_close) {
            let nl = name_close.len();
            assert(j + nl <= s.len());
            let e = ws_end_exec(s, j + nl);
            if matches_at(s, e, &author_close_tag) {
                let al = author_close_tag.len();
                assert(e + al <= s.len());
                return Some((j, e + al));
            }
        }
        if j == s.len() {
            assert(author_close(s@, j + 1) is None);
            return None;
        }
        j = j + 1;
    }
}

fn author_at_exec(s: &Vec<char>, i: usize) -> (r: Option<MatchIdx>)
    ensures
        r matches Some(m) ==> author_at(s@, i as int) == Some(idx(m)),
        r is None ==> author_at(s@, i as int) is None,
{
    let open = chars_of("<author>");
    let name_open = chars_of("<name>");
    if !matches_at(s, i, &open) {
        return None;
    }
    let open_len = open.len();
    assert(i + open_len <= s.len());
    let k = ws_end_exec(s, i + open_len);
    if !matches_at(s, k, &name_open) {
        return None;
    }
    let c = k + name_open.len();
    match author_close_exec(s, c) {
        Some((j, e)) => Some((c, j, c, j, e)),
        None => None,
    }
}

fn link_at_exec(s: &Vec<char>, i: usize) -> (r: Option<MatchIdx>)
    ensures
        r matches Some(m) ==> link_at(s@, i as int) == Some(idx(m)),
        r is None ==> link_at(s@, i as int) is None,
{
    let open = chars_of("<link");
    if !matches_at(s, i, &open) {
        return None;
    }
    let open_len = open.len();
    assert(i + open_len <= s.len());
    let b = crate::arxiv::query::word_boundary_at(s, i + open_len);
    if !b {
        return None;
    }
    match find_char(s, '>', i + open_len) {
        Some(g) => Some((i + open_len, g, i + open_len, g, g + 1)),
        None => None,
    }
}

fn abs_at_exec(s: &Vec<char>, i: usize) -> (r: Option<MatchIdx>)
    ensures
        r matches Some(m) ==> abs_at(s@, i as int) == Some(idx(m)),
        r is None ==> abs_at(s@, i as int) is None,
{
    let open = chars_of("<p class=\"list-title");
    let anchor = chars_of("<a href=\"");
    let mid = chars_of("\">arXiv:");
    let close = chars_of("</a>");
    if !matches_at(s, i, &open) {
        return None;
    }
    let open_len = open.len();
    assert(i + open_len <= s.len());
    let g = match after_attrs_exec(s, i + open_len) {
        Some(g) => g,
        None => return None,
    };
    let k = ws_end_exec(s, g);
    if !matches_at(s, k, &anchor) {
        return None;
    }
    let h0 = k + anchor.len();
    let h = match find_char(s, '"', h0) {
        Some(h) => h,
        None => return None,
    };
    if !(h > h0 && matches_at(s, h, &mid)) {
        return None;
    }
    let m = match find_char(s, '<', h + mid.len()) {
        Some(m) => m,
        None => return None,
    };
    if !(m > h + mid.len() && matches_at(s, m, &close)) {
        return None;
    }
    Some((h0, h, h + mid.len(), m, m + close.len()))
}

fn pdf_at_exec(s: &Vec<char>, i: usize) -> (r: Option<MatchIdx>)
    ensures
        r matches Some(m) ==> pdf_at(s@, i as int) == Some(idx(m)),
        r is None ==> pdf_at(s@, i as int) is None,
{
    let anchor = chars_of("<a href=\"");
    let tail = chars_of("\">pdf</a>");
    if !matches_at(s, i, &anchor) {
        return None;
    }
    let anchor_len = anchor.len();
    assert(i + anchor_len <= s.len());
    let h0 = i + anchor_len;
    match find_char(s, '"', h0) {
        Some(h) => {
            if h > h0 && matches_at(s, h, &tail) {
                Some((h0, h, h0, h, h + tail.len()))
            } else {
                None
            }
        },
        None => None,
    }
}

fn abstract_at_exec(s: &Vec<char>, i: usize) -> (r: Option<MatchIdx>)
    ensures
        r matches Some(m) ==> abstract_at(s@, i as int) == Some(idx(m)),
        r is None ==> abstract_at(s@, i as int) is None,
{
    let open = chars_of("<span class=\"abstract-full");
    let close = chars_of("<a class=\"is-size-7\"");
    if !matches_at(s, i, &open) {
        return None;
    }
    let open_len = open.len();
    assert(i + open_len <= s.len());
    match after_attrs_exec(s, i + open_len) {
        Some(g) => padded_from_exec(s, g, &close),
        None => None,
    }
}

fn year_at_exec(s: &Vec<char>, i: usize) -> (r: Option<MatchIdx>)
    ensures
        r matches Some(m) ==> year_at(s@, i as int) == Some(idx(m)),
        r is None ==> year_at(s@, i as int) is None,
{
    let nineteen = chars_of("19");
    let twenty = chars_of("20");
    if crate::arxiv::query::word_boundary_at(s, i) && (matches_at(s, i, &nineteen) || matches_at(
        s,
        i,
        &twenty,
    )) && i <= s.len() && 4 <= s.len() - i {
        if is_regex_digit(s[i + 2]) && is_regex_digit(s[i + 3])
            && crate::arxiv::query::word_boundary_at(s, i + 4) {
            return Some((i, i + 4, i, i + 4, i + 4));
        }
    }
    None
}

/// What `p` matches at `i` (`match_at`).
pub fn match_at_exec(p: Pattern, s: &Vec<char>, i: usize) -> (r: Option<MatchIdx>)
    ensures
        r matches Some(m) ==> match_at(p, s@, i as int) == Some(idx(m)),
        r is None ==> match_at(p, s@, i as int) is None,
{
    match p {
        Pattern::Entry => lazy_at_exec(s, i, "<entry>", "</entry>"),
        Pattern::Title => lazy_at_exec(s, i, "<title>", "</title>"),
        Pattern::Summary => lazy_at_exec(s, i, "<summary>", "</summary>"),
        Pattern::Published => lazy_at_exec(s, i, "<published>", "</published>"),
        Pattern::Id => lazy_at_exec(s, i, "<id>", "</id>"),
        Pattern::Doi => doi_at_exec(s, i),
        Pattern::Author => author_at_exec(s, i),
        Pattern::Link => link_at_exec(s, i),
        Pattern::Result => lazy_at_exec(s, i, "<li class=\"arxiv-result\">", "</li>"),
        Pattern::Abs => abs_at_exec(s, i),
        Pattern::Pdf => pdf_at_exec(s, i),
        Pattern::HtmlTitle => padded_at_exec(s, i, "<p class=\"title is-5 mathjax\">", "</p>"),
        Pattern::HtmlAuthors => padded_at_exec(s, i, "<p class=\"authors\">", "</p>"),
        Pattern::Abstract => abstract_at_exec(s, i),
        Pattern::Date => lazy_at_exec(s, i, "<p class=\"is-size-7\">", "</p>"),
        Pattern::Year => year_at_exec(s, i),
    }
}

/// `advancing_match(p, s, i)`.
pub fn advancing_match_exec(p: Pattern, s: &Vec<char>, i: usize) -> (r: Option<MatchIdx>)
    ensures
        r matches Some(m) ==> advancing_match(p, s@, i as int) == Some(idx(m)),
        r is None ==> advancing_match(p, s@, i as int) is None,
{
    match match_at_exec(p, s, i) {
        Some(m) => {
            if i < m.4 && m.4 <= s.len() && m.0 <= m.1 && m.1 <= s.len() && m.2 <= m.3 && m.3
                <= s.len() {
                Some(m)
            } else {
                None
            }
        },
        None => None,
    }
}

/// The leftmost match of `p` at or after `from` (`first_match`).
pub fn first_match_exec(p: Pattern, s: &Vec<char>, from: usize) -> (r: Option<MatchIdx>)
    ensures
        r matches Some(m) ==> first_match(p, s@, from as int) == Some(idx(m)) && m.0 <= m.1
            <= s.len() && m.2 <= m.3 <= s.len() && from < m.4 <= s.len(),
        r is None ==> first_match(p, s@, from as int) is None,
{
    let mut i = from;
    while i < s.len()
        invariant
            from <= i,
            first_match(p, s@, from as int) == first_match(p, s@, i as int),
        decreases s.len() - i,
    {
        match advancing_match_exec(p, s, i) {
            Some(m) => {
                return Some(m);
            },
            None => {},
        }
        i = i + 1;
    }
    None
}

/// All matches of `p` in `s` (`all_matches` from 0).
pub fn all_matches_exec(p: Pattern, s: &Vec<char>) -> (r: Vec<MatchIdx>)
    ensures
        r@.map_values(|m: MatchIdx| idx(m)) == all_matches(p, s@, 0),
        forall|k: int|
            0 <= k < r@.len() ==> (#[trigger] r@[k]).0 <= r@[k].1 <= s.len() && r@[k].2
                <= r@[k].3 <= s.len(),
{
    let mut out: Vec<MatchIdx> = Vec::new();
    let mut i: usize = 0;
    while i < s.len()
        invariant
            i <= s.len(),
            all_matches(p, s@, 0) == out@.map_values(|m: MatchIdx| idx(m)) + all_matches(
                p,
                s@,
                i as int,
            ),
            forall|k: int|
                0 <= k < out@.len() ==> (#[trigger] out@[k]).0 <= out@[k].1 <= s.len()
                    && out@[k].2 <= out@[k].3 <= s.len(),
        decreases s.len() - i,
    {
        match advancing_match_exec(p, s, i) {
            Some(m) => {
                let ghost before = out@.map_values(|m: MatchIdx| idx(m));
                out.push(m);
                assert(out@.map_values(|m: MatchIdx| idx(m)) =~= before.push(idx(m)));
                assert(out@.map_values(|m: MatchIdx| idx(m)) + all_matches(p, s@, m.4 as int)
                    =~= before + (seq![idx(m)] + all_matches(p, s@, m.4 as int)));
                i = m.4;
            },
            None => {
                i = i + 1;
            },
        }
    }
    assert(out@.map_values(|m: MatchIdx| idx(m)) + Seq::<Match>::empty() =~= out@.map_values(
        |m: MatchIdx| idx(m),
    ));
    out
}

} // verus!
