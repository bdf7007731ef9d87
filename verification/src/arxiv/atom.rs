//! Reading the arXiv API's Atom feed into normalized results.
use vstd::prelude::*;
use crate::arxiv::model::{present, result_views, ArxivResult, ResultView};
use crate::arxiv::query::{join, join_chars};
use crate::text::views;
use crate::arxiv::scan::{
    all_matches, all_matches_exec, first_match, first_match_exec, group1, idx, ws_end,
    ws_end_exec, Match, MatchIdx, Pattern,
};
use crate::digits::{byte_prefix, byte_prefix_chars};
use crate::markup::{decode_xml, decode_xml_chars, strip_tags, strip_tags_chars};
use crate::text::{
    chars_of, contains, contains_chars, chars_eq, copy_range, find_from, lemma_replace_char_removes,
    matches_at, occurs_at,
    replace_all, replace_chars, str_lowercase, string_of, to_lowercase, trim, trim_chars,
};

verus! {

broadcast use vstd::string::group_string_axioms;

/// Text captured by a group as the feed reader keeps it: tags stripped,
/// trimmed, entities decoded.
pub open spec fn captured_text(raw: Seq<char>) -> Seq<char> {
    decode_xml(trim(strip_tags(raw)))
}

/// The captured text of the first match of `p` in `s`, or empty.
pub open spec fn capture_first(p: Pattern, s: Seq<char>) -> Seq<char> {
    match first_match(p, s, 0) {
        Some(m) => captured_text(group1(s, m)),
        None => Seq::empty(),
    }
}

fn captured_text_exec(raw: &Vec<char>) -> (r: Vec<char>)
    ensures
        r@ == captured_text(raw@),
{
    let a = strip_tags_chars(raw);
    let b = trim_chars(&a);
    decode_xml_chars(&b)
}

fn capture_first_exec(p: Pattern, s: &Vec<char>) -> (r: Vec<char>)
    ensures
        r@ == capture_first(p, s@),
{
    match first_match_exec(p, s, 0) {
        Some(m) => {
            let raw = copy_range(s, m.0, m.1);
            captured_text_exec(&raw)
        },
        None => Vec::new(),
    }
}

// ---------------------------------------------------------------------------
// Attributes of link elements
// ---------------------------------------------------------------------------

/// `name\s*=\s*q([^q]*)q` at `p`: the bounds of the value.
pub open spec fn attr_at(s: Seq<char>, p: int, name: Seq<char>, q: char) -> Option<(int, int)> {
    if occurs_at(s, p, name) {
        let k = ws_end(s, p + name.len());
        if 0 <= k < s.len() && s[k] == '=' {
            let k2 = ws_end(s, k + 1);
            if 0 <= k2 < s.len() && s[k2] == q {
                match find_from(s, seq![q], k2 + 1) {
                    Some(j) => Some((k2 + 1, j)),
                    None => None,
                }
            } else {
                None
            }
        } else {
            None
        }
    } else {
        None
    }
}

/// The leftmost `attr_at` from `from` on.
pub open spec fn first_attr(s: Seq<char>, name: Seq<char>, q: char, from: int) -> Option<
    (int, int),
>
    decreases s.len() + 1 - from,
{
    if from < 0 || from > s.len() {
        None
    } else {
        match attr_at(s, from, name, q) {
            Some(b) => Some(b),
            None => first_attr(s, name, q, from + 1),
        }
    }
}

/// The decoded value of attribute `name` in an attribute list: the first
/// double-quoted occurrence, else the first single-quoted one.
pub open spec fn attr_value(attrs: Seq<char>, name: Seq<char>) -> Option<Seq<char>> {
    match first_attr(attrs, name, '"', 0) {
        Some((a, b)) => Some(decode_xml(attrs.subrange(a, b))),
        None => match first_attr(attrs, name, '\'', 0) {
            Some((a, b)) => Some(decode_xml(attrs.subrange(a, b))),
            None => None,
        },
    }
}

proof fn lemma_first_attr_bounds(s: Seq<char>, name: Seq<char>, q: char, from: int)
    ensures
        first_attr(s, name, q, from) matches Some((a, b)) ==> 0 <= a <= b <= s.len(),
    decreases s.len() + 1 - from,
{
    if 0 <= from <= s.len() {
        match attr_at(s, from, name, q) {
            Some(_) => {
                let k = ws_end(s, from + name.len());
                let k2 = ws_end(s, k + 1);
                crate::text::lemma_find_from(s, seq![q], k2 + 1);
            },
            None => lemma_first_attr_bounds(s, name, q, from + 1),
        }
    }
}

fn attr_at_exec(s: &Vec<char>, p: usize, name: &Vec<char>, q: char) -> (r: Option<(usize, usize)>)
    requires
        p <= s.len(),
    ensures
        r matches Some(b) ==> attr_at(s@, p as int, name@, q) == Some((b.0 as int, b.1 as int)),
        r is None ==> attr_at(s@, p as int, name@, q) is None,
{
    if !matches_at(s, p, name) {
        return None;
    }
    let nl = name.len();
    assert(p + nl <= s.len());
    let k = ws_end_exec(s, p + nl);
    if !(k < s.len() && s[k] == '=') {
        return None;
    }
    let k2 = ws_end_exec(s, k + 1);
    if !(k2 < s.len() && s[k2] == q) {
        return None;
    }
    let mut qv: Vec<char> = Vec::new();
    qv.push(q);
    assert(qv@ =~= seq![q]);
    match crate::text::find(s, &qv, k2 + 1) {
        Some(j) => Some((k2 + 1, j)),
        None => None,
    }
}

fn first_attr_exec(s: &Vec<char>, name: &Vec<char>, q: char) -> (r: Option<(usize, usize)>)
    ensures
        r matches Some(b) ==> first_attr(s@, name@, q, 0) == Some((b.0 as int, b.1 as int)),
        r is None ==> first_attr(s@, name@, q, 0) is None,
{
    let mut p: usize = 0;
    loop
        invariant
            p <= s.len(),
            first_attr(s@, name@, q, 0) == first_attr(s@, name@, q, p as int),
        decreases s.len() - p,
    {
        match attr_at_exec(s, p, name, q) {
            Some(b) => {
                return Some(b);
            },
            None => {},
        }
        if p == s.len() {
            assert(first_attr(s@, name@, q, p + 1) is None);
            return None;
        }
        p = p + 1;
    }
}

/// `attr_value(attrs, name)`.
pub fn attr_value_exec(attrs: &Vec<char>, name: &str) -> (r: Option<Vec<char>>)
    ensures
        r matches Some(v) ==> attr_value(attrs@, name@) == Some(v@),
        r is None ==> attr_value(attrs@, name@) is None,
{
    let n = chars_of(name);
    proof {
        lemma_first_attr_bounds(attrs@, n@, '"', 0);
        lemma_first_attr_bounds(attrs@, n@, '\'', 0);
    }
    match first_attr_exec(attrs, &n, '"') {
        Some((a, b)) => {
            let raw = copy_range(attrs, a, b);
            Some(decode_xml_chars(&raw))
        },
        None => match first_attr_exec(attrs, &n, '\'') {
            Some((a, b)) => {
                let raw = copy_range(attrs, a, b);
                Some(decode_xml_chars(&raw))
            },
            None => None,
        },
    }
}

// ---------------------------------------------------------------------------
// Links of an entry
// ---------------------------------------------------------------------------

/// An absent attribute read as empty text.
pub open spec fn or_empty(v: Option<Seq<char>>) -> Seq<char> {
    match v {
        Some(t) => t,
        None => Seq::empty(),
    }
}

/// One `<link>` element applied to the (alternate, pdf) URLs found so far:
/// the first `rel="alternate"` link gives the page URL, the first link
/// titled `pdf`, typed `application/pdf` or pointing into `/pdf/` gives the
/// PDF URL; links without `href` are skipped.
pub open spec fn link_step(attrs: Seq<char>, st: (Seq<char>, Seq<char>)) -> (Seq<char>, Seq<char>) {
    match attr_value(attrs, "href"@) {
        None => st,
        Some(href) => {
            let rel = str_lowercase(or_empty(attr_value(attrs, "rel"@)));
            let title = str_lowercase(or_empty(attr_value(attrs, "title"@)));
            let media = str_lowercase(or_empty(attr_value(attrs, "type"@)));
            let alt = if st.0.len() == 0 && rel == "alternate"@ {
                href
            } else {
                st.0
            };
            let pdf = if st.1.len() == 0 && (title == "pdf"@ || media == "application/pdf"@
                || contains(href, "/pdf/"@)) {
                href
            } else {
                st.1
            };
            (alt, pdf)
        },
    }
}

/// The (alternate, pdf) URLs after the first `n` link matches of `e`.
pub open spec fn link_urls_upto(e: Seq<char>, ms: Seq<Match>, n: int) -> (Seq<char>, Seq<char>)
    decreases n,
{
    if n <= 0 {
        (Seq::empty(), Seq::empty())
    } else {
        link_step(group1(e, ms[n - 1]), link_urls_upto(e, ms, n - 1))
    }
}

/// The (alternate, pdf) URLs of entry `e`.
pub open spec fn link_urls(e: Seq<char>) -> (Seq<char>, Seq<char>) {
    let ms = all_matches(Pattern::Link, e, 0);
    link_urls_upto(e, ms, ms.len() as int)
}

fn opt_lower(v: Option<Vec<char>>) -> (r: Vec<char>)
    ensures
        r@ == str_lowercase(or_empty(match v {
            Some(t) => Some(t@),
            None => None,
        })),
{
    match v {
        Some(t) => to_lowercase(&t),
        None => {
            let e: Vec<char> = Vec::new();
            assert(e@ =~= Seq::<char>::empty());
            to_lowercase(&e)
        },
    }
}

fn link_step_exec(attrs: &Vec<char>, alt: Vec<char>, pdf: Vec<char>) -> (r: (Vec<char>, Vec<char>))
    ensures
        (r.0@, r.1@) == link_step(attrs@, (alt@, pdf@)),
{
    let href = match attr_value_exec(attrs, "href") {
        Some(h) => h,
        None => {
            return (alt, pdf);
        },
    };
    let rel = opt_lower(attr_value_exec(attrs, "rel"));
    let title = opt_lower(attr_value_exec(attrs, "title"));
    let media = opt_lower(attr_value_exec(attrs, "type"));
    let alternate = chars_of("alternate");
    let pdf_word = chars_of("pdf");
    let pdf_type = chars_of("application/pdf");
    let pdf_dir = chars_of("/pdf/");
    let new_alt = if alt.len() == 0 && chars_eq(&rel, &alternate) {
        copy_range(&href, 0, href.len())
    } else {
        alt
    };
    proof {
        assert(href@.subrange(0, href@.len() as int) =~= href@);
    }
    let new_pdf = if pdf.len() == 0 && (chars_eq(&title, &pdf_word) || chars_eq(&media, &pdf_type)
        || contains_chars(&href, &pdf_dir)) {
        href
    } else {
        pdf
    };
    (new_alt, new_pdf)
}

fn link_urls_exec(e: &Vec<char>) -> (r: (Vec<char>, Vec<char>))
    ensures
        (r.0@, r.1@) == link_urls(e@),
{
    let ms = all_matches_exec(Pattern::Link, e);
    let ghost gms = all_matches(Pattern::Link, e@, 0);
    let mut alt: Vec<char> = Vec::new();
    let mut pdf: Vec<char> = Vec::new();
    let mut n: usize = 0;
    assert((alt@, pdf@) == link_urls_upto(e@, gms, 0));
    while n < ms.len()
        invariant
            n <= ms.len(),
            ms@.map_values(|m: MatchIdx| idx(m)) == gms,
            forall|k: int|
                0 <= k < ms@.len() ==> (#[trigger] ms@[k]).0 <= ms@[k].1 <= e.len(),
            (alt@, pdf@) == link_urls_upto(e@, gms, n as int),
        decreases ms.len() - n,
    {
        let m = ms[n];
        assert(gms[n as int] == idx(m));
        let attrs = copy_range(e, m.0, m.1);
        let (a2, p2) = link_step_exec(&attrs, alt, pdf);
        alt = a2;
        pdf = p2;
        n = n + 1;
    }
    (alt, pdf)
}

// ---------------------------------------------------------------------------
// Entries
// ---------------------------------------------------------------------------

/// The author names of entry `e`, in order.
pub open spec fn author_names(e: Seq<char>) -> Seq<Seq<char>> {
    all_matches(Pattern::Author, e, 0).map_values(|m: Match| captured_text(group1(e, m)))
}

/// One author name per `<author><name>...</name></author>` of the entry, in
/// order: name `i` is the text of match `i`, tags stripped and entities
/// decoded; the authors of the entry's result are these names joined by
/// `, `.
pub proof fn lemma_author_names(e: Seq<char>)
    ensures
        author_names(e).len() == all_matches(Pattern::Author, e, 0).len(),
        forall|i: int|
            0 <= i < all_matches(Pattern::Author, e, 0).len() ==> #[trigger] author_names(e)[i]
                == decode_xml(trim(strip_tags(group1(e, all_matches(Pattern::Author, e, 0)[i])))),
        atom_record(e).authors == join(author_names(e), ", "@),
{
}

/// Line breaks in a title or abstract turned into spaces.
pub open spec fn unbreak(s: Seq<char>) -> Seq<char> {
    replace_all(s, seq!['\n'], seq![' '])
}

/// The result read from the text `e` of one `<entry>`.
pub open spec fn atom_record(e: Seq<char>) -> ResultView {
    let published = capture_first(Pattern::Published, e);
    let id_url = capture_first(Pattern::Id, e);
    let links = link_urls(e);
    ResultView {
        title: unbreak(captured_text(capture_first(Pattern::Title, e))),
        authors: join(author_names(e), ", "@),
        year: match byte_prefix(published, 4) {
            Some(y) => y,
            None => Seq::empty(),
        },
        doi: decode_xml(trim(capture_first(Pattern::Doi, e))),
        url: if links.0.len() > 0 {
            links.0
        } else {
            id_url
        },
        pdf_url: links.1,
        abstract_text: unbreak(captured_text(capture_first(Pattern::Summary, e))),
    }
}

/// The records of the entries `ms` of `xml`, keeping those with a title.
pub open spec fn titled_records(xml: Seq<char>, ms: Seq<Match>) -> Seq<ResultView>
    decreases ms.len(),
{
    if ms.len() == 0 {
        Seq::empty()
    } else {
        let prev = titled_records(xml, ms.drop_last());
        let r = atom_record(group1(xml, ms.last()));
        if r.title.len() > 0 {
            prev.push(r)
        } else {
            prev
        }
    }
}

/// The results of an Atom feed: one per `<entry>...</entry>`, in order,
/// entries without a title left out.
pub open spec fn atom_records(xml: Seq<char>) -> Seq<ResultView> {
    titled_records(xml, all_matches(Pattern::Entry, xml, 0))
}

fn author_list(e: &Vec<char>) -> (r: Vec<char>)
    ensures
        r@ == join(author_names(e@), ", "@),
{
    let ms = all_matches_exec(Pattern::Author, e);
    let ghost gms = all_matches(Pattern::Author, e@, 0);
    let mut names: Vec<Vec<char>> = Vec::new();
    let mut n: usize = 0;
    while n < ms.len()
        invariant
            n <= ms.len(),
            ms@.map_values(|m: MatchIdx| idx(m)) == gms,
            forall|k: int|
                0 <= k < ms@.len() ==> (#[trigger] ms@[k]).0 <= ms@[k].1 <= e.len(),
            views(names@) == gms.take(n as int).map_values(
                |m: Match| captured_text(group1(e@, m)),
            ),
        decreases ms.len() - n,
    {
        let m = ms[n];
        assert(gms[n as int] == idx(m));
        let raw = copy_range(e, m.0, m.1);
        let t = captured_text_exec(&raw);
        let ghost before = names@;
        let ghost tv = t@;
        names.push(t);
        assert(views(names@) =~= views(before).push(tv));
        assert(gms.take(n + 1) =~= gms.take(n as int).push(gms[n as int]));
        assert(gms.take(n + 1).map_values(|m: Match| captured_text(group1(e@, m)))
            =~= gms.take(n as int).map_values(|m: Match| captured_text(group1(e@, m))).push(
            captured_text(group1(e@, gms[n as int])),
        ));
        n = n + 1;
    }
    assert(gms.take(ms@.len() as int) =~= gms);
    let sep = chars_of(", ");
    join_chars(&names, &sep)
}

fn unbreak_exec(s: &Vec<char>) -> (r: Vec<char>)
    ensures
        r@ == unbreak(s@),
{
    let nl = vec!['\n'];
    let sp = vec![' '];
    assert(nl@ =~= seq!['\n'] && sp@ =~= seq![' ']);
    replace_chars(s, &nl, &sp)
}

/// `atom_record(e)`.
pub fn atom_record_exec(e: &Vec<char>) -> (r: ArxivResult)
    ensures
        r@ == atom_record(e@),
{
    let title = capture_first_exec(Pattern::Title, e);
    let summary = capture_first_exec(Pattern::Summary, e);
    let published = capture_first_exec(Pattern::Published, e);
    let id_url = capture_first_exec(Pattern::Id, e);
    let doi = capture_first_exec(Pattern::Doi, e);
    let (alt, pdf) = link_urls_exec(e);
    let authors = author_list(e);
    let year = match byte_prefix_chars(&published, 4) {
        Some(y) => y,
        None => Vec::new(),
    };
    let clean_title = unbreak_exec(&captured_text_exec(&title));
    let clean_abstract = unbreak_exec(&captured_text_exec(&summary));
    let clean_doi = decode_xml_chars(&trim_chars(&doi));
    let url = if alt.len() > 0 {
        alt
    } else {
        id_url
    };
    let r = ArxivResult {
        title: string_of(&clean_title),
        authors: string_of(&authors),
        year: string_of(&year),
        doi: string_of(&clean_doi),
        url: string_of(&url),
        pdf_url: string_of(&pdf),
        abstract_text: string_of(&clean_abstract),
    };
    assert(year@ == atom_record(e@).year);
    r
}

/// The results read from entries have titles, titles and abstracts have no
/// line breaks, and there are no more results than entries.
pub proof fn lemma_titled_records_shape(xml: Seq<char>, ms: Seq<Match>)
    ensures
        titled_records(xml, ms).len() <= ms.len(),
        forall|i: int|
            0 <= i < titled_records(xml, ms).len() ==> {
                let r = #[trigger] titled_records(xml, ms)[i];
                &&& r.title.len() > 0
                &&& !r.title.contains('\n')
                &&& !r.abstract_text.contains('\n')
            },
    decreases ms.len(),
{
    if ms.len() > 0 {
        lemma_titled_records_shape(xml, ms.drop_last());
        let e = group1(xml, ms.last());
        lemma_replace_char_removes(captured_text(capture_first(Pattern::Title, e)), '\n', ' ');
        lemma_replace_char_removes(captured_text(capture_first(Pattern::Summary, e)), '\n', ' ');
    }
}

/// The link with attribute text `attrs` has an `href` and a `rel` of
/// `alternate` (in any case).
pub open spec fn is_alternate_link(attrs: Seq<char>) -> bool {
    &&& attr_value(attrs, "href"@) is Some
    &&& str_lowercase(or_empty(attr_value(attrs, "rel"@))) == "alternate"@
}

/// The page URL of an entry is the `href` of its first alternate link with a
/// non-empty `href`, or empty when it has none.
pub proof fn lemma_alternate_link(e: Seq<char>, ms: Seq<Match>, n: int)
    requires
        0 <= n <= ms.len(),
    ensures
        ({
            let a = link_urls_upto(e, ms, n).0;
            &&& a.len() > 0 ==> exists|k: int|
                0 <= k < n && is_alternate_link(group1(e, ms[k])) && attr_value(
                    group1(e, ms[k]),
                    "href"@,
                ) == Some(a) && forall|j: int|
                    0 <= j < k && is_alternate_link(#[trigger] group1(e, ms[j])) ==> attr_value(
                        group1(e, ms[j]),
                        "href"@,
                    )->0.len() == 0
            &&& a.len() == 0 ==> forall|j: int|
                0 <= j < n && is_alternate_link(#[trigger] group1(e, ms[j])) ==> attr_value(
                    group1(e, ms[j]),
                    "href"@,
                )->0.len() == 0
        }),
    decreases n,
{
    if n > 0 {
        lemma_alternate_link(e, ms, n - 1);
        let prev = link_urls_upto(e, ms, n - 1).0;
        let a = link_urls_upto(e, ms, n).0;
        if prev.len() > 0 {
            assert(a == prev);
            let k = choose|k: int|
                0 <= k < n - 1 && is_alternate_link(group1(e, ms[k])) && attr_value(
                    group1(e, ms[k]),
                    "href"@,
                ) == Some(prev) && forall|j: int|
                    0 <= j < k && is_alternate_link(#[trigger] group1(e, ms[j])) ==> attr_value(
                        group1(e, ms[j]),
                        "href"@,
                    )->0.len() == 0;
            assert(0 <= k < n && is_alternate_link(group1(e, ms[k])) && attr_value(
                group1(e, ms[k]),
                "href"@,
            ) == Some(a));
        } else if a.len() > 0 {
            assert(is_alternate_link(group1(e, ms[n - 1])));
            assert(attr_value(group1(e, ms[n - 1]), "href"@) == Some(a));
        } else {
            assert forall|j: int|
                0 <= j < n && is_alternate_link(#[trigger] group1(e, ms[j])) implies attr_value(
                group1(e, ms[j]),
                "href"@,
            )->0.len() == 0 by {
                if j == n - 1 {
                    assert(a == attr_value(group1(e, ms[n - 1]), "href"@)->0);
                }
            }
        }
    }
}

/// The text of each `<entry>...</entry>` of a feed, in order.
pub open spec fn atom_blocks(xml: Seq<char>) -> Seq<Seq<char>> {
    all_matches(Pattern::Entry, xml, 0).map_values(|m: Match| group1(xml, m))
}

/// The result read from an entry, when it has a title.
pub open spec fn titled_record(e: Seq<char>) -> Option<ResultView> {
    if atom_record(e).title.len() > 0 {
        Some(atom_record(e))
    } else {
        None
    }
}

proof fn lemma_titled_records_present(xml: Seq<char>, ms: Seq<Match>)
    ensures
        titled_records(xml, ms) == present(
            ms.map_values(|m: Match| group1(xml, m)).map_values(|e: Seq<char>| titled_record(e)),
        ),
    decreases ms.len(),
{
    let opts = ms.map_values(|m: Match| group1(xml, m)).map_values(|e: Seq<char>| titled_record(e));
    if ms.len() > 0 {
        lemma_titled_records_present(xml, ms.drop_last());
        assert(opts.drop_last() =~= ms.drop_last().map_values(|m: Match| group1(xml, m)).map_values(
            |e: Seq<char>| titled_record(e),
        ));
        assert(opts.last() == titled_record(group1(xml, ms.last())));
    } else {
        assert(opts.len() == 0);
    }
}

/// The law of reading a feed: one result for each entry with a title, in
/// the order of the entries (`present`, `lemma_present`); each result's
/// title is not empty and, like its abstract, has no line break. Of the
/// entry it comes from: the year is the first four bytes of the
/// `<published>` text (empty when there are fewer or they end inside a
/// character); the URL is the `href` of the first alternate link
/// (`lemma_alternate_link`), else the `<id>` text; title, authors, abstract
/// and DOI are taken with tags stripped and XML entities decoded
/// (`decode_xml`).
pub proof fn lemma_atom_feed(xml: Seq<char>)
    ensures
        atom_records(xml) == present(atom_blocks(xml).map_values(|e: Seq<char>| titled_record(e))),
        forall|i: int|
            0 <= i < atom_records(xml).len() ==> {
                let r = #[trigger] atom_records(xml)[i];
                &&& r.title.len() > 0
                &&& !r.title.contains('\n')
                &&& !r.abstract_text.contains('\n')
            },
        forall|e: Seq<char>|
            {
                let r = #[trigger] atom_record(e);
                &&& r.year == match byte_prefix(capture_first(Pattern::Published, e), 4) {
                    Some(y) => y,
                    None => Seq::empty(),
                }
                &&& r.url == if link_urls(e).0.len() > 0 {
                    link_urls(e).0
                } else {
                    capture_first(Pattern::Id, e)
                }
                &&& r.title == unbreak(captured_text(capture_first(Pattern::Title, e)))
                &&& r.abstract_text == unbreak(captured_text(capture_first(Pattern::Summary, e)))
                &&& r.authors == join(author_names(e), ", "@)
                &&& r.doi == decode_xml(trim(capture_first(Pattern::Doi, e)))
            },
{
    lemma_titled_records_present(xml, all_matches(Pattern::Entry, xml, 0));
    lemma_titled_records_shape(xml, all_matches(Pattern::Entry, xml, 0));
}

/// Reads the results out of an arXiv Atom feed (`atom_records`): at most one
/// per entry, each with a title; titles and abstracts have no line breaks.
pub fn parse_atom_entries(xml: &str) -> (r: Vec<ArxivResult>)
    ensures
        result_views(r@) == atom_records(xml@),
        r@.len() <= all_matches(Pattern::Entry, xml@, 0).len(),
        forall|i: int|
            0 <= i < r@.len() ==> {
                let p = #[trigger] r@[i];
                &&& p.title@.len() > 0
                &&& !p.title@.contains('\n')
                &&& !p.abstract_text@.contains('\n')
            },
{
    let s = chars_of(xml);
    let ms = all_matches_exec(Pattern::Entry, &s);
    let ghost gms = all_matches(Pattern::Entry, s@, 0);
    let mut out: Vec<ArxivResult> = Vec::new();
    let mut n: usize = 0;
    while n < ms.len()
        invariant
            n <= ms.len(),
            ms@.map_values(|m: MatchIdx| idx(m)) == gms,
            forall|k: int|
                0 <= k < ms@.len() ==> (#[trigger] ms@[k]).0 <= ms@[k].1 <= s.len(),
            result_views(out@) == titled_records(s@, gms.take(n as int)),
        decreases ms.len() - n,
    {
        let m = ms[n];
        assert(gms[n as int] == idx(m));
        assert(gms.take(n + 1).drop_last() =~= gms.take(n as int));
        let e = copy_range(&s, m.0, m.1);
        let rec = atom_record_exec(&e);
        if !rec.title.as_str().is_empty() {
            let ghost before = out@;
            out.push(rec);
            assert(result_views(out@) =~= result_views(before).push(out@.last()@));
        }
        n = n + 1;
    }
    assert(gms.take(ms@.len() as int) =~= gms);
    assert(result_views(out@).len() == out@.len());
    proof {
        lemma_titled_records_shape(xml@, gms);
    }
    assert forall|i: int| 0 <= i < out@.len() implies {
        let p = #[trigger] out@[i];
        &&& p.title@.len() > 0
        &&& !p.title@.contains('\n')
        &&& !p.abstract_text@.contains('\n')
    } by {
        assert(result_views(out@)[i] == out@[i]@);
        assert(titled_records(xml@, gms)[i] == out@[i]@);
    }
    out
}

} // verus!
