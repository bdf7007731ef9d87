//! The decisions of an arXiv search. Which network routes are tried and in
//! what order; how the API is paged; when a request moves on to the next
//! endpoint and what error ends it; when relaxed queries widen a sparse
//! result; how the HTML search page stands in for a failing API. The caller
//! makes the requests and reports what came back.
use vstd::prelude::*;
use crate::arxiv::atom::atom_records;
use crate::arxiv::html::html_records;
use crate::arxiv::dedup::{dedup_append, is_duplicate, lemma_dedup_append};
use crate::arxiv::model::{result_views, ArxivQueryOptions, ArxivResult, ResultView};
use crate::arxiv::query::{relaxed_queries_for, search_query_for};
use crate::text::string_views;
use crate::arxiv::{
    append_arxiv_results_dedup, build_relaxed_search_queries, build_search_query, parse_atom_entries,
    parse_search_html_results,
};
use crate::digits::{decimal, decimal_chars};
use crate::error::GscholarError;
use crate::retry::{retry_after_secs, retry_after_spec};
use crate::text::{chars_eq, chars_of, dedup, lemma_dedup, string_of, trim, trimmed_chars};

verus! {

broadcast use vstd::string::group_string_axioms;

// ---------------------------------------------------------------------------
// Network routes
// ---------------------------------------------------------------------------

/// A way to reach arXiv: directly, or through a proxy URL.
#[derive(Debug, Clone, PartialEq, Eq)]
pub enum ArxivNetworkRoute {
    Direct,
    Proxy(String),
}

/// A route as a value: `None` for the direct route, else the proxy URL.
pub open spec fn route_view(r: ArxivNetworkRoute) -> Option<Seq<char>> {
    match r {
        ArxivNetworkRoute::Direct => None,
        ArxivNetworkRoute::Proxy(p) => Some(p@),
    }
}

/// The values of a list of routes.
pub open spec fn route_views(v: Seq<ArxivNetworkRoute>) -> Seq<Option<Seq<char>>> {
    v.map_values(|r: ArxivNetworkRoute| route_view(r))
}

impl ArxivNetworkRoute {
    /// `direct`, or the proxy URL.
    pub fn label(&self) -> (r: &str)
        ensures
            r@ == match self {
                ArxivNetworkRoute::Direct => "direct"@,
                ArxivNetworkRoute::Proxy(p) => p@,
            },
    {
        match self {
            ArxivNetworkRoute::Direct => "direct",
            ArxivNetworkRoute::Proxy(p) => p.as_str(),
        }
    }
}

/// The local proxy ports tried after the configured proxies.
pub open spec fn default_proxy_urls() -> Seq<Seq<char>> {
    seq![
        "socks5h://127.0.0.1:10808"@,
        "http://127.0.0.1:10808"@,
        "http://127.0.0.1:7890"@,
        "socks5h://127.0.0.1:7890"@,
    ]
}

/// The local proxy ports tried after the configured proxies.
pub fn default_local_arxiv_proxy_urls() -> (r: Vec<String>)
    ensures
        string_views(r@) == default_proxy_urls(),
{
    let r = vec![
        String::from_str("socks5h://127.0.0.1:10808"),
        String::from_str("http://127.0.0.1:10808"),
        String::from_str("http://127.0.0.1:7890"),
        String::from_str("socks5h://127.0.0.1:7890"),
    ];
    assert(string_views(r@) =~= default_proxy_urls());
    r
}

/// The routes to try, before repeats are dropped: direct, the configured
/// proxies, the local proxy ports.
pub open spec fn route_candidates(configured: Seq<Seq<char>>) -> Seq<Option<Seq<char>>> {
    seq![None::<Seq<char>>] + configured.map_values(|p: Seq<char>| Some(p))
        + default_proxy_urls().map_values(|p: Seq<char>| Some(p))
}

/// Whether `routes` already holds the proxy `url`.
fn has_proxy(routes: &Vec<ArxivNetworkRoute>, url: &String) -> (b: bool)
    ensures
        b == route_views(routes@).contains(Some(url@)),
{
    let u = chars_of(url.as_str());
    let mut i: usize = 0;
    while i < routes.len()
        invariant
            i <= routes.len(),
            u@ == url@,
            forall|j: int| 0 <= j < i ==> route_views(routes@)[j] != Some(url@),
        decreases routes.len() - i,
    {
        match &routes[i] {
            ArxivNetworkRoute::Direct => {},
            ArxivNetworkRoute::Proxy(p) => {
                if chars_eq(&chars_of(p.as_str()), &u) {
                    assert(route_views(routes@)[i as int] == Some(url@));
                    return true;
                }
            },
        }
        i = i + 1;
    }
    false
}

/// The routes to try, in order: direct first, then the configured proxies,
/// then the local proxy ports, each route once, where it first occurs.
pub fn arxiv_network_routes_from_configured(configured_proxy_urls: Vec<String>) -> (r: Vec<ArxivNetworkRoute>)
    ensures
        route_views(r@) == dedup(route_candidates(string_views(configured_proxy_urls@))),
        r@.len() > 0 && r@[0] == ArxivNetworkRoute::Direct,
        forall|i: int, j: int| 0 <= i < j < r@.len() ==> route_view(r@[i]) != route_view(r@[j]),
        forall|u: Seq<char>|
            string_views(configured_proxy_urls@).contains(u) ==> route_views(r@).contains(Some(u)),
{
    let ghost cands = route_candidates(string_views(configured_proxy_urls@));
    let mut urls = configured_proxy_urls;
    let mut defaults = default_local_arxiv_proxy_urls();
    let ghost conf = string_views(urls@);
    urls.append(&mut defaults);
    let mut routes: Vec<ArxivNetworkRoute> = Vec::new();
    routes.push(ArxivNetworkRoute::Direct);
    proof {
        assert(cands.take(1) =~= seq![None::<Seq<char>>]);
        assert(cands.take(1).drop_last() =~= Seq::<Option<Seq<char>>>::empty());
        assert(dedup(cands.take(1).drop_last()) =~= Seq::<Option<Seq<char>>>::empty());
        assert(!cands.take(1).drop_last().contains(None::<Seq<char>>));
        assert(dedup(cands.take(1)) =~= seq![None::<Seq<char>>]);
        assert(route_views(routes@) =~= dedup(cands.take(1)));
        assert forall|k: int| 0 <= k < urls@.len() implies cands[k + 1] == Some(
            #[trigger] urls@[k]@,
        ) by {
            if k < conf.len() {
                assert(cands[k + 1] == Some(conf[k]));
            } else {
                assert(cands[k + 1] == Some(default_proxy_urls()[k - conf.len()]));
            }
        }
    }
    let mut k: usize = 0;
    while k < urls.len()
        invariant
            k <= urls.len(),
            cands.len() == urls.len() + 1,
            forall|j: int| 0 <= j < urls@.len() ==> cands[j + 1] == Some(#[trigger] urls@[j]@),
            route_views(routes@) == dedup(cands.take(k + 1)),
        decreases urls.len() - k,
    {
        let ghost pre = cands.take(k + 1);
        proof {
            lemma_dedup(pre);
            assert(cands.take(k + 2).drop_last() =~= pre);
            assert(cands.take(k + 2).last() == Some(urls@[k as int]@));
        }
        if !has_proxy(&routes, &urls[k]) {
            let url = urls[k].clone();
            routes.push(ArxivNetworkRoute::Proxy(url));
        }
        assert(route_views(routes@) =~= dedup(cands.take(k + 2)));
        k = k + 1;
    }
    proof {
        assert(cands.take(urls.len() + 1) =~= cands);
        lemma_dedup(cands);
        assert(cands[0] == None::<Seq<char>>);
        assert(route_view(routes@[0]) == None::<Seq<char>>);
        assert forall|i: int, j: int| 0 <= i < j < routes@.len() implies route_view(routes@[i])
            != route_view(routes@[j]) by {
            assert(route_views(routes@)[i] == route_view(routes@[i]));
            assert(route_views(routes@)[j] == route_view(routes@[j]));
        }
        assert forall|u: Seq<char>| conf.contains(u) implies route_views(routes@).contains(
            Some(u),
        ) by {
            let j = choose|j: int| 0 <= j < conf.len() && conf[j] == u;
            assert(cands[j + 1] == Some(u));
            assert(cands.contains(Some(u)));
        }
    }
    routes
}

/// The proxy URLs configured by the deployment: the given values trimmed,
/// blank ones dropped.
pub open spec fn configured_urls(values: Seq<Seq<char>>) -> Seq<Seq<char>>
    decreases values.len(),
{
    if values.len() == 0 {
        Seq::empty()
    } else {
        let rest = configured_urls(values.drop_last());
        if trim(values.last()).len() > 0 {
            rest.push(trim(values.last()))
        } else {
            rest
        }
    }
}

/// The configured proxy URLs from the values of the proxy variables that are
/// set (`configured_urls`).
pub fn arxiv_configured_proxy_urls(values: &Vec<String>) -> (r: Vec<String>)
    ensures
        string_views(r@) == configured_urls(string_views(values@)),
{
    let mut r: Vec<String> = Vec::new();
    let mut i: usize = 0;
    assert(string_views(values@).take(0) =~= Seq::<Seq<char>>::empty());
    while i < values.len()
        invariant
            i <= values.len(),
            string_views(r@) == configured_urls(string_views(values@).take(i as int)),
        decreases values.len() - i,
    {
        assert(string_views(values@).take(i + 1).drop_last() =~= string_views(values@).take(
            i as int,
        ));
        let t = trimmed_chars(values[i].as_str());
        if t.len() > 0 {
            r.push(string_of(&t));
        }
        assert(string_views(r@) =~= configured_urls(string_views(values@).take(i + 1)));
        i = i + 1;
    }
    assert(string_views(values@).take(values.len() as int) =~= string_views(values@));
    r
}

// ---------------------------------------------------------------------------
// The HTML search page
// ---------------------------------------------------------------------------

/// The page size asked of the HTML search: the smallest of 25, 50, 100 that
/// holds `limit`, else 200.
pub open spec fn html_size(limit: int) -> int {
    if limit <= 25 {
        25
    } else if limit <= 50 {
        50
    } else if limit <= 100 {
        100
    } else {
        200
    }
}

/// The page size asked of the HTML search (`html_size`).
pub fn html_search_size(limit: usize) -> (r: usize)
    ensures
        r == html_size(limit as int),
{
    if limit <= 25 {
        25
    } else if limit <= 50 {
        50
    } else if limit <= 100 {
        100
    } else {
        200
    }
}

/// The code of `c` with ASCII upper case mapped to lower case.
pub open spec fn ascii_lower_code(c: char) -> u32 {
    if 'A' <= c && c <= 'Z' {
        (c as u32 + 32) as u32
    } else {
        c as u32
    }
}

/// `a` and `b` are equal when ASCII letters are compared without case
/// (`str::eq_ignore_ascii_case`, for a `b` made of ASCII characters).
pub open spec fn eq_ignoring_ascii_case(a: Seq<char>, b: Seq<char>) -> bool {
    a.len() == b.len() && forall|i: int| 0 <= i < a.len() ==> ascii_lower_code(a[i]) == ascii_lower_code(b[i])
}

fn eq_ignore_ascii_case(a: &Vec<char>, b: &Vec<char>) -> (r: bool)
    ensures
        r == eq_ignoring_ascii_case(a@, b@),
{
    if a.len() != b.len() {
        return false;
    }
    let mut i: usize = 0;
    while i < a.len()
        invariant
            i <= a.len(),
            a.len() == b.len(),
            forall|j: int| 0 <= j < i ==> ascii_lower_code(a@[j]) == ascii_lower_code(b@[j]),
        decreases a.len() - i,
    {
        let x = a[i];
        let y = b[i];
        let lx: u32 = if 'A' <= x && x <= 'Z' {
            x as u32 + 32
        } else {
            x as u32
        };
        let ly: u32 = if 'A' <= y && y <= 'Z' {
            y as u32 + 32
        } else {
            y as u32
        };
        if lx != ly {
            return false;
        }
        i = i + 1;
    }
    true
}

/// The `order` parameter of the HTML search for the API sort options: newest
/// or oldest first by submission or announcement date; empty for relevance.
pub open spec fn html_order(sort_by: Seq<char>, sort_order: Seq<char>) -> Seq<char> {
    let newest_first = eq_ignoring_ascii_case(sort_order, "descending"@);
    if sort_by == "submittedDate"@ {
        if newest_first {
            "-submitted_date"@
        } else {
            "submitted_date"@
        }
    } else if sort_by == "lastUpdatedDate"@ {
        if newest_first {
            "-announced_date_first"@
        } else {
            "announced_date_first"@
        }
    } else {
        Seq::empty()
    }
}

/// The `order` parameter of the HTML search (`html_order`).
pub fn html_search_order(options: &ArxivQueryOptions) -> (r: String)
    ensures
        r@ == html_order(options.sort_by@, options.sort_order@),
{
    let newest_first = eq_ignore_ascii_case(
        &chars_of(options.sort_order.as_str()),
        &chars_of("descending"),
    );
    let by = chars_of(options.sort_by.as_str());
    if chars_eq(&by, &chars_of("submittedDate")) {
        if newest_first {
            String::from_str("-submitted_date")
        } else {
            String::from_str("submitted_date")
        }
    } else if chars_eq(&by, &chars_of("lastUpdatedDate")) {
        if newest_first {
            String::from_str("-announced_date_first")
        } else {
            String::from_str("announced_date_first")
        }
    } else {
        String::new()
    }
}

/// The request parameters as (name, value) texts.
pub open spec fn param_views(v: Seq<(String, String)>) -> Seq<(Seq<char>, Seq<char>)> {
    v.map_values(|p: (String, String)| (p.0@, p.1@))
}

/// `n` moved into `lo..=hi`.
pub open spec fn clamp_spec(n: int, lo: int, hi: int) -> int {
    if n < lo {
        lo
    } else if n > hi {
        hi
    } else {
        n
    }
}

/// A request to the HTML search page and the number of results kept.
pub struct HtmlSearchPlan {
    pub params: Vec<(String, String)>,
    pub limit: usize,
}

/// The number of results the HTML search keeps: `max_results` within 1..200.
pub open spec fn html_limit(options: ArxivQueryOptions) -> int {
    clamp_spec(options.max_results as int, 1, 200)
}

/// The parameters of the HTML search for `query`.
pub open spec fn html_params(query: Seq<char>, options: ArxivQueryOptions) -> Seq<(Seq<char>, Seq<char>)> {
    let base = seq![
        ("query"@, trim(query)),
        ("searchtype"@, "all"@),
        ("abstracts"@, "show"@),
        ("size"@, decimal(html_size(html_limit(options)) as nat)),
    ];
    let order = html_order(options.sort_by@, options.sort_order@);
    if order.len() > 0 {
        base.push(("order"@, order))
    } else {
        base
    }
}

/// The HTML search request for `query`; none for a blank query, which finds
/// nothing.
pub fn html_search_plan(query: &str, options: &ArxivQueryOptions) -> (r: Option<HtmlSearchPlan>)
    ensures
        trim(query@).len() == 0 ==> r is None,
        trim(query@).len() > 0 ==> (r matches Some(p) && p.limit == html_limit(*options)
            && param_views(p.params@) == html_params(query@, *options)),
{
    let trimmed = trimmed_chars(query);
    if trimmed.len() == 0 {
        return None;
    }
    let limit: usize = if options.max_results < 1 {
        1
    } else if options.max_results > 200 {
        200
    } else {
        options.max_results
    };
    let size = html_search_size(limit);
    let mut params: Vec<(String, String)> = Vec::new();
    params.push((String::from_str("query"), string_of(&trimmed)));
    params.push((String::from_str("searchtype"), String::from_str("all")));
    params.push((String::from_str("abstracts"), String::from_str("show")));
    params.push((String::from_str("size"), string_of(&decimal_chars(size as u64))));
    let order = html_search_order(options);
    let ghost base = param_views(params@);
    if !order.as_str().is_empty() {
        params.push((String::from_str("order"), order));
    }
    assert(param_views(params@) =~= html_params(query@, *options));
    Some(HtmlSearchPlan { params, limit })
}

/// The error for an HTML search answered with `status`, if it is one: 429
/// asks to wait 600 seconds; any other status outside 200..=299 is an API
/// error carrying the status.
pub fn html_search_status_error(status: u16) -> (r: Option<GscholarError>)
    ensures
        status == 429 ==> r == Some(GscholarError::RateLimited(600)),
        status != 429 && (status < 200 || status > 299) ==> (r matches Some(
            GscholarError::Api { code, message },
        ) && code == status as i32 && message@ == "arXiv HTML search returned non-success status"@),
        200 <= status <= 299 ==> r is None,
{
    if status == 429 {
        Some(GscholarError::RateLimited(600))
    } else if status < 200 || status > 299 {
        Some(
            GscholarError::Api {
                code: status as i32,
                message: String::from_str("arXiv HTML search returned non-success status"),
            },
        )
    } else {
        None
    }
}

/// The results of an HTML search page: those the page lists, at most `limit`.
pub fn html_search_results(html: &str, limit: usize) -> (r: Vec<ArxivResult>)
    ensures
        result_views(r@) == if limit <= html_records(html@).len() {
            html_records(html@).take(limit as int)
        } else {
            html_records(html@)
        },
{
    let mut papers = parse_search_html_results(html);
    papers.truncate(limit);
    assert(result_views(papers@) =~= if limit <= html_records(html@).len() {
        html_records(html@).take(limit as int)
    } else {
        html_records(html@)
    });
    papers
}

// ---------------------------------------------------------------------------
// Paging through the API
// ---------------------------------------------------------------------------

/// The most results asked of the API in one request.
pub const ARXIV_MAX_PER_REQUEST: usize = 2000;

/// Below this many results (or `max_results`, if smaller) relaxed queries
/// widen the search.
pub const ARXIV_RELAXED_SEARCH_THRESHOLD: usize = 20;

/// The parameters of an API request for `count` results from `start` on.
pub open spec fn api_params(search_query: Seq<char>, start: nat, count: nat, options: ArxivQueryOptions) -> Seq<(Seq<char>, Seq<char>)> {
    seq![
        ("search_query"@, search_query),
        ("start"@, decimal(start)),
        ("max_results"@, decimal(count)),
        ("sortBy"@, options.sort_by@),
        ("sortOrder"@, options.sort_order@),
    ]
}

/// The parameters of an API request (`api_params`).
pub fn api_page_params(search_query: &str, start: usize, count: usize, options: &ArxivQueryOptions) -> (r: Vec<(String, String)>)
    ensures
        param_views(r@) == api_params(search_query@, start as nat, count as nat, *options),
{
    let mut r: Vec<(String, String)> = Vec::new();
    r.push((String::from_str("search_query"), string_of(&chars_of(search_query))));
    r.push((String::from_str("start"), string_of(&decimal_chars(start as u64))));
    r.push((String::from_str("max_results"), string_of(&decimal_chars(count as u64))));
    r.push((String::from_str("sortBy"), options.sort_by.clone()));
    r.push((String::from_str("sortOrder"), options.sort_order.clone()));
    assert(param_views(r@) =~= api_params(search_query@, start as nat, count as nat, *options));
    r
}

/// Paging through the results of one API query.
pub struct ApiPaging {
    /// The most results wanted.
    max_results: usize,
    /// The results asked for per request.
    page_size: usize,
    /// The offset of the next request.
    start: usize,
    /// The results so far.
    results: Vec<ArxivResult>,
    /// A short page ended the results.
    finished: bool,
}

/// The smaller of two numbers.
pub open spec fn min_nat(a: int, b: int) -> int {
    if a <= b {
        a
    } else {
        b
    }
}

/// Where a paged search stands: (offset of the next request, results so far,
/// whether a short page ended the results).
pub type PagingProgress = (int, Seq<ResultView>, bool);

/// A request as plain numbers.
pub open spec fn batch_view(r: Option<(usize, usize)>) -> Option<(int, int)> {
    match r {
        Some((start, count)) => Some((start as int, count as int)),
        None => None,
    }
}

/// The request that paging for `max` results, `page` per request, makes next:
/// none once a short page ended the results or `max` were collected;
/// otherwise (offset, what is still wanted but at most a page).
pub open spec fn paging_request(max: int, page: int, p: PagingProgress) -> Option<(int, int)> {
    if p.2 || p.1.len() >= max {
        None
    } else {
        Some((p.0, min_nat(max - p.1.len(), page)))
    }
}

/// The progress after a page asked for `count` results came back with
/// `records`: they are added; a page with fewer records than asked for (or
/// none) ends the results, a full one moves the offset on by `count`.
pub open spec fn paging_after(p: PagingProgress, count: int, records: Seq<ResultView>) -> PagingProgress {
    let short = records.len() == 0 || records.len() < count;
    (if short {
        p.0
    } else {
        p.0 + count
    }, p.1 + records, p.2 || short)
}

impl ApiPaging {
    /// The offset never passes the results collected, and pages are not empty.
    #[verifier::type_invariant]
    spec fn wf(&self) -> bool {
        1 <= self.page_size && self.start <= self.results@.len()
    }

    /// The most results wanted.
    pub closed spec fn wanted(&self) -> int {
        self.max_results as int
    }

    /// The results asked for per request.
    pub closed spec fn page(&self) -> int {
        self.page_size as int
    }

    /// Where the paging stands: (offset, results so far, ended).
    pub closed spec fn progress(&self) -> PagingProgress {
        (self.start as int, result_views(self.results@), self.finished)
    }

    /// Paging for up to `max_results` results, `page_size` (within 1..2000) per
    /// request, from nothing.
    pub fn new(options: &ArxivQueryOptions, max_results: usize) -> (r: Self)
        ensures
            r.wanted() == max_results,
            r.page() == clamp_spec(options.page_size as int, 1, ARXIV_MAX_PER_REQUEST as int),
            r.progress() == (0int, Seq::<ResultView>::empty(), false),
    {
        let page_size: usize = if options.page_size < 1 {
            1
        } else if options.page_size > ARXIV_MAX_PER_REQUEST {
            ARXIV_MAX_PER_REQUEST
        } else {
            options.page_size
        };
        let r = ApiPaging { max_results, page_size, start: 0, results: Vec::new(), finished: false };
        assert(result_views(r.results@) =~= Seq::<ResultView>::empty());
        r
    }

    /// The results asked for per request.
    pub fn page_size(&self) -> (r: usize)
        ensures
            r == self.page(),
    {
        self.page_size
    }

    /// How many results are held.
    pub fn result_count(&self) -> (r: usize)
        ensures
            r == self.progress().1.len(),
    {
        self.results.len()
    }

    /// Whether a short page ended the results.
    pub fn is_finished(&self) -> (r: bool)
        ensures
            r == self.progress().2,
    {
        self.finished
    }

    /// The next request as (offset, count): none once a short page ended the
    /// results or enough were collected; otherwise what is still wanted, at
    /// most a page (`paging_request`).
    pub fn next_batch(&self) -> (r: Option<(usize, usize)>)
        ensures
            batch_view(r) == paging_request(self.wanted(), self.page(), self.progress()),
    {
        if self.finished || self.results.len() >= self.max_results {
            return None;
        }
        let remaining = self.max_results - self.results.len();
        let count = if remaining <= self.page_size {
            remaining
        } else {
            self.page_size
        };
        Some((self.start, count))
    }

    /// Adds the entries of a page fetched for `count` results. An empty page,
    /// or one with fewer entries than asked for, ends the results; otherwise
    /// the offset moves on by `count` (`paging_after`).
    pub fn record_page(&mut self, count: usize, body: &str)
        ensures
            final(self).wanted() == old(self).wanted(),
            final(self).page() == old(self).page(),
            final(self).progress() == paging_after(
                old(self).progress(),
                count as int,
                atom_records(body@),
            ),
    {
        let mut held = ApiPaging { max_results: 0, page_size: 1, start: 0, results: Vec::new(), finished: false };
        std::mem::swap(&mut held, self);
        proof {
            use_type_invariant(&held);
        }
        let ApiPaging { max_results, page_size, start, mut results, finished } = held;
        let ghost before = result_views(results@);
        let ghost old_len = results@.len();
        let mut page = parse_atom_entries(body);
        let fetched = page.len();
        assert(result_views(page@).len() == fetched);
        results.append(&mut page);
        assert(results@.len() == old_len + fetched);
        assert(result_views(results@) =~= before + atom_records(body@));
        let total = results.len();
        if fetched == 0 || fetched < count {
            *self = ApiPaging { max_results, page_size, start, results, finished: true };
        } else {
            assert(start + count <= total);
            *self = ApiPaging { max_results, page_size, start: start + count, results, finished };
        }
    }

    /// The results, at most `max_results` of them.
    pub fn into_results(self) -> (r: Vec<ArxivResult>)
        ensures
            result_views(r@) == if self.wanted() <= self.progress().1.len() {
                self.progress().1.take(self.wanted())
            } else {
                self.progress().1
            },
            r@.len() <= self.wanted(),
    {
        let ghost all = result_views(self.results@);
        let ghost max = self.max_results;
        let mut r = self.results;
        r.truncate(self.max_results);
        assert(result_views(r@) =~= if max <= all.len() {
            all.take(max as int)
        } else {
            all
        });
        assert(result_views(r@).len() == r@.len());
        r
    }
}

/// The records of pages one after another.
pub open spec fn concat_pages(pages: Seq<Seq<ResultView>>) -> Seq<ResultView>
    decreases pages.len(),
{
    if pages.len() == 0 {
        Seq::empty()
    } else {
        pages[0] + concat_pages(pages.drop_first())
    }
}

/// The results asked for by a run of requests, together.
pub open spec fn requested_total(requests: Seq<(int, int)>) -> int
    decreases requests.len(),
{
    if requests.len() == 0 {
        0
    } else {
        requests[0].1 + requested_total(requests.drop_first())
    }
}

/// A paged search from `p` whose requests come back, in turn, with the
/// records of `pages`: the progress where it stops and the requests it made.
/// It stops when no request is left to make, or when no page is left to
/// answer the next one.
pub open spec fn paging_run(
    max: int,
    page: int,
    p: PagingProgress,
    pages: Seq<Seq<ResultView>>,
) -> (PagingProgress, Seq<(int, int)>)
    decreases pages.len(),
{
    match paging_request(max, page, p) {
        None => (p, Seq::empty()),
        Some(request) => if pages.len() == 0 {
            (p, Seq::empty())
        } else {
            let rest = paging_run(max, page, paging_after(p, request.1, pages[0]), pages.drop_first());
            (rest.0, seq![request] + rest.1)
        },
    }
}

proof fn lemma_paging_run_from(max: int, page: int, p: PagingProgress, pages: Seq<Seq<ResultView>>)
    requires
        page >= 1,
    ensures
        ({
            let (last, requests) = paging_run(max, page, p, pages);
            &&& requests.len() <= pages.len()
            &&& p.2 ==> requests.len() == 0
            &&& last.1 == p.1 + concat_pages(pages.take(requests.len() as int))
            &&& requests.len() < pages.len() ==> paging_request(max, page, last) is None
            &&& forall|i: int| #![trigger requests[i]] 0 <= i < requests.len() ==> {
                &&& requests[i].0 == p.0 + requested_total(requests.take(i))
                &&& requests[i].1 == min_nat(
                    max - (p.1.len() + concat_pages(pages.take(i)).len()),
                    page,
                )
                &&& 1 <= requests[i].1 <= page
                &&& (i + 1 < requests.len() ==> pages[i].len() >= requests[i].1)
            }
        }),
    decreases pages.len(),
{
    let (last, requests) = paging_run(max, page, p, pages);
    match paging_request(max, page, p) {
        None => {
            assert(pages.take(0) =~= Seq::<Seq<ResultView>>::empty());
            assert(p.1 + concat_pages(Seq::<Seq<ResultView>>::empty()) =~= p.1);
        },
        Some(request) => {
            if pages.len() == 0 {
                assert(pages.take(0) =~= Seq::<Seq<ResultView>>::empty());
                assert(p.1 + concat_pages(Seq::<Seq<ResultView>>::empty()) =~= p.1);
            } else {
                let q = paging_after(p, request.1, pages[0]);
                let tail = pages.drop_first();
                lemma_paging_run_from(max, page, q, tail);
                let (last2, rest) = paging_run(max, page, q, tail);
                assert(requests =~= seq![request] + rest);
                assert(last == last2);
                let n = requests.len() as int;
                // the records gathered
                assert(pages.take(n).drop_first() =~= tail.take(n - 1));
                assert(pages.take(n)[0] == pages[0]);
                assert(concat_pages(pages.take(n)) == pages[0] + concat_pages(tail.take(n - 1)));
                assert(last.1 =~= p.1 + concat_pages(pages.take(n)));
                assert forall|i: int| #![trigger requests[i]] 0 <= i < requests.len() implies {
                    &&& requests[i].0 == p.0 + requested_total(requests.take(i))
                    &&& requests[i].1 == min_nat(
                        max - (p.1.len() + concat_pages(pages.take(i)).len()),
                        page,
                    )
                    &&& 1 <= requests[i].1 <= page
                    &&& (i + 1 < requests.len() ==> pages[i].len() >= requests[i].1)
                } by {
                    if i == 0 {
                        assert(requests.take(0) =~= Seq::<(int, int)>::empty());
                        assert(pages.take(0) =~= Seq::<Seq<ResultView>>::empty());
                        if 1 < requests.len() {
                            // a later request means the first page was full
                            assert(rest.len() > 0);
                            assert(!q.2);
                        }
                    } else {
                        assert(rest[i - 1] == requests[i]);
                        assert(!q.2);
                        assert(requests.take(i).drop_first() =~= rest.take(i - 1));
                        assert(requests.take(i)[0] == request);
                        assert(pages.take(i).drop_first() =~= tail.take(i - 1));
                        assert(pages.take(i)[0] == pages[0]);
                        assert(concat_pages(pages.take(i)) == pages[0] + concat_pages(
                            tail.take(i - 1),
                        ));
                        if i + 1 < requests.len() {
                            assert(pages[i] == tail[i - 1]);
                        }
                    }
                }
            }
        },
    }
}

/// The law of a whole paged search for `search_query`. Paging for `max`
/// results with `options` (`ApiPaging::new`: a page of `options.page_size`
/// held within 1..=2000), from nothing, where the requests come back in turn
/// with the records of `pages`: no request is made for `max` of zero; each
/// request sends the query, its offset, its count and the sort options; the
/// offset of each is the sum of the counts asked before it; each asks for
/// what is still wanted, at most a page, and at least one; a request follows
/// only a page that came back full; the results are the pages' records in
/// order; where a page was left over, nothing was left to ask; and the
/// results handed out (`ApiPaging::into_results`) are at most `max`.
pub proof fn lemma_paged_search(
    search_query: Seq<char>,
    options: ArxivQueryOptions,
    max: nat,
    pages: Seq<Seq<ResultView>>,
)
    ensures
        ({
            let page = clamp_spec(options.page_size as int, 1, ARXIV_MAX_PER_REQUEST as int);
            let (last, requests) = paging_run(max as int, page, (0, Seq::empty(), false), pages);
            let out = if max <= last.1.len() {
                last.1.take(max as int)
            } else {
                last.1
            };
            &&& requests.len() <= pages.len()
            &&& max == 0 ==> requests.len() == 0
            &&& last.1 == concat_pages(pages.take(requests.len() as int))
            &&& out.len() <= max
            &&& requests.len() < pages.len() ==> paging_request(max as int, page, last) is None
            &&& forall|i: int| #![trigger requests[i]] 0 <= i < requests.len() ==> {
                &&& requests[i].0 == requested_total(requests.take(i))
                &&& requests[i].1 == min_nat(max - concat_pages(pages.take(i)).len(), page)
                &&& 1 <= requests[i].1 <= page
                &&& (i + 1 < requests.len() ==> pages[i].len() >= requests[i].1)
                &&& api_params(search_query, requests[i].0 as nat, requests[i].1 as nat, options)
                    == seq![
                    ("search_query"@, search_query),
                    ("start"@, decimal(requested_total(requests.take(i)) as nat)),
                    ("max_results"@, decimal(
                        min_nat(max - concat_pages(pages.take(i)).len(), page) as nat,
                    )),
                    ("sortBy"@, options.sort_by@),
                    ("sortOrder"@, options.sort_order@),
                ]
            }
        }),
{
    let page = clamp_spec(options.page_size as int, 1, ARXIV_MAX_PER_REQUEST as int);
    let start: PagingProgress = (0, Seq::empty(), false);
    lemma_paging_run_from(max as int, page, start, pages);
    let (last, requests) = paging_run(max as int, page, start, pages);
    assert(start.1 + concat_pages(pages.take(requests.len() as int)) =~= concat_pages(
        pages.take(requests.len() as int),
    ));
    if max == 0 && requests.len() > 0 {
        assert(requests[0].1 >= 1);
    }
}

// ---------------------------------------------------------------------------
// Trying the endpoints for one page
// ---------------------------------------------------------------------------

/// What one API request came back with.
pub enum ApiResponse {
    /// Status 429, with the `Retry-After` header value when it could be read.
    RateLimited(Option<String>),
    /// A status from 500 to 599.
    ServerError,
    /// Any other status, with the body read.
    Body(String),
    /// Any other status; reading the body failed with this message.
    BodyError(String),
    /// The request failed with this message.
    RequestFailed(String),
}

/// What to do next for a page.
pub enum FetchStep {
    /// Send the request to the endpoint with this index.
    Send(usize),
    /// Wait two seconds, then send the request to this endpoint again.
    PauseThenSend(usize),
    /// The page's body.
    Page(String),
    /// Every endpoint failed.
    Fail(GscholarError),
}

/// Where fetching a page stands: the endpoint being tried, its server-error
/// retries, the last failure's message, and the wait asked by a rate limit.
pub struct PageFetch {
    endpoint: usize,
    server_error_retries: u32,
    last_error: Option<String>,
    rate_limited_after: Option<u64>,
}

/// The state of a page fetch as values.
pub closed spec fn fetch_view(p: PageFetch) -> (usize, u32, Option<Seq<char>>, Option<u64>) {
    (
        p.endpoint,
        p.server_error_retries,
        match p.last_error {
            Some(m) => Some(m@),
            None => None,
        },
        p.rate_limited_after,
    )
}

/// The error that ends a page fetch: a rate limit seen on any endpoint wins;
/// otherwise a parse error naming the last failure.
pub open spec fn is_fetch_failure(e: GscholarError, last_error: Option<Seq<char>>, rate_limited_after: Option<u64>) -> bool {
    match rate_limited_after {
        Some(s) => e == GscholarError::RateLimited(s),
        None => e matches GscholarError::Parse(m) && m@
            == "Failed to fetch arXiv response from all endpoints: "@ + match last_error {
            Some(l) => l,
            None => "unknown error"@,
        },
    }
}

/// How far a page fetch has come: each request raises it, and it stays below
/// six times the number of endpoints while requests are sent, so a page takes
/// at most six requests per endpoint.
pub open spec fn fetch_progress(v: (usize, u32, Option<Seq<char>>, Option<u64>)) -> int {
    v.0 * 6 + v.1
}

/// The step after moving on to endpoint `v.0`: send there, or fail when no
/// endpoint is left.
pub open spec fn step_after_move(v: (usize, u32, Option<Seq<char>>, Option<u64>), endpoints: usize, r: FetchStep) -> bool {
    if v.0 < endpoints {
        r == FetchStep::Send(v.0)
    } else {
        r matches FetchStep::Fail(e) && is_fetch_failure(e, v.2, v.3)
    }
}

/// The seconds that a rate limit asks to wait: the `Retry-After` header read
/// as a number, else 600.
pub open spec fn rate_limit_wait(header: Option<String>) -> u64 {
    match retry_after_spec(
        match header {
            Some(h) => Some(h@),
            None => None,
        },
    ) {
        Some(s) => s,
        None => 600,
    }
}

impl PageFetch {
    /// An endpoint is retried after a server error at most five times.
    #[verifier::type_invariant]
    spec fn retries_bounded(&self) -> bool {
        self.server_error_retries <= 5
    }

    /// The index of the endpoint being tried.
    pub fn endpoint(&self) -> (r: usize)
        ensures
            r == fetch_view(*self).0,
    {
        self.endpoint
    }

    /// The server-error retries of the endpoint being tried.
    pub fn server_error_retries(&self) -> (r: u32)
        ensures
            r == fetch_view(*self).1,
            r <= 5,
    {
        proof {
            use_type_invariant(self);
        }
        self.server_error_retries
    }

    /// Nothing tried yet.
    pub fn new() -> (r: Self)
        ensures
            fetch_view(r) == (0usize, 0u32, None::<Seq<char>>, None::<u64>),
    {
        PageFetch { endpoint: 0, server_error_retries: 0, last_error: None, rate_limited_after: None }
    }

    fn failure(&self) -> (e: GscholarError)
        ensures
            is_fetch_failure(e, fetch_view(*self).2, fetch_view(*self).3),
    {
        match self.rate_limited_after {
            Some(s) => GscholarError::RateLimited(s),
            None => {
                let head = chars_of("Failed to fetch arXiv response from all endpoints: ");
                let tail = match &self.last_error {
                    Some(m) => chars_of(m.as_str()),
                    None => chars_of("unknown error"),
                };
                GscholarError::Parse(string_of(&crate::text::concat(&head, &tail)))
            },
        }
    }

    /// The first step: send to the first endpoint, or fail when there is none.
    pub fn first_step(&self, endpoints: usize) -> (r: FetchStep)
        ensures
            step_after_move(fetch_view(*self), endpoints, r),
    {
        if self.endpoint < endpoints {
            FetchStep::Send(self.endpoint)
        } else {
            FetchStep::Fail(self.failure())
        }
    }

    fn move_on(&mut self, endpoints: usize) -> (r: FetchStep)
        requires
            fetch_view(*old(self)).0 < endpoints,
        ensures
            fetch_view(*final(self)) == (
                (fetch_view(*old(self)).0 + 1) as usize,
                0u32,
                fetch_view(*old(self)).2,
                fetch_view(*old(self)).3,
            ),
            step_after_move(fetch_view(*final(self)), endpoints, r),
    {
        proof {
            use_type_invariant(&*self);
        }
        self.endpoint = self.endpoint + 1;
        self.server_error_retries = 0;
        self.first_step(endpoints)
    }

    /// The step after the current endpoint answered `response`. A body is the
    /// page. A server error is retried after a pause up to five times, then
    /// the next endpoint is tried; so is it after a rate limit, a failed
    /// request or an unreadable body, which are remembered for the error when
    /// no endpoint is left.
    pub fn step(&mut self, response: ApiResponse, endpoints: usize) -> (r: FetchStep)
        requires
            fetch_view(*old(self)).0 < endpoints,
        ensures
            fetch_view(*final(self)).1 <= 5,
            fetch_view(*final(self)).0 >= endpoints ==> r is Fail,
            fetch_view(*final(self)).0 < endpoints ==> !(r is Fail),
            (r is Send || r is PauseThenSend) ==> fetch_progress(fetch_view(*final(self)))
                > fetch_progress(fetch_view(*old(self))) && fetch_progress(fetch_view(*final(self)))
                < 6 * endpoints,
            match response {
                ApiResponse::Body(t) => r == FetchStep::Page(t) && fetch_view(*final(self))
                    == fetch_view(*old(self)),
                ApiResponse::ServerError => if fetch_view(*old(self)).1 >= 5 {
                    fetch_view(*final(self)) == (
                        (fetch_view(*old(self)).0 + 1) as usize,
                        0u32,
                        fetch_view(*old(self)).2,
                        fetch_view(*old(self)).3,
                    ) && step_after_move(fetch_view(*final(self)), endpoints, r)
                } else {
                    fetch_view(*final(self)) == (
                        fetch_view(*old(self)).0,
                        (fetch_view(*old(self)).1 + 1) as u32,
                        fetch_view(*old(self)).2,
                        fetch_view(*old(self)).3,
                    ) && r == FetchStep::PauseThenSend(fetch_view(*old(self)).0)
                },
                ApiResponse::RateLimited(h) => fetch_view(*final(self)) == (
                    (fetch_view(*old(self)).0 + 1) as usize,
                    0u32,
                    Some("arXiv API rate limited"@),
                    Some(rate_limit_wait(h)),
                ) && step_after_move(fetch_view(*final(self)), endpoints, r),
                ApiResponse::BodyError(m) => fetch_view(*final(self)) == (
                    (fetch_view(*old(self)).0 + 1) as usize,
                    0u32,
                    Some(m@),
                    fetch_view(*old(self)).3,
                ) && step_after_move(fetch_view(*final(self)), endpoints, r),
                ApiResponse::RequestFailed(m) => fetch_view(*final(self)) == (
                    (fetch_view(*old(self)).0 + 1) as usize,
                    0u32,
                    Some(m@),
                    fetch_view(*old(self)).3,
                ) && step_after_move(fetch_view(*final(self)), endpoints, r),
            },
    {
        proof {
            use_type_invariant(&*self);
        }
        match response {
            ApiResponse::Body(t) => FetchStep::Page(t),
            ApiResponse::ServerError => {
                if self.server_error_retries >= 5 {
                    self.move_on(endpoints)
                } else {
                    self.server_error_retries = self.server_error_retries + 1;
                    FetchStep::PauseThenSend(self.endpoint)
                }
            },
            ApiResponse::RateLimited(h) => {
                let wait = match retry_after_secs(
                    match &h {
                        Some(v) => Some(v.as_str()),
                        None => None,
                    },
                ) {
                    Some(s) => s,
                    None => 600,
                };
                self.last_error = Some(String::from_str("arXiv API rate limited"));
                self.rate_limited_after = Some(wait);
                self.move_on(endpoints)
            },
            ApiResponse::BodyError(m) => {
                self.last_error = Some(m);
                self.move_on(endpoints)
            },
            ApiResponse::RequestFailed(m) => {
                self.last_error = Some(m);
                self.move_on(endpoints)
            },
        }
    }
}

// ---------------------------------------------------------------------------
// Widening sparse results, falling back, trying routes
// ---------------------------------------------------------------------------

/// The strict query and the result cap of an API search.
pub struct ApiSearchPlan {
    pub search_query: String,
    pub max_results: usize,
}

/// The API search for `query`: its strict query and `max_results` (at least
/// 1); none for a blank query, which finds nothing.
pub fn api_search_plan(query: &str, options: &ArxivQueryOptions) -> (r: Option<ApiSearchPlan>)
    ensures
        trim(query@).len() == 0 ==> r is None,
        trim(query@).len() > 0 ==> (r matches Some(p) && p.search_query@ == search_query_for(query@)
            && p.max_results == if options.max_results < 1 {
            1
        } else {
            options.max_results
        }),
{
    if trimmed_chars(query).len() == 0 {
        return None;
    }
    let max_results = if options.max_results < 1 {
        1
    } else {
        options.max_results
    };
    Some(ApiSearchPlan { search_query: build_search_query(query), max_results })
}

/// Whether a strict search that found `found` results is widened with relaxed
/// queries: when it found fewer than `max_results` or than 20, whichever is
/// smaller.
pub fn wants_relaxed_queries(found: usize, max_results: usize) -> (r: bool)
    ensures
        r == (found < min_nat(max_results as int, ARXIV_RELAXED_SEARCH_THRESHOLD as int)),
{
    let threshold = if max_results <= ARXIV_RELAXED_SEARCH_THRESHOLD {
        max_results
    } else {
        ARXIV_RELAXED_SEARCH_THRESHOLD
    };
    found < threshold
}

/// How many more results a relaxed query may fetch; none once enough were
/// found.
pub fn relaxed_remaining(found: usize, max_results: usize) -> (r: Option<usize>)
    ensures
        found >= max_results ==> r is None,
        found < max_results ==> r == Some((max_results - found) as usize),
{
    if found >= max_results {
        None
    } else {
        Some(max_results - found)
    }
}

/// At most `max_results` of `results`.
pub fn cap_results(results: Vec<ArxivResult>, max_results: usize) -> (r: Vec<ArxivResult>)
    ensures
        result_views(r@) == if max_results <= results@.len() {
            result_views(results@).take(max_results as int)
        } else {
            result_views(results@)
        },
{
    let mut r = results;
    let ghost all = result_views(r@);
    r.truncate(max_results);
    assert(result_views(r@) =~= if max_results <= all.len() {
        all.take(max_results as int)
    } else {
        all
    });
    r
}

/// The outcome of a search through one client after its API search failed
/// with `api_error`: the HTML search's results, or the API's error when the
/// HTML search fails too.
pub fn fallback_outcome(api_error: GscholarError, html: Result<Vec<ArxivResult>, GscholarError>) -> (r: Result<Vec<ArxivResult>, GscholarError>)
    ensures
        html is Ok ==> r == html,
        html is Err ==> r == Err::<Vec<ArxivResult>, GscholarError>(api_error),
{
    match html {
        Ok(papers) => Ok(papers),
        Err(_) => Err(api_error),
    }
}

/// The error when every route failed: the last route's error, or an API error
/// with code 0 when there was no route at all.
pub fn routes_exhausted_error(last_error: Option<GscholarError>) -> (r: GscholarError)
    ensures
        last_error matches Some(e) ==> r == e,
        last_error is None ==> (r matches GscholarError::Api { code, message } && code == 0
            && message@ == "No arXiv network route was available"@),
{
    match last_error {
        Some(e) => e,
        None => GscholarError::Api {
            code: 0,
            message: String::from_str("No arXiv network route was available"),
        },
    }
}

/// Widening a sparse strict result with relaxed queries: each relaxed query in
/// turn, while fewer than `max_results` results are held, asks for what is
/// still wanted; the results it brings are appended without duplicates, and a
/// failed query is skipped.
pub struct RelaxedSearch {
    /// The relaxed queries, tried from `next` on.
    queries: Vec<String>,
    next: usize,
    /// The results so far: the strict results first.
    results: Vec<ArxivResult>,
    max_results: usize,
    /// The strict results.
    strict: Ghost<Seq<ResultView>>,
}

impl RelaxedSearch {
    /// The strict results stay first, and the next query is within range.
    #[verifier::type_invariant]
    spec fn wf(&self) -> bool {
        &&& self.next <= self.queries@.len()
        &&& self.strict@.len() <= self.results@.len()
        &&& result_views(self.results@).take(self.strict@.len() as int) == self.strict@
    }

    /// The relaxed queries.
    pub closed spec fn relaxed(&self) -> Seq<Seq<char>> {
        string_views(self.queries@)
    }

    /// How many relaxed queries were taken in.
    pub closed spec fn done(&self) -> int {
        self.next as int
    }

    /// The results held.
    pub closed spec fn held(&self) -> Seq<ResultView> {
        result_views(self.results@)
    }

    /// The most results wanted.
    pub closed spec fn wanted(&self) -> int {
        self.max_results as int
    }

    /// The strict results.
    pub closed spec fn strict_results(&self) -> Seq<ResultView> {
        self.strict@
    }

    /// The widening of the strict results of `query`: relaxed queries only when
    /// the strict results are fewer than `max_results` or than 20, whichever is
    /// smaller (`relaxed_plan`).
    pub fn new(query: &str, strict: Vec<ArxivResult>, max_results: usize) -> (r: Self)
        ensures
            r.done() == 0,
            r.wanted() == max_results,
            r.held() == result_views(strict@),
            r.strict_results() == result_views(strict@),
            r.relaxed() == relaxed_plan(query@, strict@.len() as int, max_results as int),
    {
        let queries = if wants_relaxed_queries(strict.len(), max_results) {
            build_relaxed_search_queries(query)
        } else {
            let none: Vec<String> = Vec::new();
            assert(string_views(none@) =~= Seq::<Seq<char>>::empty());
            none
        };
        let ghost sv = result_views(strict@);
        assert(result_views(strict@).take(sv.len() as int) =~= sv);
        RelaxedSearch { queries, next: 0, results: strict, max_results, strict: Ghost(sv) }
    }

    /// The next relaxed query and how many results it may bring; none once the
    /// queries are used up or enough results are held.
    pub fn next_query(&self) -> (r: Option<(String, usize)>)
        ensures
            (self.done() >= self.relaxed().len() || self.held().len() >= self.wanted()) ==> r
                is None,
            (self.done() < self.relaxed().len() && self.held().len() < self.wanted()) ==> (r matches Some(
                (q, n),
            ) && q@ == self.relaxed()[self.done()] && n == self.wanted() - self.held().len()),
    {
        proof {
            use_type_invariant(self);
        }
        if self.next >= self.queries.len() || self.results.len() >= self.max_results {
            return None;
        }
        assert(string_views(self.queries@)[self.next as int] == self.queries@[self.next as int]@);
        Some((self.queries[self.next].clone(), self.max_results - self.results.len()))
    }

    /// Takes in what the query that `next_query` gave brought: its results
    /// appended without duplicates, or nothing when it failed; then moves to
    /// the next query.
    pub fn record(&mut self, outcome: Result<Vec<ArxivResult>, GscholarError>)
        requires
            old(self).done() < old(self).relaxed().len(),
        ensures
            final(self).done() == old(self).done() + 1,
            final(self).relaxed() == old(self).relaxed(),
            final(self).wanted() == old(self).wanted(),
            final(self).strict_results() == old(self).strict_results(),
            match outcome {
                Ok(extra) => final(self).held() == dedup_append(old(self).held(), result_views(extra@)),
                Err(_) => final(self).held() == old(self).held(),
            },
            forall|j: int|
                old(self).held().len() <= j < final(self).held().len() ==> !is_duplicate(
                    final(self).held().take(j),
                    #[trigger] final(self).held()[j],
                ),
    {
        let none: Vec<ArxivResult> = Vec::new();
        assert(result_views(none@).take(0) =~= Seq::<ResultView>::empty());
        let mut held = RelaxedSearch {
            queries: Vec::new(),
            next: 0,
            results: none,
            max_results: 0,
            strict: Ghost(Seq::empty()),
        };
        std::mem::swap(&mut held, self);
        proof {
            use_type_invariant(&held);
        }
        let RelaxedSearch { queries, next, mut results, max_results, strict } = held;
        let ghost before = result_views(results@);
        assert(string_views(queries@).len() == queries@.len());
        assert(next < queries.len());
        match outcome {
            Ok(extra) => {
                let ghost add = result_views(extra@);
                let _ = append_arxiv_results_dedup(&mut results, extra);
                proof {
                    lemma_dedup_append(before, add);
                    let after = result_views(results@);
                    assert(after.take(strict@.len() as int) =~= before.take(strict@.len() as int)) by {
                        assert(after.take(before.len() as int) == before);
                    }
                }
            },
            Err(_) => {},
        }
        *self = RelaxedSearch { queries, next: next + 1, results, max_results, strict };
    }

    /// The results, at most `max_results` of them: the strict results come
    /// first.
    pub fn finish(self) -> (r: Vec<ArxivResult>)
        ensures
            result_views(r@) == if self.wanted() <= self.held().len() {
                self.held().take(self.wanted())
            } else {
                self.held()
            },
            r@.len() <= self.wanted(),
            self.strict_results().len() <= self.wanted() ==> result_views(r@).take(
                self.strict_results().len() as int,
            ) == self.strict_results(),
    {
        proof {
            use_type_invariant(&self);
        }
        let ghost st = self.strict@;
        let ghost all = result_views(self.results@);
        let r = cap_results(self.results, self.max_results);
        proof {
            assert(result_views(r@).len() == r@.len());
            if st.len() <= self.max_results {
                assert(result_views(r@).take(st.len() as int) =~= all.take(st.len() as int));
            }
        }
        r
    }
}

/// Trying the network routes in order until one succeeds.
pub struct RouteAttempts {
    /// The index of the next route to try.
    next: usize,
    /// The number of routes.
    routes: usize,
    /// The error of the last route that failed.
    last_error: Option<GscholarError>,
}

impl RouteAttempts {
    /// How many routes failed so far.
    pub closed spec fn failed(&self) -> int {
        self.next as int
    }

    /// The number of routes.
    pub closed spec fn route_count(&self) -> int {
        self.routes as int
    }

    /// The error of the last route that failed, if any did.
    pub closed spec fn last_failure(&self) -> Option<GscholarError> {
        self.last_error
    }

    /// No route tried yet.
    pub fn new(routes: usize) -> (r: Self)
        ensures
            r.failed() == 0,
            r.route_count() == routes,
            r.last_failure() is None,
    {
        RouteAttempts { next: 0, routes, last_error: None }
    }

    /// The route to try next; none once every route failed
    /// (`route_request`).
    pub fn next_route(&self) -> (r: Option<usize>)
        ensures
            match r {
                Some(i) => route_request(self.route_count(), self.failed()) == Some(i as int),
                None => route_request(self.route_count(), self.failed()) is None,
            },
    {
        if self.next < self.routes {
            Some(self.next)
        } else {
            None
        }
    }

    /// The route that `next_route` gave failed with `error`; the next one is
    /// tried.
    pub fn record_failure(&mut self, error: GscholarError)
        requires
            route_request(old(self).route_count(), old(self).failed()) is Some,
        ensures
            final(self).failed() == old(self).failed() + 1,
            final(self).route_count() == old(self).route_count(),
            final(self).last_failure() == Some(error),
    {
        self.next = self.next + 1;
        self.last_error = Some(error);
    }

    /// The error once every route failed (`routes_exhausted_error`): the last
    /// route's, or that no route was available.
    pub fn exhausted_error(self) -> (r: GscholarError)
        ensures
            self.last_failure() matches Some(e) ==> r == e,
            self.last_failure() is None ==> (r matches GscholarError::Api { code, message } && code
                == 0 && message@ == "No arXiv network route was available"@),
    {
        routes_exhausted_error(self.last_error)
    }
}

/// The route tried next, after `next` routes failed, of `routes`.
pub open spec fn route_request(routes: int, next: int) -> Option<int> {
    if next < routes {
        Some(next)
    } else {
        None
    }
}

/// Trying `routes` routes, `next` of them failed with `last_error` the last
/// error, where the searches of the routes still to try end in turn in
/// `outcomes`: the routes tried, and the results of the first that succeeds
/// or else the last error (none when no route failed). `RouteAttempts` is
/// this run: `next_route`, then `record_failure` on a failure.
pub open spec fn route_run<T>(
    routes: int,
    next: int,
    last_error: Option<GscholarError>,
    outcomes: Seq<Result<T, GscholarError>>,
) -> (Seq<int>, Result<T, Option<GscholarError>>)
    decreases outcomes.len(),
{
    match route_request(routes, next) {
        None => (Seq::empty(), Err(last_error)),
        Some(i) => if outcomes.len() == 0 {
            (Seq::empty(), Err(last_error))
        } else {
            match outcomes[0] {
                Ok(v) => (seq![i], Ok(v)),
                Err(e) => {
                    let rest = route_run(routes, next + 1, Some(e), outcomes.drop_first());
                    (seq![i] + rest.0, rest.1)
                },
            }
        },
    }
}

proof fn lemma_route_run_from<T>(
    routes: int,
    next: int,
    last_error: Option<GscholarError>,
    outcomes: Seq<Result<T, GscholarError>>,
)
    requires
        0 <= next,
        next + outcomes.len() == routes,
    ensures
        ({
            let (tried, result) = route_run(routes, next, last_error, outcomes);
            &&& tried.len() <= outcomes.len()
            &&& forall|i: int| 0 <= i < tried.len() ==> #[trigger] tried[i] == next + i
            &&& forall|i: int| 0 <= i < tried.len() - 1 ==> #[trigger] outcomes[i] is Err
            &&& (result matches Ok(v) ==> tried.len() > 0 && outcomes[tried.len() - 1] == Ok::<
                T,
                GscholarError,
            >(v))
            &&& (result is Err ==> tried.len() == outcomes.len() && forall|i: int|
                0 <= i < outcomes.len() ==> #[trigger] outcomes[i] is Err)
            &&& (result is Err && outcomes.len() > 0 ==> result == Err::<T, Option<GscholarError>>(
                Some(outcomes.last()->Err_0),
            ))
            &&& (outcomes.len() == 0 ==> result == Err::<T, Option<GscholarError>>(last_error))
        }),
    decreases outcomes.len(),
{
    if outcomes.len() > 0 {
        match outcomes[0] {
            Ok(v) => {},
            Err(e) => {
                let tail = outcomes.drop_first();
                lemma_route_run_from(routes, next + 1, Some(e), tail);
                let (tried, result) = route_run(routes, next, last_error, outcomes);
                let rest = route_run(routes, next + 1, Some(e), tail);
                assert(tried =~= seq![next] + rest.0);
                assert forall|i: int| 0 <= i < tried.len() implies #[trigger] tried[i] == next + i by {
                    if i > 0 {
                        assert(tried[i] == rest.0[i - 1]);
                    }
                }
                assert forall|i: int| 0 <= i < tried.len() - 1 implies #[trigger] outcomes[i] is Err by {
                    if i > 0 {
                        assert(outcomes[i] == tail[i - 1]);
                    }
                }
                if result matches Ok(v) {
                    assert(outcomes[tried.len() - 1] == tail[rest.0.len() - 1]);
                }
                if result is Err {
                    assert forall|i: int| 0 <= i < outcomes.len() implies #[trigger] outcomes[i] is Err by {
                        if i > 0 {
                            assert(outcomes[i] == tail[i - 1]);
                        }
                    }
                    if tail.len() > 0 {
                        assert(outcomes.last() == tail.last());
                    }
                }
            },
        }
    }
}

/// The law of trying the network routes: routes are tried in order from the
/// first; the search ends with the results of the first route that succeeds,
/// and no later route is tried; when every route fails it ends with the last
/// error; with no route at all there is no error to give
/// (`RouteAttempts::exhausted_error` then reports that no route was
/// available).
pub proof fn lemma_routes<T>(outcomes: Seq<Result<T, GscholarError>>)
    ensures
        ({
            let (tried, result) = route_run(outcomes.len() as int, 0, None, outcomes);
            &&& forall|i: int| 0 <= i < tried.len() ==> #[trigger] tried[i] == i
            &&& forall|i: int| 0 <= i < tried.len() - 1 ==> #[trigger] outcomes[i] is Err
            &&& (result matches Ok(v) ==> tried.len() > 0 && outcomes[tried.len() - 1] == Ok::<
                T,
                GscholarError,
            >(v))
            &&& (result is Err ==> forall|i: int| 0 <= i < outcomes.len() ==> #[trigger] outcomes[i] is Err)
            &&& (forall|i: int| 0 <= i < outcomes.len() ==> #[trigger] outcomes[i] is Err) ==> {
                &&& tried.len() == outcomes.len()
                &&& outcomes.len() > 0 ==> result == Err::<T, Option<GscholarError>>(
                    Some(outcomes.last()->Err_0),
                )
                &&& outcomes.len() == 0 ==> result == Err::<T, Option<GscholarError>>(None)
            }
        }),
{
    lemma_route_run_from(outcomes.len() as int, 0, None, outcomes);
    let (tried, result) = route_run(outcomes.len() as int, 0, None, outcomes);
    if result matches Ok(v) {
        assert(outcomes[tried.len() - 1] is Ok);
    }
}


/// The relaxed queries a widening of `found` strict results tries: those of
/// `query` when the strict results are fewer than `max_results` or than 20,
/// whichever is smaller; none otherwise.
pub open spec fn relaxed_plan(query: Seq<char>, found: int, max_results: int) -> Seq<Seq<char>> {
    if found < min_nat(max_results, ARXIV_RELAXED_SEARCH_THRESHOLD as int) {
        relaxed_queries_for(query)
    } else {
        Seq::empty()
    }
}

/// The results after a relaxed query came back with `outcome`: what it
/// found merged in without duplicates, or nothing when it failed.
pub open spec fn relaxed_after(results: Seq<ResultView>, outcome: Option<Seq<ResultView>>) -> Seq<ResultView> {
    match outcome {
        Some(extra) => dedup_append(results, extra),
        None => results,
    }
}

/// A widening holding `results`, with `left` relaxed queries still to try,
/// whose queries come back in turn with `outcomes` (`None` for a failed
/// one): how many results each query asked for, and the results held at the
/// end. It stops when no query is left, `max` results are held, or no
/// outcome is left. `RelaxedSearch` is this run: `next_query`, then `record`.
pub open spec fn relaxed_run(
    max: int,
    results: Seq<ResultView>,
    left: int,
    outcomes: Seq<Option<Seq<ResultView>>>,
) -> (Seq<int>, Seq<ResultView>)
    decreases outcomes.len(),
{
    if left <= 0 || results.len() >= max || outcomes.len() == 0 {
        (Seq::empty(), results)
    } else {
        let rest = relaxed_run(max, relaxed_after(results, outcomes[0]), left - 1, outcomes.drop_first());
        (seq![max - results.len()] + rest.0, rest.1)
    }
}

/// `results` begins with `strict`, and no result after those repeats (by URL
/// or title key) one before it.
pub open spec fn strict_first_no_repeats(results: Seq<ResultView>, strict: Seq<ResultView>) -> bool {
    &&& strict.len() <= results.len()
    &&& results.take(strict.len() as int) == strict
    &&& forall|j: int|
        strict.len() <= j < results.len() ==> !is_duplicate(results.take(j), #[trigger] results[j])
}

proof fn lemma_relaxed_run_from(
    max: int,
    strict: Seq<ResultView>,
    results: Seq<ResultView>,
    left: int,
    outcomes: Seq<Option<Seq<ResultView>>>,
)
    requires
        strict_first_no_repeats(results, strict),
    ensures
        strict_first_no_repeats(relaxed_run(max, results, left, outcomes).1, strict),
        relaxed_run(max, results, left, outcomes).0.len() <= outcomes.len(),
        left <= 0 || results.len() >= max ==> relaxed_run(max, results, left, outcomes).0.len() == 0,
        relaxed_run(max, results, left, outcomes).0.len() <= if left < 0 { 0 } else { left },
        forall|i: int|
            0 <= i < relaxed_run(max, results, left, outcomes).0.len() ==> #[trigger] relaxed_run(
                max,
                results,
                left,
                outcomes,
            ).0[i] > 0,
    decreases outcomes.len(),
{
    if !(left <= 0 || results.len() >= max || outcomes.len() == 0) {
        let next = relaxed_after(results, outcomes[0]);
        match outcomes[0] {
            Some(extra) => {
                lemma_dedup_append(results, extra);
                assert forall|j: int| strict.len() <= j < next.len() implies !is_duplicate(
                    next.take(j),
                    #[trigger] next[j],
                ) by {
                    if j < results.len() {
                        assert(next.take(j) =~= next.take(results.len() as int).take(j));
                        assert(next[j] == next.take(results.len() as int)[j]);
                    }
                }
                assert(next.take(strict.len() as int) =~= next.take(results.len() as int).take(
                    strict.len() as int,
                ));
            },
            None => {},
        }
        lemma_relaxed_run_from(max, strict, next, left - 1, outcomes.drop_first());
        let rest = relaxed_run(max, next, left - 1, outcomes.drop_first());
        let all = relaxed_run(max, results, left, outcomes);
        assert(all.0 =~= seq![max - results.len()] + rest.0);
        assert forall|i: int| 0 <= i < all.0.len() implies #[trigger] all.0[i] > 0 by {
            if i > 0 {
                assert(all.0[i] == rest.0[i - 1]);
            }
        }
    }
}

/// The law of a relaxed search. The strict query of `query` found `strict`
/// (more than none); the search wants `max` results (at least one); its
/// relaxed queries (`relaxed_plan`) come back in turn with `outcomes`
/// (`None` for a failed one, which is skipped). Relaxed queries run only
/// when the strict results are fewer than `max` or than 20; each asks for
/// the results still wanted; the results handed out (`RelaxedSearch::finish`)
/// are at most `max`, begin with the strict results when those fit, and
/// none of the results after the strict ones repeats an earlier one by URL
/// or title key.
pub proof fn lemma_relaxed_search(
    query: Seq<char>,
    strict: Seq<ResultView>,
    max: int,
    outcomes: Seq<Option<Seq<ResultView>>>,
)
    requires
        max >= 1,
    ensures
        ({
            let left = relaxed_plan(query, strict.len() as int, max).len() as int;
            let (asked, held) = relaxed_run(max, strict, left, outcomes);
            let out = if max <= held.len() {
                held.take(max)
            } else {
                held
            };
            &&& strict.len() >= min_nat(max, ARXIV_RELAXED_SEARCH_THRESHOLD as int) ==> asked.len() == 0
            &&& asked.len() <= left
            &&& forall|i: int| 0 <= i < asked.len() ==> #[trigger] asked[i] > 0
            &&& out.len() <= max
            &&& strict.len() <= max ==> out.take(strict.len() as int) == strict
            &&& strict_first_no_repeats(held, strict)
            &&& forall|j: int|
                strict.len() <= j < out.len() ==> !is_duplicate(out.take(j), #[trigger] out[j])
        }),
{
    let left = relaxed_plan(query, strict.len() as int, max).len() as int;
    assert(strict.take(strict.len() as int) =~= strict);
    lemma_relaxed_run_from(max, strict, strict, left, outcomes);
    let (asked, held) = relaxed_run(max, strict, left, outcomes);
    let out = if max <= held.len() {
        held.take(max)
    } else {
        held
    };
    if strict.len() <= max {
        assert(out.take(strict.len() as int) =~= held.take(strict.len() as int));
    }
    assert forall|j: int| strict.len() <= j < out.len() implies !is_duplicate(
        out.take(j),
        #[trigger] out[j],
    ) by {
        assert(out.take(j) =~= held.take(j));
        assert(out[j] == held[j]);
    }
}

} // verus!
