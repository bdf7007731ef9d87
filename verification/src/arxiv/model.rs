//! The arXiv search options and normalized results.
use vstd::prelude::*;

verus! {

/// arXiv search options.
#[derive(Debug, Clone)]
pub struct ArxivQueryOptions {
    /// Total max results to collect across pages.
    pub max_results: usize,
    /// Per-request page size (`max_results` query parameter of the API).
    pub page_size: usize,
    /// Sort field (`relevance`, `submittedDate`, `lastUpdatedDate`).
    pub sort_by: String,
    /// Sort order (`ascending`, `descending`).
    pub sort_order: String,
    /// HTTP timeout seconds.
    pub timeout_secs: u64,
    /// Inter-request delay to keep a polite request rate.
    pub request_delay_ms: u64,
}

impl Default for ArxivQueryOptions {
    fn default() -> (r: Self)
        ensures
            r.max_results == 100,
            r.page_size == 100,
            r.sort_by@ == "relevance"@,
            r.sort_order@ == "descending"@,
            r.timeout_secs == 30,
            r.request_delay_ms == 3000,
    {
        ArxivQueryOptions {
            max_results: 100,
            page_size: 100,
            sort_by: String::from_str("relevance"),
            sort_order: String::from_str("descending"),
            timeout_secs: 30,
            request_delay_ms: 3000,
        }
    }
}

/// A normalized arXiv result.
#[derive(Debug, Clone, Default, PartialEq, Eq)]
pub struct ArxivResult {
    pub title: String,
    pub authors: String,
    pub year: String,
    pub doi: String,
    pub url: String,
    pub pdf_url: String,
    pub abstract_text: String,
}

impl ArxivResult {
    /// A copy of this result.
    pub fn duplicate(&self) -> (r: ArxivResult)
        ensures
            r@ == self@,
    {
        ArxivResult {
            title: self.title.clone(),
            authors: self.authors.clone(),
            year: self.year.clone(),
            doi: self.doi.clone(),
            url: self.url.clone(),
            pdf_url: self.pdf_url.clone(),
            abstract_text: self.abstract_text.clone(),
        }
    }
}

/// The text of the fields of an `ArxivResult`.
pub struct ResultView {
    pub title: Seq<char>,
    pub authors: Seq<char>,
    pub year: Seq<char>,
    pub doi: Seq<char>,
    pub url: Seq<char>,
    pub pdf_url: Seq<char>,
    pub abstract_text: Seq<char>,
}

impl View for ArxivResult {
    type V = ResultView;

    open spec fn view(&self) -> ResultView {
        ResultView {
            title: self.title@,
            authors: self.authors@,
            year: self.year@,
            doi: self.doi@,
            url: self.url@,
            pdf_url: self.pdf_url@,
            abstract_text: self.abstract_text@,
        }
    }
}

/// The views of a list of results.
pub open spec fn result_views(v: Seq<ArxivResult>) -> Seq<ResultView> {
    v.map_values(|r: ArxivResult| r@)
}


/// The values of the entries of `s` that hold one, in order.
pub open spec fn present<T>(s: Seq<Option<T>>) -> Seq<T>
    decreases s.len(),
{
    if s.len() == 0 {
        Seq::empty()
    } else {
        match s.last() {
            Some(v) => present(s.drop_last()).push(v),
            None => present(s.drop_last()),
        }
    }
}

/// The positions in `s` of the entries that hold a value, in order.
pub open spec fn present_positions<T>(s: Seq<Option<T>>) -> Seq<int>
    decreases s.len(),
{
    if s.len() == 0 {
        Seq::empty()
    } else {
        match s.last() {
            Some(v) => present_positions(s.drop_last()).push(s.len() - 1),
            None => present_positions(s.drop_last()),
        }
    }
}

/// `present(s)` holds exactly the values of `s`, one for each entry that
/// holds one, in the order of the entries.
pub proof fn lemma_present<T>(s: Seq<Option<T>>)
    ensures
        present_positions(s).len() == present(s).len() <= s.len(),
        forall|i: int|
            0 <= i < present(s).len() ==> {
                &&& 0 <= #[trigger] present_positions(s)[i] < s.len()
                &&& s[present_positions(s)[i]] == Some(present(s)[i])
            },
        forall|i: int, j: int|
            0 <= i < j < present(s).len() ==> #[trigger] present_positions(s)[i]
                < #[trigger] present_positions(s)[j],
        forall|j: int|
            0 <= j < s.len() ==> (present_positions(s).contains(j) <==> (#[trigger] s[j]) is Some),
    decreases s.len(),
{
    if s.len() > 0 {
        let f = s.drop_last();
        lemma_present(f);
        let n = s.len() - 1;
        let ps = present_positions(f);
        let pos = present_positions(s);
        let vals = present(s);
        assert forall|i: int| 0 <= i < vals.len() implies {
            &&& 0 <= #[trigger] pos[i] < s.len()
            &&& s[pos[i]] == Some(vals[i])
        } by {
            if i < ps.len() {
                assert(pos[i] == ps[i]);
                assert(f[ps[i]] == s[ps[i]]);
            }
        }
        assert forall|i: int, j: int| 0 <= i < j < vals.len() implies #[trigger] pos[i]
            < #[trigger] pos[j] by {
            assert(pos[i] == ps[i]);
            if j < ps.len() {
                assert(pos[j] == ps[j]);
            }
        }
        assert forall|j: int| 0 <= j < s.len() implies (pos.contains(j) <==> (#[trigger] s[j]) is Some) by {
            if j < n {
                assert(s[j] == f[j]);
                if pos.contains(j) {
                    let x = choose|x: int| 0 <= x < pos.len() && pos[x] == j;
                    if x < ps.len() {
                        assert(ps[x] == j);
                        assert(ps.contains(j));
                    }
                }
                if ps.contains(j) {
                    let x = choose|x: int| 0 <= x < ps.len() && ps[x] == j;
                    assert(pos[x] == j);
                }
            } else {
                if ps.contains(j) {
                    let x = choose|x: int| 0 <= x < ps.len() && ps[x] == j;
                    assert(ps[x] < f.len());
                }
                if s[j] is Some {
                    assert(pos[ps.len() as int] == j);
                }
            }
        }
    }
}

} // verus!
