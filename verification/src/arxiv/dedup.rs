//! Merging further arXiv results into a list without repeating a paper.
use vstd::prelude::*;
use crate::arxiv::model::{result_views, ArxivResult, ResultView};
use crate::text::views;
use crate::text::{
    chars_eq, chars_of, collapse_whitespace, collapse_ws, copy_range, occurs_at, str_lowercase,
    to_lowercase, trim, trim_chars,
};

verus! {

broadcast use vstd::string::group_string_axioms;

/// `s` without any number of trailing copies of `p` (`trim_end_matches`).
pub open spec fn strip_suffix_all(s: Seq<char>, p: Seq<char>) -> Seq<char>
    decreases s.len(),
{
    if p.len() > 0 && p.len() <= s.len() && occurs_at(s, s.len() - p.len(), p) {
        strip_suffix_all(s.take(s.len() - p.len()), p)
    } else {
        s
    }
}

/// The key by which a URL identifies a paper: trimmed, without trailing
/// slashes and `.pdf` suffixes, lower-cased; `None` when that is empty.
pub open spec fn url_key(url: Seq<char>) -> Option<Seq<char>> {
    let n = str_lowercase(strip_suffix_all(strip_suffix_all(trim(url), seq!['/']), ".pdf"@));
    if n.len() == 0 {
        None
    } else {
        Some(n)
    }
}

/// The key by which a title identifies a paper: white space collapsed,
/// lower-cased; `None` when that is empty.
pub open spec fn title_key(title: Seq<char>) -> Option<Seq<char>> {
    let n = str_lowercase(collapse_ws(title));
    if n.len() == 0 {
        None
    } else {
        Some(n)
    }
}

/// Some paper of `ps` has URL key `k`.
pub open spec fn has_url_key(ps: Seq<ResultView>, k: Seq<char>) -> bool {
    exists|i: int| 0 <= i < ps.len() && url_key(#[trigger] ps[i].url) == Some(k)
}

/// Some paper of `ps` has title key `k`.
pub open spec fn has_title_key(ps: Seq<ResultView>, k: Seq<char>) -> bool {
    exists|i: int| 0 <= i < ps.len() && title_key(#[trigger] ps[i].title) == Some(k)
}

/// `p` shares its URL key or its title key with a paper of `ps`.
pub open spec fn is_duplicate(ps: Seq<ResultView>, p: ResultView) -> bool {
    ||| (match url_key(p.url) {
        Some(k) => has_url_key(ps, k),
        None => false,
    })
    ||| (match title_key(p.title) {
        Some(k) => has_title_key(ps, k),
        None => false,
    })
}

/// `base` followed by the papers of `add`, in order, each left out when it
/// duplicates a paper already in the list.
pub open spec fn dedup_append(base: Seq<ResultView>, add: Seq<ResultView>) -> Seq<ResultView>
    decreases add.len(),
{
    if add.len() == 0 {
        base
    } else {
        let b = dedup_append(base, add.drop_last());
        if is_duplicate(b, add.last()) {
            b
        } else {
            b.push(add.last())
        }
    }
}

/// Merging keeps `base` as it is in front, adds at most the new papers, and
/// adds none that repeats (by URL or title key) a paper before it.
pub proof fn lemma_dedup_append(base: Seq<ResultView>, add: Seq<ResultView>)
    ensures
        base.len() <= dedup_append(base, add).len() <= base.len() + add.len(),
        dedup_append(base, add).take(base.len() as int) == base,
        forall|j: int|
            base.len() <= j < dedup_append(base, add).len() ==> !is_duplicate(
                dedup_append(base, add).take(j),
                #[trigger] dedup_append(base, add)[j],
            ),
    decreases add.len(),
{
    if add.len() == 0 {
        assert(base.take(base.len() as int) =~= base);
    } else {
        lemma_dedup_append(base, add.drop_last());
        let b = dedup_append(base, add.drop_last());
        if !is_duplicate(b, add.last()) {
            let r = b.push(add.last());
            assert(r.take(base.len() as int) =~= b.take(base.len() as int));
            assert forall|j: int| base.len() <= j < r.len() implies !is_duplicate(
                r.take(j),
                #[trigger] r[j],
            ) by {
                if j < r.len() - 1 {
                    assert(r.take(j) =~= b.take(j));
                    assert(r[j] == b[j]);
                } else {
                    assert(r.take(j) =~= b);
                }
            }
        }
    }
}

/// The papers of `add` that merging into `base` keeps, in order: each is
/// kept unless it repeats a paper of `base` or one kept before it.
pub open spec fn dedup_kept(base: Seq<ResultView>, add: Seq<ResultView>) -> Seq<ResultView>
    decreases add.len(),
{
    if add.len() == 0 {
        Seq::empty()
    } else {
        let k = dedup_kept(base, add.drop_last());
        if is_duplicate(base + k, add.last()) {
            k
        } else {
            k.push(add.last())
        }
    }
}

/// The positions in `add` of the papers that `dedup_kept` keeps.
pub open spec fn dedup_kept_positions(base: Seq<ResultView>, add: Seq<ResultView>) -> Seq<int>
    decreases add.len(),
{
    if add.len() == 0 {
        Seq::empty()
    } else {
        let k = dedup_kept_positions(base, add.drop_last());
        if is_duplicate(base + dedup_kept(base, add.drop_last()), add.last()) {
            k
        } else {
            k.push(add.len() - 1)
        }
    }
}

/// The law of merging (`append_arxiv_results_dedup` gives `dedup_append`
/// and the number of papers appended): the merged list is `base` followed by
/// the kept papers, so as many are appended as are kept; the kept papers are the papers of `add` at increasing positions, in order;
/// and the paper at a position of `add` is kept exactly when it repeats (by
/// URL or title key) no paper of `base` and none kept before it.
pub proof fn lemma_dedup_kept(base: Seq<ResultView>, add: Seq<ResultView>)
    ensures
        dedup_append(base, add) == base + dedup_kept(base, add),
        dedup_append(base, add).len() - base.len() == dedup_kept(base, add).len(),
        dedup_kept_positions(base, add).len() == dedup_kept(base, add).len(),
        forall|i: int|
            0 <= i < dedup_kept(base, add).len() ==> {
                &&& 0 <= #[trigger] dedup_kept_positions(base, add)[i] < add.len()
                &&& dedup_kept(base, add)[i] == add[dedup_kept_positions(base, add)[i]]
            },
        forall|i: int, j: int|
            0 <= i < j < dedup_kept(base, add).len() ==> #[trigger] dedup_kept_positions(base, add)[i]
                < #[trigger] dedup_kept_positions(base, add)[j],
        forall|j: int|
            0 <= j < add.len() ==> (dedup_kept_positions(base, add).contains(j) <==> !is_duplicate(
                base + dedup_kept(base, add.take(j)),
                #[trigger] add[j],
            )),
    decreases add.len(),
{
    if add.len() == 0 {
        assert(base + Seq::<ResultView>::empty() =~= base);
    } else {
        let front = add.drop_last();
        lemma_dedup_kept(base, front);
        let k = dedup_kept(base, front);
        let ks = dedup_kept_positions(base, front);
        let n = add.len() - 1;
        let kept = dedup_kept(base, add);
        let pos = dedup_kept_positions(base, add);
        assert(add.take(n) =~= front);
        if !is_duplicate(base + k, add.last()) {
            assert(base + kept =~= (base + k).push(add.last()));
        }
        assert forall|i: int|
            0 <= i < kept.len() implies {
                &&& 0 <= #[trigger] pos[i] < add.len()
                &&& kept[i] == add[pos[i]]
            } by {
            if i < k.len() {
                assert(pos[i] == ks[i]);
                assert(kept[i] == k[i]);
                assert(front[ks[i]] == add[ks[i]]);
            }
        }
        assert forall|i: int, j: int| 0 <= i < j < kept.len() implies #[trigger] pos[i]
            < #[trigger] pos[j] by {
            assert(pos[i] == ks[i]);
            if j < k.len() {
                assert(pos[j] == ks[j]);
            } else {
                assert(0 <= ks[i] < front.len());
            }
        }
        assert forall|j: int| 0 <= j < add.len() implies (pos.contains(j) <==> !is_duplicate(
            base + dedup_kept(base, add.take(j)),
            #[trigger] add[j],
        )) by {
            if j < n {
                assert(add.take(j) =~= front.take(j));
                assert(add[j] == front[j]);
                if pos.contains(j) {
                    let x = choose|x: int| 0 <= x < pos.len() && pos[x] == j;
                    if x < ks.len() {
                        assert(ks[x] == j);
                        assert(ks.contains(j));
                    }
                }
                if ks.contains(j) {
                    let x = choose|x: int| 0 <= x < ks.len() && ks[x] == j;
                    assert(pos[x] == j);
                    assert(pos.contains(j));
                }
            } else {
                assert(add[j] == add.last());
                if ks.contains(j) {
                    let x = choose|x: int| 0 <= x < ks.len() && ks[x] == j;
                    assert(0 <= ks[x] < front.len());
                }
                if !is_duplicate(base + k, add.last()) {
                    assert(pos[ks.len() as int] == j);
                    assert(pos.contains(j));
                }
            }
        }
    }
}

fn strip_suffix_all_exec(s: Vec<char>, p: &Vec<char>) -> (r: Vec<char>)
    ensures
        r@ == strip_suffix_all(s@, p@),
{
    let mut hi = s.len();
    assert(s@.take(hi as int) =~= s@);
    loop
        invariant
            hi <= s.len(),
            strip_suffix_all(s@, p@) == strip_suffix_all(s@.take(hi as int), p@),
        ensures
            hi <= s.len(),
            strip_suffix_all(s@, p@) == s@.take(hi as int),
        decreases hi,
    {
        if p.len() > 0 && p.len() <= hi && crate::text::matches_at(&s, hi - p.len(), p) {
            let ghost t = s@.take(hi as int);
            assert(t.subrange(hi - p@.len(), hi as int) =~= s@.subrange(hi - p@.len(), hi as int));
            assert(t.take(hi - p@.len()) =~= s@.take(hi - p@.len()));
            hi = hi - p.len();
        } else {
            proof {
                let t = s@.take(hi as int);
                if p@.len() > 0 && p@.len() <= hi {
                    assert(t.subrange(hi - p@.len(), hi as int) =~= s@.subrange(
                        hi - p@.len(),
                        hi as int,
                    ));
                }
            }
            break;
        }
    }
    assert(s@.take(hi as int) =~= s@.subrange(0, hi as int));
    copy_range(&s, 0, hi)
}

/// The URL key of `url` (`url_key`).
pub fn normalize_arxiv_url_for_dedup(url: &str) -> (r: Option<Vec<char>>)
    ensures
        r matches Some(k) ==> url_key(url@) == Some(k@),
        r is None ==> url_key(url@) is None,
{
    let t = crate::text::trimmed_chars(url);
    let slash = vec!['/'];
    assert(slash@ =~= seq!['/']);
    let a = strip_suffix_all_exec(t, &slash);
    let pdf = chars_of(".pdf");
    let b = strip_suffix_all_exec(a, &pdf);
    let n = to_lowercase(&b);
    if n.len() == 0 {
        None
    } else {
        Some(n)
    }
}

/// The title key of `title` (`title_key`).
pub fn normalize_arxiv_title_for_dedup(title: &str) -> (r: Option<Vec<char>>)
    ensures
        r matches Some(k) ==> title_key(title@) == Some(k@),
        r is None ==> title_key(title@) is None,
{
    let c = chars_of(title);
    let collapsed = collapse_whitespace(&c);
    let n = to_lowercase(&collapsed);
    if n.len() == 0 {
        None
    } else {
        Some(n)
    }
}

fn key_listed(keys: &Vec<Vec<char>>, k: &Vec<char>) -> (b: bool)
    ensures
        b == views(keys@).contains(k@),
{
    let mut i: usize = 0;
    while i < keys.len()
        invariant
            i <= keys.len(),
            forall|j: int| 0 <= j < i ==> views(keys@)[j] != k@,
        decreases keys.len() - i,
    {
        if chars_eq(&keys[i], k) {
            assert(views(keys@)[i as int] == k@);
            return true;
        }
        i = i + 1;
    }
    false
}

/// The URL keys and title keys listed in `urls` and `titles` are exactly
/// those of the papers `ps`.
pub open spec fn keys_of(ps: Seq<ResultView>, urls: Seq<Seq<char>>, titles: Seq<Seq<char>>) -> bool {
    &&& forall|k: Seq<char>| urls.contains(k) <==> has_url_key(ps, k)
    &&& forall|k: Seq<char>| titles.contains(k) <==> has_title_key(ps, k)
}

fn add_keys(
    urls: &mut Vec<Vec<char>>,
    titles: &mut Vec<Vec<char>>,
    p: &ArxivResult,
    Ghost(ps): Ghost<Seq<ResultView>>,
)
    requires
        keys_of(ps, views(old(urls)@), views(old(titles)@)),
    ensures
        keys_of(ps.push(p@), views(final(urls)@), views(final(titles)@)),
{
    let ghost nps = ps.push(p@);
    assert forall|k: Seq<char>| has_url_key(nps, k) <==> (has_url_key(ps, k) || url_key(p@.url)
        == Some(k)) by {
        if has_url_key(nps, k) {
            let i = choose|i: int| 0 <= i < nps.len() && url_key(#[trigger] nps[i].url) == Some(k);
            if i < ps.len() {
                assert(nps[i] == ps[i]);
            }
        }
        if has_url_key(ps, k) {
            let i = choose|i: int| 0 <= i < ps.len() && url_key(#[trigger] ps[i].url) == Some(k);
            assert(nps[i] == ps[i]);
        }
        if url_key(p@.url) == Some(k) {
            assert(nps[ps.len() as int] == p@);
        }
    }
    assert forall|k: Seq<char>| has_title_key(nps, k) <==> (has_title_key(ps, k) || title_key(
        p@.title,
    ) == Some(k)) by {
        if has_title_key(nps, k) {
            let i = choose|i: int|
                0 <= i < nps.len() && title_key(#[trigger] nps[i].title) == Some(k);
            if i < ps.len() {
                assert(nps[i] == ps[i]);
            }
        }
        if has_title_key(ps, k) {
            let i = choose|i: int|
                0 <= i < ps.len() && title_key(#[trigger] ps[i].title) == Some(k);
            assert(nps[i] == ps[i]);
        }
        if title_key(p@.title) == Some(k) {
            assert(nps[ps.len() as int] == p@);
        }
    }
    match normalize_arxiv_url_for_dedup(p.url.as_str()) {
        Some(k) => {
            let ghost before = views(urls@);
            let ghost kv = k@;
            urls.push(k);
            assert(views(urls@) =~= before.push(kv));
            assert forall|x: Seq<char>| views(urls@).contains(x) <==> (before.contains(x) || x
                == kv) by {
                if views(urls@).contains(x) {
                    let i = choose|i: int| 0 <= i < views(urls@).len() && views(urls@)[i] == x;
                    if i < before.len() {
                        assert(before[i] == x);
                    }
                }
                if before.contains(x) {
                    let i = choose|i: int| 0 <= i < before.len() && before[i] == x;
                    assert(views(urls@)[i] == x);
                }
                if x == kv {
                    assert(views(urls@)[before.len() as int] == x);
                }
            }
        },
        None => {},
    }
    match normalize_arxiv_title_for_dedup(p.title.as_str()) {
        Some(k) => {
            let ghost before = views(titles@);
            let ghost kv = k@;
            titles.push(k);
            assert(views(titles@) =~= before.push(kv));
            assert forall|x: Seq<char>| views(titles@).contains(x) <==> (before.contains(x) || x
                == kv) by {
                if views(titles@).contains(x) {
                    let i = choose|i: int| 0 <= i < views(titles@).len() && views(titles@)[i] == x;
                    if i < before.len() {
                        assert(before[i] == x);
                    }
                }
                if before.contains(x) {
                    let i = choose|i: int| 0 <= i < before.len() && before[i] == x;
                    assert(views(titles@)[i] == x);
                }
                if x == kv {
                    assert(views(titles@)[before.len() as int] == x);
                }
            }
        },
        None => {},
    }
}

/// Appends to `base` the papers of `additional` that do not repeat a paper
/// already in the list, and returns how many were appended.
pub fn append_arxiv_results_dedup(base: &mut Vec<ArxivResult>, additional: Vec<ArxivResult>) -> (added: usize)
    ensures
        result_views(final(base)@) == dedup_append(result_views(old(base)@), result_views(
            additional@,
        )),
        added == final(base)@.len() - old(base)@.len(),
{
    let ghost base0 = result_views(base@);
    let ghost add = result_views(additional@);
    let mut urls: Vec<Vec<char>> = Vec::new();
    let mut titles: Vec<Vec<char>> = Vec::new();
    let mut i: usize = 0;
    assert(keys_of(Seq::<ResultView>::empty(), views(urls@), views(titles@)));
    while i < base.len()
        invariant
            i <= base.len(),
            base0 == result_views(base@),
            keys_of(result_views(base@).take(i as int), views(urls@), views(titles@)),
        decreases base.len() - i,
    {
        proof {
            assert(result_views(base@).take(i + 1) =~= result_views(base@).take(i as int).push(
                base@[i as int]@,
            ));
        }
        add_keys(&mut urls, &mut titles, &base[i], Ghost(result_views(base@).take(i as int)));
        i = i + 1;
    }
    assert(result_views(base@).take(base.len() as int) =~= base0);
    let old_len = base.len();
    let mut n: usize = 0;
    assert(dedup_append(base0, add.take(0)) == base0) by {
        assert(add.take(0).len() == 0);
    }
    while n < additional.len()
        invariant
            n <= additional.len(),
            add == result_views(additional@),
            base0 == result_views(old(base)@),
            old_len == old(base)@.len(),
            result_views(base@) == dedup_append(base0, add.take(n as int)),
            keys_of(result_views(base@), views(urls@), views(titles@)),
            base@.len() >= old_len,
            base@.len() - old_len <= n,
        decreases additional.len() - n,
    {
        let p = &additional[n];
        assert(add.take(n + 1).drop_last() =~= add.take(n as int));
        assert(add.take(n + 1).last() == p@);
        let uk = normalize_arxiv_url_for_dedup(p.url.as_str());
        let tk = normalize_arxiv_title_for_dedup(p.title.as_str());
        let dup_url = match &uk {
            Some(k) => key_listed(&urls, k),
            None => false,
        };
        let dup_title = match &tk {
            Some(k) => key_listed(&titles, k),
            None => false,
        };
        if !(dup_url || dup_title) {
            let ghost before = result_views(base@);
            add_keys(&mut urls, &mut titles, p, Ghost(before));
            base.push(p.duplicate());
            assert(result_views(base@) =~= before.push(p@));
        }
        n = n + 1;
    }
    assert(add.take(additional.len() as int) =~= add);
    base.len() - old_len
}

} // verus!
