use rscholar::arxiv::search::{
    api_page_params, api_search_plan, arxiv_configured_proxy_urls,
    arxiv_network_routes_from_configured, cap_results, fallback_outcome, html_search_order,
    html_search_plan, html_search_results, html_search_size, html_search_status_error,
    relaxed_remaining, routes_exhausted_error, wants_relaxed_queries, ApiPaging, ApiResponse,
    ArxivNetworkRoute, FetchStep, PageFetch, RelaxedSearch, RouteAttempts,
};
use rscholar::arxiv::{ArxivQueryOptions, ArxivResult};
use rscholar::error::GscholarError;

fn options(max_results: usize, page_size: usize, sort_by: &str, sort_order: &str) -> ArxivQueryOptions {
    ArxivQueryOptions {
        max_results,
        page_size,
        sort_by: sort_by.to_string(),
        sort_order: sort_order.to_string(),
        timeout_secs: 10,
        request_delay_ms: 0,
    }
}

fn entry(id: &str, title: &str) -> String {
    format!(
        r#"<entry>
  <id>https://arxiv.org/abs/{id}</id>
  <published>2026-05-09T00:00:00Z</published>
  <title>{title}</title>
  <summary>Stub abstract.</summary>
  <author><name>Alice Example</name></author>
  <link href="https://arxiv.org/abs/{id}" rel="alternate" type="text/html"/>
  <link href="https://arxiv.org/pdf/{id}" rel="related" type="application/pdf" title="pdf"/>
</entry>"#
    )
}

fn feed(entries: &[String]) -> String {
    format!(
        "<?xml version=\"1.0\" encoding=\"UTF-8\"?>\n<feed xmlns=\"http://www.w3.org/2005/Atom\">\n{}\n</feed>",
        entries.join("\n")
    )
}

#[test]
fn test_arxiv_network_routes_try_direct_then_local_proxy_ports() {
    let routes = arxiv_network_routes_from_configured(vec![
        "http://127.0.0.1:10808".to_string(),
        "http://custom-proxy.local:8080".to_string(),
    ]);

    assert_eq!(
        routes,
        vec![
            ArxivNetworkRoute::Direct,
            ArxivNetworkRoute::Proxy("http://127.0.0.1:10808".to_string()),
            ArxivNetworkRoute::Proxy("http://custom-proxy.local:8080".to_string()),
            ArxivNetworkRoute::Proxy("socks5h://127.0.0.1:10808".to_string()),
            ArxivNetworkRoute::Proxy("http://127.0.0.1:7890".to_string()),
            ArxivNetworkRoute::Proxy("socks5h://127.0.0.1:7890".to_string()),
        ]
    );
}

#[test]
fn route_labels_and_configured_urls() {
    assert_eq!(ArxivNetworkRoute::Direct.label(), "direct");
    assert_eq!(ArxivNetworkRoute::Proxy("http://p:1".to_string()).label(), "http://p:1");
    assert_eq!(
        arxiv_configured_proxy_urls(&vec![" http://a:1 ".to_string(), "  ".to_string(), "socks5h://b:2".to_string()]),
        vec!["http://a:1".to_string(), "socks5h://b:2".to_string()]
    );
    assert_eq!(arxiv_network_routes_from_configured(Vec::new()).len(), 5);
}

#[test]
fn html_search_sizes_and_orders() {
    assert_eq!(html_search_size(0), 25);
    assert_eq!(html_search_size(25), 25);
    assert_eq!(html_search_size(26), 50);
    assert_eq!(html_search_size(100), 100);
    assert_eq!(html_search_size(101), 200);
    assert_eq!(html_search_order(&options(10, 10, "submittedDate", "DESCENDING")), "-submitted_date");
    assert_eq!(html_search_order(&options(10, 10, "submittedDate", "ascending")), "submitted_date");
    assert_eq!(
        html_search_order(&options(10, 10, "lastUpdatedDate", "descending")),
        "-announced_date_first"
    );
    assert_eq!(html_search_order(&options(10, 10, "relevance", "descending")), "");
}

#[test]
fn html_search_plan_parameters() {
    assert!(html_search_plan("   ", &options(10, 10, "relevance", "descending")).is_none());
    let plan = html_search_plan(" glaze ", &options(500, 10, "submittedDate", "descending")).unwrap();
    assert_eq!(plan.limit, 200);
    let params: Vec<(&str, &str)> =
        plan.params.iter().map(|(k, v)| (k.as_str(), v.as_str())).collect();
    assert_eq!(
        params,
        vec![
            ("query", "glaze"),
            ("searchtype", "all"),
            ("abstracts", "show"),
            ("size", "200"),
            ("order", "-submitted_date"),
        ]
    );
    let plan = html_search_plan("glaze", &options(0, 10, "relevance", "descending")).unwrap();
    assert_eq!(plan.limit, 1);
    assert_eq!(plan.params.len(), 4);
}

#[test]
fn html_status_errors() {
    assert_eq!(html_search_status_error(429), Some(GscholarError::RateLimited(600)));
    assert_eq!(
        html_search_status_error(503),
        Some(GscholarError::Api {
            code: 503,
            message: "arXiv HTML search returned non-success status".to_string()
        })
    );
    assert_eq!(html_search_status_error(200), None);
    assert!(html_search_results("<html></html>", 5).is_empty());
}

#[test]
fn api_params_and_plan() {
    let params = api_page_params("all:glaze", 20, 10, &options(30, 10, "relevance", "descending"));
    let params: Vec<(&str, &str)> = params.iter().map(|(k, v)| (k.as_str(), v.as_str())).collect();
    assert_eq!(
        params,
        vec![
            ("search_query", "all:glaze"),
            ("start", "20"),
            ("max_results", "10"),
            ("sortBy", "relevance"),
            ("sortOrder", "descending"),
        ]
    );
    assert!(api_search_plan("  ", &options(0, 10, "relevance", "descending")).is_none());
    let plan = api_search_plan("machine learning", &options(0, 10, "relevance", "descending")).unwrap();
    assert_eq!(plan.search_query, "all:machine AND all:learning");
    assert_eq!(plan.max_results, 1);
}

#[test]
fn paging_stops_on_a_short_page() {
    let mut paging = ApiPaging::new(&options(5, 2, "relevance", "descending"), 5);
    assert_eq!(paging.next_batch(), Some((0, 2)));
    paging.record_page(2, &feed(&[entry("1", "One"), entry("2", "Two")]));
    assert_eq!(paging.next_batch(), Some((2, 2)));
    paging.record_page(2, &feed(&[entry("3", "Three")]));
    assert!(paging.is_finished());
    assert_eq!(paging.next_batch(), None);
    let titles: Vec<String> = paging.into_results().into_iter().map(|r| r.title).collect();
    assert_eq!(titles, vec!["One", "Two", "Three"]);
}

#[test]
fn paging_asks_only_for_what_is_left() {
    let mut paging = ApiPaging::new(&options(3, 0, "relevance", "descending"), 3);
    assert_eq!(paging.page_size(), 1);
    let mut paging_big = ApiPaging::new(&options(3, 5000, "relevance", "descending"), 3);
    assert_eq!(paging_big.page_size(), 2000);
    assert_eq!(paging_big.next_batch(), Some((0, 3)));
    paging_big.record_page(3, &feed(&[entry("1", "A"), entry("2", "B"), entry("3", "C"), entry("4", "D")]));
    assert_eq!(paging_big.next_batch(), None);
    assert_eq!(paging_big.into_results().len(), 3);
    paging.record_page(1, &feed(&[]));
    assert!(paging.is_finished());
}

#[test]
fn paged_search_offsets_add_up_the_earlier_counts() {
    let mut paging = ApiPaging::new(&options(7, 3, "relevance", "descending"), 7);
    let mut requests = Vec::new();
    let mut n = 0;
    while let Some((start, count)) = paging.next_batch() {
        requests.push((start, count));
        let entries: Vec<String> = (0..count).map(|_| { n += 1; entry(&n.to_string(), &format!("T{n}")) }).collect();
        paging.record_page(count, &feed(&entries));
    }
    assert_eq!(requests, vec![(0, 3), (3, 3), (6, 1)]);
    assert_eq!(paging.into_results().len(), 7);
    let mut none = ApiPaging::new(&options(0, 3, "relevance", "descending"), 0);
    assert_eq!(none.next_batch(), None);
    none.record_page(0, &feed(&[]));
    assert!(none.into_results().is_empty());
}

#[test]
fn page_fetch_moves_through_endpoints() {
    let mut fetch = PageFetch::new();
    assert!(matches!(fetch.first_step(2), FetchStep::Send(0)));
    for _ in 0..5 {
        assert!(matches!(fetch.step(ApiResponse::ServerError, 2), FetchStep::PauseThenSend(0)));
    }
    assert!(matches!(fetch.step(ApiResponse::ServerError, 2), FetchStep::Send(1)));
    match fetch.step(ApiResponse::Body("<feed/>".to_string()), 2) {
        FetchStep::Page(body) => assert_eq!(body, "<feed/>"),
        _ => panic!("expected the page"),
    }
}

#[test]
fn page_fetch_reports_rate_limit_or_last_error() {
    let mut fetch = PageFetch::new();
    assert!(matches!(
        fetch.step(ApiResponse::RateLimited(Some(" 30 ".to_string())), 2),
        FetchStep::Send(1)
    ));
    match fetch.step(ApiResponse::RequestFailed("connection reset".to_string()), 2) {
        FetchStep::Fail(e) => assert_eq!(e, GscholarError::RateLimited(30)),
        _ => panic!("expected failure"),
    }

    let mut fetch = PageFetch::new();
    match fetch.step(ApiResponse::RateLimited(None), 1) {
        FetchStep::Fail(e) => assert_eq!(e, GscholarError::RateLimited(600)),
        _ => panic!("expected failure"),
    }

    let mut fetch = PageFetch::new();
    match fetch.step(ApiResponse::BodyError("truncated body".to_string()), 1) {
        FetchStep::Fail(e) => assert_eq!(
            e,
            GscholarError::Parse(
                "Failed to fetch arXiv response from all endpoints: truncated body".to_string()
            )
        ),
        _ => panic!("expected failure"),
    }

    match PageFetch::new().first_step(0) {
        FetchStep::Fail(e) => assert_eq!(
            e,
            GscholarError::Parse(
                "Failed to fetch arXiv response from all endpoints: unknown error".to_string()
            )
        ),
        _ => panic!("expected failure"),
    }
}

#[test]
fn sparse_results_are_widened() {
    assert!(wants_relaxed_queries(1, 10));
    assert!(!wants_relaxed_queries(10, 10));
    assert!(wants_relaxed_queries(19, 100));
    assert!(!wants_relaxed_queries(20, 100));
    assert_eq!(relaxed_remaining(4, 10), Some(6));
    assert_eq!(relaxed_remaining(10, 10), None);
    let results: Vec<ArxivResult> = (0..4)
        .map(|i| ArxivResult { title: format!("T{i}"), ..Default::default() })
        .collect();
    assert_eq!(cap_results(results, 2).len(), 2);
}

#[test]
fn fallback_and_route_errors() {
    let api_error = GscholarError::Parse("api".to_string());
    let papers = vec![ArxivResult { title: "From HTML".to_string(), ..Default::default() }];
    assert_eq!(fallback_outcome(api_error.clone(), Ok(papers.clone())), Ok(papers));
    assert_eq!(
        fallback_outcome(api_error.clone(), Err(GscholarError::RateLimited(600))),
        Err(api_error.clone())
    );
    assert_eq!(routes_exhausted_error(Some(api_error.clone())), api_error);
    assert_eq!(
        routes_exhausted_error(None),
        GscholarError::Api { code: 0, message: "No arXiv network route was available".to_string() }
    );
}

/// The entries a stub arXiv API answers for a query, at most `max_results`.
fn stub_api(search_query: &str, max_results: usize) -> String {
    let entries: Vec<String> =
        if search_query == "all:ceramic AND all:glaze AND all:property AND all:prediction" {
            vec![entry("2605.06641", "Strict Ceramic Glaze Property Prediction")]
        } else if search_query == "all:ceramic OR all:glaze OR all:property OR all:prediction"
            || search_query == "ceramic glaze property prediction"
        {
            (1..=5)
                .map(|idx| {
                    entry(
                        &format!("2605.0764{idx}"),
                        &format!("Relaxed Ceramic Glaze Result {idx}"),
                    )
                })
                .collect()
        } else {
            Vec::new()
        };
    feed(&entries.into_iter().take(max_results).collect::<Vec<_>>())
}

fn run_query(search_query: &str, options: &ArxivQueryOptions, max_results: usize) -> Vec<ArxivResult> {
    let mut paging = ApiPaging::new(options, max_results);
    while let Some((_, count)) = paging.next_batch() {
        let body = stub_api(search_query, count);
        paging.record_page(count, &body);
    }
    paging.into_results()
}

#[test]
fn sparse_query_is_widened_with_relaxed_results() {
    let query = "ceramic glaze property prediction";
    let options = options(10, 10, "relevance", "descending");
    let plan = api_search_plan(query, &options).unwrap();
    let strict = run_query(&plan.search_query, &options, plan.max_results);
    assert_eq!(strict.len(), 1);
    let mut relaxed = RelaxedSearch::new(query, strict, plan.max_results);
    while let Some((relaxed_query, remaining)) = relaxed.next_query() {
        relaxed.record(Ok(run_query(&relaxed_query, &options, remaining)));
    }
    let results = relaxed.finish();

    assert_eq!(results.len(), 6);
    assert_eq!(results[0].title, "Strict Ceramic Glaze Property Prediction");
    assert!(results
        .iter()
        .any(|paper| paper.title == "Relaxed Ceramic Glaze Result 5"));
}

#[test]
fn failed_relaxed_queries_are_skipped_and_strict_results_stay_first() {
    let options = options(3, 10, "relevance", "descending");
    let strict = vec![ArxivResult { title: "Strict".to_string(), url: "https://arxiv.org/abs/1".to_string(), ..Default::default() }];
    let mut relaxed = RelaxedSearch::new("ceramic glaze property", strict, 3);
    let (_, remaining) = relaxed.next_query().expect("a relaxed query");
    assert_eq!(remaining, 2);
    relaxed.record(Err(GscholarError::RateLimited(600)));
    let (_, remaining) = relaxed.next_query().expect("another relaxed query");
    assert_eq!(remaining, 2);
    relaxed.record(Ok(vec![
        ArxivResult { title: "Strict".to_string(), url: "https://arxiv.org/abs/1".to_string(), ..Default::default() },
        ArxivResult { title: "New A".to_string(), url: "https://arxiv.org/abs/2".to_string(), ..Default::default() },
        ArxivResult { title: "New B".to_string(), url: "https://arxiv.org/abs/3".to_string(), ..Default::default() },
    ]));
    assert!(relaxed.next_query().is_none());
    let titles: Vec<String> = relaxed.finish().into_iter().map(|r| r.title).collect();
    assert_eq!(titles, vec!["Strict", "New A", "New B"]);
    let _ = options;

    let full = RelaxedSearch::new("ceramic glaze property", vec![ArxivResult::default(); 20], 50);
    assert!(full.next_query().is_none());
}

#[test]
fn routes_are_tried_in_turn() {
    let mut attempts = RouteAttempts::new(2);
    assert_eq!(attempts.next_route(), Some(0));
    attempts.record_failure(GscholarError::RateLimited(1));
    assert_eq!(attempts.next_route(), Some(1));
    attempts.record_failure(GscholarError::RateLimited(2));
    assert_eq!(attempts.next_route(), None);
    assert_eq!(attempts.exhausted_error(), GscholarError::RateLimited(2));
    assert_eq!(
        RouteAttempts::new(0).exhausted_error(),
        GscholarError::Api { code: 0, message: "No arXiv network route was available".to_string() }
    );
}
