use rscholar::arxiv::{
    append_arxiv_results_dedup, build_relaxed_search_queries, build_search_query,
    parse_atom_entries, parse_search_html_results, ArxivResult,
};
use rscholar::markup::decode_xml_entities;

#[test]
fn test_parse_atom_entries() {
    let xml = r#"
<feed xmlns="http://www.w3.org/2005/Atom" xmlns:arxiv="http://arxiv.org/schemas/atom">
  <entry>
    <id>http://arxiv.org/abs/1234.5678v1</id>
    <published>2024-01-10T00:00:00Z</published>
    <title>Test &amp; Title</title>
    <summary>Sample abstract text.</summary>
    <author><name>Alice A</name></author>
    <author><name>Bob B</name></author>
    <arxiv:doi>10.1000/test</arxiv:doi>
    <link rel="alternate" href="http://arxiv.org/abs/1234.5678v1" />
    <link title="pdf" href="http://arxiv.org/pdf/1234.5678v1" />
  </entry>
</feed>
        "#;

    let parsed = parse_atom_entries(xml);
    assert_eq!(parsed.len(), 1);
    let p = &parsed[0];
    assert_eq!(p.year, "2024");
    assert_eq!(p.doi, "10.1000/test");
    assert!(p.authors.contains("Alice A"));
    assert!(p.pdf_url.contains("/pdf/"));
    assert!(p.title.contains("Test & Title"));
}

#[test]
fn test_decode_xml_entities() {
    let s = decode_xml_entities("A &amp; B &lt; C");
    assert_eq!(s, "A & B < C");
}

#[test]
fn test_build_search_query_plain_words_use_and_semantics() {
    let query = build_search_query("machine learning, materials");
    assert_eq!(query, "all:machine AND all:learning AND all:materials");
}

#[test]
fn test_build_search_query_preserves_advanced_arxiv_query() {
    let query = build_search_query(r#"ti:"machine learning" AND cat:cs.LG"#);
    assert_eq!(query, r#"ti:"machine learning" AND cat:cs.LG"#);
}

#[test]
fn test_relaxed_search_queries_for_sparse_plain_query() {
    let queries = build_relaxed_search_queries("ceramic glaze property prediction");

    assert!(queries.contains(&"all:ceramic AND all:glaze AND all:property".to_string()));
    assert!(queries.contains(&"all:ceramic AND all:glaze".to_string()));
    assert!(
        queries.contains(&r#"all:"ceramic glaze" OR all:"property prediction""#.to_string())
    );
    assert!(queries.contains(&"ceramic glaze property prediction".to_string()));
    assert!(!queries.contains(&build_search_query("ceramic glaze property prediction")));
}

#[test]
fn test_append_arxiv_results_dedup() {
    let mut base = vec![ArxivResult {
        title: "A Sparse arXiv Result".to_string(),
        url: "https://arxiv.org/abs/2605.06641".to_string(),
        ..Default::default()
    }];
    let added = append_arxiv_results_dedup(
        &mut base,
        vec![
            ArxivResult {
                title: "A Sparse arXiv Result".to_string(),
                url: "https://arxiv.org/abs/2605.06641".to_string(),
                ..Default::default()
            },
            ArxivResult {
                title: "A Relaxed arXiv Result".to_string(),
                url: "https://arxiv.org/abs/2605.06642".to_string(),
                ..Default::default()
            },
        ],
    );

    assert_eq!(added, 1);
    assert_eq!(base.len(), 2);
}

#[test]
fn test_parse_atom_entries_link_attributes_in_arxiv_order() {
    let xml = r#"
<feed xmlns="http://www.w3.org/2005/Atom" xmlns:arxiv="http://arxiv.org/schemas/atom">
  <entry>
    <id>https://arxiv.org/abs/2501.02842v1</id>
    <published>2025-01-06T00:00:00Z</published>
    <title>Foundations of GenIR</title>
    <summary>Sample abstract text.</summary>
    <author><name>Alice A</name></author>
    <link href="https://arxiv.org/abs/2501.02842v1" rel="alternate" type="text/html"/>
    <link href="https://arxiv.org/pdf/2501.02842v1" rel="related" type="application/pdf" title="pdf"/>
  </entry>
</feed>
        "#;

    let parsed = parse_atom_entries(xml);
    assert_eq!(parsed.len(), 1);
    assert_eq!(parsed[0].url, "https://arxiv.org/abs/2501.02842v1");
    assert_eq!(parsed[0].pdf_url, "https://arxiv.org/pdf/2501.02842v1");
}

#[test]
fn test_parse_search_html_results() {
    let html = r#"
<ol>
  <li class="arxiv-result">
    <p class="list-title is-inline-block"><a href="https://arxiv.org/abs/2605.06641">arXiv:2605.06641</a>
      <span>[<a href="https://arxiv.org/pdf/2605.06641">pdf</a>]</span>
    </p>
    <p class="title is-5 mathjax">
      GlazyBench: A Benchmark for Ceramic Glaze Property Prediction
    </p>
    <p class="authors">
      <span>Authors:</span>
      <a href="/search/?searchtype=author&amp;query=Zhai%2C+Z">Ziyu Zhai</a>,
      <a href="/search/?searchtype=author&amp;query=Li%2C+S">Siyou Li</a>
    </p>
    <p class="abstract mathjax">
      <span class="abstract-full has-text-grey-dark mathjax" id="2605.06641v1-abstract-full" style="display: none;">
        Developing ceramic glazes with <span class="search-hit">machine</span> learning.
        <a class="is-size-7">Less</a>
      </span>
    </p>
    <p class="is-size-7"><span>Submitted</span> 7 May, 2026;</p>
  </li>
</ol>
        "#;

    let parsed = parse_search_html_results(html);
    assert_eq!(parsed.len(), 1);
    assert_eq!(
        parsed[0].title,
        "GlazyBench: A Benchmark for Ceramic Glaze Property Prediction"
    );
    assert_eq!(parsed[0].authors, "Ziyu Zhai, Siyou Li");
    assert_eq!(parsed[0].year, "2026");
    assert_eq!(parsed[0].url, "https://arxiv.org/abs/2605.06641");
    assert_eq!(parsed[0].pdf_url, "https://arxiv.org/pdf/2605.06641");
    assert!(parsed[0].abstract_text.contains("machine learning"));
}

#[test]
fn atom_titles_and_abstracts_lose_their_line_breaks() {
    let xml = "<feed><entry><id>http://arxiv.org/abs/1</id><title>Deep\n  Learning</title>\
               <summary>First line.\nSecond line.</summary></entry></feed>";
    let parsed = parse_atom_entries(xml);
    assert_eq!(parsed.len(), 1);
    assert_eq!(parsed[0].title, "Deep   Learning");
    assert_eq!(parsed[0].abstract_text, "First line. Second line.");
    assert!(!parsed[0].title.contains('\n'));
}

#[test]
fn html_text_fields_are_single_spaced() {
    let html = "<li class=\"arxiv-result\">\
        <p class=\"list-title is-inline-block\"><a href=\"https://arxiv.org/abs/2605.00001\">arXiv:2605.00001</a></p>\
        <p class=\"title is-5 mathjax\">\n   Spaced \t\n  Out   Title  </p>\
        <p class=\"authors\"><span>Authors:</span>\n  <a href=\"/a\">Ann   Lee</a>,\n <a href=\"/b\">Bo Li</a>  </p>\
        </li>";
    let parsed = parse_search_html_results(html);
    assert_eq!(parsed.len(), 1);
    assert_eq!(parsed[0].title, "Spaced Out Title");
    assert_eq!(parsed[0].authors, "Ann Lee, Bo Li");
    for field in [&parsed[0].title, &parsed[0].authors, &parsed[0].abstract_text] {
        assert!(!field.starts_with(' ') && !field.ends_with(' ') && !field.contains("  "));
    }
}
