use rscholar::error::GscholarError;
use rscholar::relevance::{
    coverage_points, relevance_signals, sort_key, sort_order, tokenize, unique_terms, SortBy,
    SortKey,
};

fn chars(s: &str) -> Vec<char> {
    s.chars().collect()
}

fn strings(v: Vec<Vec<char>>) -> Vec<String> {
    v.into_iter().map(|t| t.into_iter().collect()).collect()
}

#[test]
fn sort_by_accepts_names_and_aliases() {
    assert_eq!(SortBy::from_request(None), Ok(SortBy::Relevance));
    assert_eq!(SortBy::from_request(Some("   ")), Ok(SortBy::Relevance));
    assert_eq!(SortBy::from_request(Some("Related")), Ok(SortBy::Relevance));
    assert_eq!(SortBy::from_request(Some("impact-factor")), Ok(SortBy::ImpactFactor));
    assert_eq!(SortBy::from_request(Some(" SCIIF ")), Ok(SortBy::ImpactFactor));
    assert_eq!(SortBy::from_request(Some("pdf-first")), Ok(SortBy::HasPdfDesc));
    assert_eq!(SortBy::from_request(Some("pdf_last")), Ok(SortBy::HasPdfAsc));
    assert_eq!(SortBy::default(), SortBy::Relevance);
}

#[test]
fn sort_by_rejects_unknown_names() {
    assert_eq!(
        SortBy::from_request(Some(" newest ")),
        Err(GscholarError::Validation(
            "Unsupported sort_by 'newest'. Supported values: relevance, impact_factor, has_pdf"
                .to_string()
        ))
    );
}

#[test]
fn tokens_are_lowercase_alphanumeric_runs() {
    assert_eq!(
        strings(tokenize(&chars("Deep-Learning for X-ray, 3D CNNs!"))),
        vec!["deep", "learning", "for", "ray", "3d", "cnns"]
    );
    // A single CJK character is three bytes long and counts as a term.
    assert_eq!(strings(tokenize(&chars("岩 a"))), vec!["岩"]);
    assert_eq!(
        strings(unique_terms(&chars("graph neural graph networks NEURAL"))),
        vec!["graph", "neural", "networks"]
    );
}

#[test]
fn signals_count_term_overlap() {
    let s = relevance_signals(
        "graph neural networks",
        Some("molecule property"),
        "Graph Neural Networks for Molecule Property Prediction",
        "We study graph models.",
        "NeurIPS",
    );
    assert_eq!(s.keyword_terms, 3);
    assert_eq!(s.focus_terms, 2);
    assert_eq!(s.title_hits, 3);
    assert_eq!(s.abstract_hits, 1);
    assert_eq!(s.focus_title_hits, 2);
    assert_eq!(s.focus_abstract_hits, 0);
    assert_eq!(s.venue_hits, 0);
    // Both phrases occur in the title.
    assert_eq!(s.phrase_points, 20);
    assert_eq!(s.coverage_points, 12 + 8 + 6);
}

#[test]
fn phrase_in_abstract_earns_less_than_in_title() {
    let in_title = relevance_signals("rock strength", None, "Rock strength prediction", "", "");
    let in_abstract = relevance_signals("rock strength", None, "Prediction", "On rock strength.", "");
    assert_eq!(in_title.phrase_points, 10);
    assert_eq!(in_abstract.phrase_points, 5);
    let short = relevance_signals(" ab ", None, "ab", "ab", "");
    assert_eq!(short.phrase_points, 0);
}

#[test]
fn coverage_points_thresholds() {
    assert_eq!(coverage_points(4, 0, 5, 0, 0), 12);
    assert_eq!(coverage_points(3, 2, 5, 0, 0), 8);
    assert_eq!(coverage_points(3, 1, 5, 2, 2), 6);
    assert_eq!(coverage_points(0, 0, 0, 0, 0), 0);
}

fn key(relevance: u8, metric: i64, year: i32, has_pdf: bool) -> SortKey {
    SortKey { relevance, metric, year, has_pdf }
}

#[test]
fn sort_key_defaults_missing_values() {
    let k = sort_key(None, 7, " 2021 ", "  ");
    assert_eq!(k, key(0, 7, 2021, false));
    let k = sort_key(Some(80), 0, "n.d.", "https://arxiv.org/pdf/1");
    assert_eq!(k, key(80, 0, 0, true));
}

#[test]
fn relevance_order_is_stable() {
    let keys = vec![
        key(50, 0, 2020, false),
        key(90, 0, 2019, true),
        key(50, 0, 2020, true),
        key(50, 5, 2018, false),
        key(50, 0, 2022, false),
    ];
    assert_eq!(sort_order(&keys, SortBy::Relevance), vec![1, 3, 4, 0, 2]);
    assert_eq!(sort_order(&keys, SortBy::ImpactFactor), vec![3, 1, 4, 0, 2]);
    assert_eq!(sort_order(&keys, SortBy::HasPdfDesc), vec![1, 2, 3, 4, 0]);
    assert_eq!(sort_order(&keys, SortBy::HasPdfAsc), vec![3, 4, 0, 1, 2]);
    assert_eq!(sort_order(&Vec::new(), SortBy::Relevance), Vec::<usize>::new());
}

#[test]
fn extreme_keys_sort_correctly() {
    let keys = vec![
        key(0, i64::MIN, i32::MIN, false),
        key(255, i64::MAX, i32::MAX, true),
        key(0, i64::MIN, i32::MAX, false),
    ];
    assert_eq!(sort_order(&keys, SortBy::Relevance), vec![1, 2, 0]);
    assert_eq!(sort_order(&keys, SortBy::HasPdfAsc), vec![2, 0, 1]);
}

#[test]
fn cjk_runs_become_character_pairs() {
    assert_eq!(
        strings(tokenize(&chars("机器学习 岩石"))),
        vec!["机器", "器学", "学习", "岩石"]
    );
    assert_eq!(strings(tokenize(&chars("CNN模型 x"))), vec!["cnn", "模型"]);
    assert_eq!(strings(tokenize(&chars("a岩b"))), vec!["岩"]);
}

#[test]
fn cjk_relevance_signals_reward_chinese_overlap() {
    let exact = relevance_signals(
        "机器学习 岩石强度预测",
        Some("关注岩石强度和机器学习预测方法"),
        "基于机器学习的岩石强度预测",
        "本文研究岩石强度预测方法。",
        "",
    );
    let weak = relevance_signals(
        "机器学习 岩石强度预测",
        Some("关注岩石强度和机器学习预测方法"),
        "香蕉根系形态观察",
        "本文研究植物生长。",
        "",
    );
    assert_eq!(exact.keyword_terms, 8);
    assert_eq!(exact.title_hits, 8);
    assert_eq!(weak.title_hits, 0);
    assert!(exact.abstract_hits > weak.abstract_hits);
    assert!(exact.focus_title_hits > weak.focus_title_hits);
}
