//! The arXiv source: query building, feed and search-page parsing, result
//! de-duplication and the decisions of the search loop.
pub mod query;
pub mod scan;
pub mod model;
pub mod atom;
pub mod html;
pub mod dedup;
pub mod search;
pub use atom::parse_atom_entries;
pub use dedup::{append_arxiv_results_dedup, normalize_arxiv_title_for_dedup, normalize_arxiv_url_for_dedup};
pub use html::parse_search_html_results;
pub use model::{ArxivQueryOptions, ArxivResult};
pub use query::{build_relaxed_search_queries, build_search_query};
