use vstd::prelude::*;

use crate::query::{Query, ResultView, SearchResult};

verus! {

/// How long the canned backend waits before it answers, in milliseconds.
pub const TEST_SEARCH_DELAY_MS: u64 = 400;

/// The answer of the canned backend to a query with text `q`.
pub open spec fn canned_result(q: Seq<char>) -> ResultView {
    ResultView::Site {
        title: "Test search result ("@ + q + ")"@,
        url: "https://www.google.com"@,
        excerpt: Some("TestSearch::query"@),
    }
}

/// A backend with a fixed delay and exactly one canned result per query,
/// whose title holds the query text.
#[derive(Debug, Clone, Copy)]
pub struct TestSearch;

impl TestSearch {
    /// The single result this backend produces for `query`.
    pub fn result_for(&self, query: &Query) -> (r: SearchResult)
        ensures
            r@ == canned_result(query.0@),
    {
        let title = String::from_str("Test search result (").concat(query.as_str()).concat(")");
        SearchResult::Site {
            title,
            url: String::from_str("https://www.google.com"),
            excerpt: Some(String::from_str("TestSearch::query")),
        }
    }
}


/// Whatever the query text, the canned result is a site whose title holds it.
pub proof fn lemma_canned_title_holds_query(q: Seq<char>)
    ensures
        canned_result(q) matches ResultView::Site { title, .. } && exists|i: int|
            0 <= i <= title.len() - q.len() && #[trigger] title.subrange(i, i + q.len()) == q,
{
    reveal_strlit("Test search result (");
    reveal_strlit(")");
    let title = "Test search result ("@ + q + ")"@;
    assert(title.len() == 21 + q.len());
    let i: int = 20;
    assert(title.subrange(i, i + q.len()) =~= q);
    assert(canned_result(q) matches ResultView::Site { title: t, .. } && t == title);
}

} // verus!
