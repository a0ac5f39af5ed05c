use vstd::prelude::*;

use crate::query::{Query, ResultView, SearchResult};

verus! {

/// How many attempts at fetching the search results are made at most.
pub const CONNECT_ATTEMPTS_MAX: usize = 3;

/// The pause after a rate-limited answer, in milliseconds.
pub const RATE_LIMIT_BACKOFF_MS: u64 = 1000;

/// The pause after a successful answer before it is used, in milliseconds.
pub const POLITENESS_DELAY_MS: u64 = 500;

/// The HTTP status of a successful answer.
pub const STATUS_OK: u16 = 200;

/// The HTTP status of a rate-limited answer.
pub const STATUS_TOO_MANY_REQUESTS: u16 = 429;

/// The text that `urlencoding::encode` makes of `s`.
pub uninterp spec fn url_encoded(s: Seq<char>) -> Seq<char>;

/// Whether `http::Uri` accepts `s`.
pub uninterp spec fn uri_accepts(s: Seq<char>) -> bool;

/// Characters that percent-encoding leaves as they are: ASCII letters and
/// digits, and `-`, `.`, `_`, `~`.
pub open spec fn is_unreserved(c: char) -> bool {
    let n = c as int;
    ||| 48 <= n <= 57
    ||| 65 <= n <= 90
    ||| 97 <= n <= 122
    ||| n == 45 || n == 46 || n == 95 || n == 126
}

/// The upper-case hexadecimal digit for `d`, below sixteen.
pub open spec fn hex_digit(d: int) -> char {
    "0123456789ABCDEF"@[d]
}

/// Percent-encoding of ASCII text: each character other than the unreserved
/// ones becomes `%` and its code in two upper-case hexadecimal digits.
pub open spec fn ascii_percent_encoded(s: Seq<char>) -> Seq<char>
    decreases s.len(),
{
    if s.len() == 0 {
        Seq::empty()
    } else {
        let c = s[0];
        let head = if is_unreserved(c) {
            seq![c]
        } else {
            seq!['%', hex_digit(c as int / 16), hex_digit(c as int % 16)]
        };
        head + ascii_percent_encoded(s.drop_first())
    }
}

/// Relies on `urlencoding::encode`: percent-encodes every byte of the UTF-8
/// text except ASCII letters, digits and `-`, `.`, `_`, `~`, with upper-case
/// hexadecimal digits; on ASCII text each character is one byte. The result
/// depends on the text alone.
#[verifier::external_body]
fn encode_query(s: &str) -> (r: String)
    ensures
        r@ == url_encoded(s@),
        (forall|i: int| 0 <= i < s@.len() ==> (s@[i] as int) < 128) ==> r@
            == ascii_percent_encoded(s@),
{
    urlencoding::encode(s).into_owned()
}

/// Relies on `http::Uri`'s `FromStr`: whether the text parses as a URI
/// depends on the text alone.
#[verifier::external_body]
fn parses_as_uri(s: &str) -> (r: bool)
    ensures
        r == uri_accepts(s@),
{
    s.parse::<http::Uri>().is_ok()
}

/// The request URI of a search for text whose encoded form is `encoded`.
pub open spec fn search_uri_text(encoded: Seq<char>) -> Seq<char> {
    "https://en.wikipedia.org/w/rest.php/v1/search/page?limit=5&q="@ + encoded
}

/// The URL of the article with key `key`.
pub open spec fn article_url(key: Seq<char>) -> Seq<char> {
    "https://en.wikipedia.org/wiki/"@ + key
}

/// One page record of a search answer: the fields that results are made of.
#[derive(Debug, Clone)]
pub struct PageRecord {
    pub key: String,
    pub title: String,
    pub excerpt: String,
}

/// Whether the article URL of this page is accepted, so that the page gives a result.
pub open spec fn page_usable(p: PageRecord) -> bool {
    uri_accepts(article_url(p.key@))
}

/// The result made of a usable page.
pub open spec fn page_result(p: PageRecord) -> ResultView {
    ResultView::Site { title: p.title@, url: article_url(p.key@), excerpt: Some(p.excerpt@) }
}

/// The results of a list of pages: one for each usable page, in order.
pub open spec fn page_results(pages: Seq<PageRecord>) -> Seq<ResultView>
    decreases pages.len(),
{
    if pages.len() == 0 {
        Seq::empty()
    } else {
        let rest = page_results(pages.drop_last());
        if page_usable(pages.last()) {
            rest.push(page_result(pages.last()))
        } else {
            rest
        }
    }
}

/// How many pages of a list are not usable.
pub open spec fn unusable_count(pages: Seq<PageRecord>) -> nat
    decreases pages.len(),
{
    if pages.len() == 0 {
        0
    } else {
        unusable_count(pages.drop_last()) + if page_usable(pages.last()) {
            0nat
        } else {
            1nat
        }
    }
}

/// The backend that searches Wikipedia's REST API.
#[derive(Debug, Clone)]
pub struct WikipediaSearch {
    user_agent: String,
}

impl WikipediaSearch {
    /// A backend that identifies itself with `user_agent` in its requests.
    pub fn new(user_agent: &str) -> (r: Self)
        ensures
            r.spec_user_agent() == user_agent@,
    {
        WikipediaSearch { user_agent: String::from_str(user_agent) }
    }

    pub closed spec fn spec_user_agent(&self) -> Seq<char> {
        self.user_agent@
    }

    /// The value of the `User-Agent` header of its requests.
    pub fn user_agent(&self) -> (r: &str)
        ensures
            r@ == self.spec_user_agent(),
    {
        self.user_agent.as_str()
    }

    /// The URI of the search request for `query`, asking for at most five pages.
    pub fn search_uri(&self, query: &Query) -> (r: String)
        ensures
            r@ == search_uri_text(url_encoded(query.0@)),
            (forall|i: int| 0 <= i < query.0@.len() ==> (query.0@[i] as int) < 128) ==> r@
                == search_uri_text(ascii_percent_encoded(query.0@)),
    {
        let encoded = encode_query(query.as_str());
        String::from_str("https://en.wikipedia.org/w/rest.php/v1/search/page?limit=5&q=").concat(
            encoded.as_str(),
        )
    }

    /// The URL of the article with key `key`.
    pub fn article_url(key: &str) -> (r: String)
        ensures
            r@ == article_url(key@),
    {
        String::from_str("https://en.wikipedia.org/wiki/").concat(key)
    }

    /// The result for one page record, or nothing when its article URL does not parse.
    pub fn result_from_page(page: &PageRecord) -> (r: Option<SearchResult>)
        ensures
            r is Some == page_usable(*page),
            r matches Some(x) ==> x@ == page_result(*page),
    {
        let url = Self::article_url(page.key.as_str());
        if parses_as_uri(url.as_str()) {
            Some(
                SearchResult::Site {
                    title: page.title.clone(),
                    url,
                    excerpt: Some(page.excerpt.clone()),
                },
            )
        } else {
            None
        }
    }

    /// The results for a list of page records: one per record whose article URL
    /// parses, in order; a record that does not is skipped without affecting the others.
    pub fn results_from_pages(pages: &Vec<PageRecord>) -> (r: Vec<SearchResult>)
        ensures
            r@.map_values(|x: SearchResult| x@) == page_results(pages@),
    {
        let mut r: Vec<SearchResult> = Vec::new();
        let mut i: usize = 0;
        while i < pages.len()
            invariant
                i <= pages@.len(),
                r@.map_values(|x: SearchResult| x@) == page_results(pages@.subrange(0, i as int)),
            decreases pages@.len() - i,
        {
            let ghost prev = r@;
            let found = Self::result_from_page(&pages[i]);
            proof {
                assert(pages@.subrange(0, i + 1).drop_last() =~= pages@.subrange(0, i as int));
                assert(pages@.subrange(0, i + 1).last() == pages@[i as int]);
            }
            match found {
                Some(x) => {
                    r.push(x);
                    proof {
                        assert(r@.map_values(|x: SearchResult| x@) =~= prev.map_values(
                            |x: SearchResult| x@,
                        ).push(x@));
                    }
                },
                None => {},
            }
            i = i + 1;
        }
        proof {
            assert(pages@.subrange(0, i as int) =~= pages@);
        }
        r
    }
}

/// Every page of a list gives exactly one result, except those whose article
/// URL is rejected, which give none; each result links to its page's article.
pub proof fn lemma_page_results_shape(pages: Seq<PageRecord>)
    ensures
        page_results(pages).len() + unusable_count(pages) == pages.len(),
        forall|i: int|
            0 <= i < page_results(pages).len() ==> exists|j: int|
                0 <= j < pages.len() && page_usable(pages[j]) && #[trigger] page_results(pages)[i]
                    == page_result(pages[j]),
    decreases pages.len(),
{
    if pages.len() > 0 {
        let init = pages.drop_last();
        lemma_page_results_shape(init);
        let rs = page_results(pages);
        assert forall|i: int| 0 <= i < rs.len() implies exists|j: int|
            0 <= j < pages.len() && page_usable(pages[j]) && #[trigger] rs[i] == page_result(
                pages[j],
            ) by {
            if i < page_results(init).len() {
                let j = choose|j: int|
                    0 <= j < init.len() && page_usable(init[j]) && page_results(init)[i]
                        == page_result(init[j]);
                assert(pages[j] == init[j]);
            } else {
                assert(pages[pages.len() - 1] == pages.last());
            }
        }
    }
}

/// What one attempt at fetching the search answer came back with.
#[derive(Debug, Clone, Copy, PartialEq, Eq, Structural)]
pub enum FetchEvent {
    /// An HTTP answer with this status code.
    Status(u16),
    /// No answer: the connection or the transfer failed.
    TransportError,
}

/// What to do after an attempt.
#[derive(Debug, Clone, Copy, PartialEq, Eq, Structural)]
pub enum FetchStep {
    /// Wait this long, then make another attempt.
    Retry { delay_ms: u64 },
    /// Wait this long, then read the answer.
    Accept { delay_ms: u64 },
    /// Stop: the search gives no results, and no error.
    GiveUp,
}

/// The step after the `made`-th attempt came back with `ev`.
pub open spec fn fetch_step(made: int, ev: FetchEvent) -> FetchStep {
    if ev == FetchEvent::Status(STATUS_OK) {
        FetchStep::Accept { delay_ms: POLITENESS_DELAY_MS }
    } else if made >= CONNECT_ATTEMPTS_MAX {
        FetchStep::GiveUp
    } else if ev == FetchEvent::Status(STATUS_TOO_MANY_REQUESTS) {
        FetchStep::Retry { delay_ms: RATE_LIMIT_BACKOFF_MS }
    } else {
        FetchStep::Retry { delay_ms: 0 }
    }
}

/// The retry policy of a search request: it counts the attempts made and
/// decides after each one whether to retry, accept the answer or give up.
#[derive(Debug, Clone, Copy)]
pub struct FetchAttempts {
    made: usize,
}

impl FetchAttempts {
    pub closed spec fn spec_made(&self) -> int {
        self.made as int
    }

    /// A policy before the first attempt.
    pub fn new() -> (r: Self)
        ensures
            r.spec_made() == 0,
    {
        FetchAttempts { made: 0 }
    }

    /// How many attempts have been made.
    pub fn made(&self) -> (r: usize)
        ensures
            r as int == self.spec_made(),
    {
        self.made
    }

    /// Records the outcome of one more attempt and says what to do next.
    pub fn on_outcome(&mut self, ev: FetchEvent) -> (r: FetchStep)
        requires
            old(self).spec_made() < CONNECT_ATTEMPTS_MAX,
        ensures
            final(self).spec_made() == old(self).spec_made() + 1,
            r == fetch_step(final(self).spec_made(), ev),
            r is Retry ==> final(self).spec_made() < CONNECT_ATTEMPTS_MAX,
    {
        self.made = self.made + 1;
        match ev {
            FetchEvent::Status(code) => {
                if code == STATUS_OK {
                    return FetchStep::Accept { delay_ms: POLITENESS_DELAY_MS };
                }
            },
            FetchEvent::TransportError => {},
        }
        if self.made >= CONNECT_ATTEMPTS_MAX {
            FetchStep::GiveUp
        } else {
            match ev {
                FetchEvent::Status(code) => {
                    if code == STATUS_TOO_MANY_REQUESTS {
                        FetchStep::Retry { delay_ms: RATE_LIMIT_BACKOFF_MS }
                    } else {
                        FetchStep::Retry { delay_ms: 0 }
                    }
                },
                FetchEvent::TransportError => FetchStep::Retry { delay_ms: 0 },
            }
        }
    }
}

} // verus!
