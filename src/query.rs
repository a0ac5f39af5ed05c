use vstd::prelude::*;

verus! {

/// A search query: the raw text that the user typed.
#[derive(Debug, Clone)]
pub struct Query(pub String);

impl Query {
    pub fn new(query: &str) -> (r: Self)
        ensures
            r.0@ == query@,
    {
        Query(String::from_str(query))
    }

    pub fn as_str(&self) -> (r: &str)
        ensures
            r@ == self.0@,
    {
        self.0.as_str()
    }
}

/// One result produced by a backend.
#[derive(Debug, Clone)]
pub enum SearchResult {
    /// A web page. `url` is text that `http::Uri` accepts.
    Site { title: String, url: String, excerpt: Option<String> },
    /// A local file.
    File { title: String, location: String, excerpt: Option<String> },
}

/// The mathematical value of a `SearchResult`: its texts as character sequences.
pub enum ResultView {
    Site { title: Seq<char>, url: Seq<char>, excerpt: Option<Seq<char>> },
    File { title: Seq<char>, location: Seq<char>, excerpt: Option<Seq<char>> },
}

pub open spec fn opt_view(s: Option<String>) -> Option<Seq<char>> {
    match s {
        Some(t) => Some(t@),
        None => None,
    }
}

impl View for SearchResult {
    type V = ResultView;

    open spec fn view(&self) -> ResultView {
        match self {
            SearchResult::Site { title, url, excerpt } => ResultView::Site {
                title: title@,
                url: url@,
                excerpt: opt_view(*excerpt),
            },
            SearchResult::File { title, location, excerpt } => ResultView::File {
                title: title@,
                location: location@,
                excerpt: opt_view(*excerpt),
            },
        }
    }
}

impl SearchResult {
    pub fn title(&self) -> (r: &str)
        ensures
            r@ == (match self@ {
                ResultView::Site { title, .. } => title,
                ResultView::File { title, .. } => title,
            }),
    {
        match self {
            SearchResult::Site { title, .. } => title.as_str(),
            SearchResult::File { title, .. } => title.as_str(),
        }
    }
}

/// What can go wrong while the engine is being set up.
#[derive(Debug, Clone)]
pub enum QueryEngineError {
    /// A backend is already registered under this modifier name.
    AlreadyRegistered(String),
}

pub open spec fn already_registered_message(name: Seq<char>) -> Seq<char> {
    "Query engine already registered: "@ + name
}

impl QueryEngineError {
    /// A description of the error for people, naming the modifier in question.
    pub fn message(&self) -> (r: String)
        ensures
            match self {
                QueryEngineError::AlreadyRegistered(name) => r@ == already_registered_message(name@),
            },
    {
        match self {
            QueryEngineError::AlreadyRegistered(name) => {
                let r = String::from_str("Query engine already registered: ");
                r.concat(name.as_str())
            },
        }
    }
}

} // verus!
