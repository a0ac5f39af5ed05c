use amoeba::{
    Delivery, FetchAttempts, FetchEvent, FetchStep, PageRecord, Query, QueryEngine,
    QueryEngineBuilder, QueryEngineError, SearchResult, TestSearch, WikipediaSearch,
    INBOX_CAPACITY,
};

#[derive(Debug, Clone, Copy, PartialEq, Eq)]
enum Backend {
    Mock,
    Wiki,
}

fn page(key: &str, title: &str, excerpt: &str) -> PageRecord {
    PageRecord { key: key.to_string(), title: title.to_string(), excerpt: excerpt.to_string() }
}

fn site_url(r: &SearchResult) -> String {
    match r {
        SearchResult::Site { url, .. } => url.clone(),
        SearchResult::File { location, .. } => location.clone(),
    }
}

#[test]
fn registering_a_name_twice_fails_and_keeps_the_first() {
    let mut e = QueryEngine::new();
    assert!(e.register("test", Backend::Mock).is_ok());
    match e.register("test", Backend::Wiki) {
        Err(QueryEngineError::AlreadyRegistered(n)) => assert_eq!(n, "test"),
        Ok(()) => panic!("second registration accepted"),
    }
    assert!(e.in_registry("test"));
    assert_eq!(e.modifiers(), vec!["test".to_string()]);
    assert_eq!(*e.backend(0), Backend::Mock);
    let d = e.query(Query::new("x"), Some("test"));
    assert_eq!(d.targets, vec![0]);
}

#[test]
fn modifiers_are_sorted_and_unique() {
    let mut e = QueryEngine::new();
    assert!(e.register("wiki", Backend::Wiki).is_ok());
    assert!(e.register("test", Backend::Mock).is_ok());
    assert!(e.register("alpha", Backend::Mock).is_ok());
    assert!(e.register("wiki", Backend::Mock).is_err());
    assert_eq!(e.modifiers(), vec!["alpha".to_string(), "test".to_string(), "wiki".to_string()]);
    assert_eq!(*e.backend(2), Backend::Wiki);
    assert!(!e.in_registry("Wiki"));
    assert!(!e.in_registry("wik"));
}

#[test]
fn unknown_modifier_dispatches_to_no_backend() {
    let mut e = QueryEngine::new();
    assert!(e.register("test", Backend::Mock).is_ok());
    assert!(e.register("wiki", Backend::Wiki).is_ok());
    let d = e.query(Query::new("rust"), Some("nonexistent"));
    assert!(d.targets.is_empty());
    assert!(e.recv_any().is_empty());
}

#[test]
fn no_modifier_dispatches_to_every_backend() {
    let mut e = QueryEngine::new();
    assert!(e.register("wiki", Backend::Wiki).is_ok());
    assert!(e.register("test", Backend::Mock).is_ok());
    let d = e.query(Query::new("rust"), None);
    assert_eq!(d.targets, vec![0, 1]);
    assert_eq!(d.query.0, "rust");
    assert_eq!(d.generation, e.generation());
}

#[test]
fn mock_backend_alone_yields_one_result_with_the_query_text() {
    let mut e = QueryEngine::new();
    assert!(e.register("test", Backend::Mock).is_ok());
    let d = e.query(Query::new("hello"), None);
    assert_eq!(d.targets.len(), 1);
    assert_eq!(amoeba::mock::TEST_SEARCH_DELAY_MS, 400);
    let r = TestSearch.result_for(&d.query);
    assert_eq!(e.deliver(d.generation, r), Delivery::Accepted);
    let got = e.recv_any();
    assert_eq!(got.len(), 1);
    assert!(got[0].title().contains("hello"));
    assert_eq!(got[0].title(), "Test search result (hello)");
    assert_eq!(site_url(&got[0]), "https://www.google.com");
    assert!(e.recv_any().is_empty());
}

#[test]
fn reset_discards_output_of_the_earlier_generation() {
    let mut e = QueryEngine::new();
    assert!(e.register("test", Backend::Mock).is_ok());
    let old = e.query(Query::new("old"), None);
    assert_eq!(e.deliver(old.generation, TestSearch.result_for(&old.query)), Delivery::Accepted);
    e.reset_channels();
    assert_eq!(e.generation(), old.generation + 1);
    assert!(e.recv_any().is_empty());
    assert_eq!(e.deliver(old.generation, TestSearch.result_for(&old.query)), Delivery::Stale);
    let new = e.query(Query::new("new"), None);
    assert_eq!(e.deliver(new.generation, TestSearch.result_for(&new.query)), Delivery::Accepted);
    let got = e.recv_any();
    assert_eq!(got.len(), 1);
    assert_eq!(got[0].title(), "Test search result (new)");
}

#[test]
fn inbox_turns_results_away_at_capacity() {
    let mut e: QueryEngine<Backend> = QueryEngine::new();
    let q = Query::new("q");
    for _ in 0..INBOX_CAPACITY {
        assert_eq!(e.deliver(0, TestSearch.result_for(&q)), Delivery::Accepted);
    }
    assert_eq!(e.deliver(0, TestSearch.result_for(&q)), Delivery::Full);
    assert_eq!(e.recv_any().len(), 100);
    assert_eq!(e.deliver(0, TestSearch.result_for(&q)), Delivery::Accepted);
}

#[test]
fn rate_limited_twice_then_accepted() {
    let mut f = FetchAttempts::new();
    assert_eq!(f.on_outcome(FetchEvent::Status(429)), FetchStep::Retry { delay_ms: 1000 });
    assert_eq!(f.on_outcome(FetchEvent::Status(429)), FetchStep::Retry { delay_ms: 1000 });
    assert_eq!(f.on_outcome(FetchEvent::Status(200)), FetchStep::Accept { delay_ms: 500 });
    assert_eq!(f.made(), 3);
}

#[test]
fn three_failures_give_up_without_error() {
    let mut f = FetchAttempts::new();
    assert_eq!(f.on_outcome(FetchEvent::Status(500)), FetchStep::Retry { delay_ms: 0 });
    assert_eq!(f.on_outcome(FetchEvent::TransportError), FetchStep::Retry { delay_ms: 0 });
    assert_eq!(f.on_outcome(FetchEvent::Status(429)), FetchStep::GiveUp);
    assert_eq!(f.made(), 3);
}

#[test]
fn first_attempt_success_is_accepted() {
    let mut f = FetchAttempts::new();
    assert_eq!(f.on_outcome(FetchEvent::Status(200)), FetchStep::Accept { delay_ms: 500 });
    assert_eq!(f.made(), 1);
}

#[test]
fn a_record_with_an_unparsable_key_is_skipped() {
    let pages = vec![
        page("Rust_(programming_language)", "Rust (programming language)", "a language"),
        page("Rust", "Rust", "iron oxide"),
        page("Bad key", "Bad", "space in key"),
        page("Rust_Belt", "Rust Belt", "a region"),
        page("Rusty", "Rusty", "a name"),
    ];
    let results = WikipediaSearch::results_from_pages(&pages);
    assert_eq!(results.len(), 4);
    let keys = ["Rust_(programming_language)", "Rust", "Rust_Belt", "Rusty"];
    for (r, k) in results.iter().zip(keys.iter()) {
        assert_eq!(site_url(r), format!("https://en.wikipedia.org/wiki/{}", k));
    }
    assert_eq!(results[2].title(), "Rust Belt");
    match &results[0] {
        SearchResult::Site { excerpt, .. } => assert_eq!(excerpt.as_deref(), Some("a language")),
        _ => panic!("not a site"),
    }
    assert!(WikipediaSearch::result_from_page(&pages[2]).is_none());
}

#[test]
fn search_uri_encodes_the_query() {
    let w = WikipediaSearch::new("amoeba/0.1.0 (someone)");
    assert_eq!(w.user_agent(), "amoeba/0.1.0 (someone)");
    assert_eq!(
        w.search_uri(&Query::new("rust lang&co")),
        "https://en.wikipedia.org/w/rest.php/v1/search/page?limit=5&q=rust%20lang%26co"
    );
}

#[test]
fn mock_and_wiki_results_both_arrive_in_one_generation() {
    let mut e = QueryEngine::new();
    assert!(e.register("test", Backend::Mock).is_ok());
    assert!(e.register("wiki", Backend::Wiki).is_ok());
    let d = e.query(Query::new("rust"), None);
    assert_eq!(d.targets.len(), 2);
    let pages = vec![page("Rust", "Rust", "iron oxide"), page("Rust_Belt", "Rust Belt", "region")];
    for t in d.targets.iter() {
        match e.backend(*t) {
            Backend::Mock => {
                let r = TestSearch.result_for(&d.query);
                assert_eq!(e.deliver(d.generation, r), Delivery::Accepted);
            }
            Backend::Wiki => {
                for r in WikipediaSearch::results_from_pages(&pages) {
                    assert_eq!(e.deliver(d.generation, r), Delivery::Accepted);
                }
            }
        }
    }
    let got = e.recv_any();
    assert_eq!(got.len(), 3);
    assert!(got.iter().any(|r| r.title() == "Test search result (rust)"));
    assert!(got.iter().any(|r| r.title() == "Rust Belt"));
}

#[test]
fn builder_registers_everything_or_reports_the_duplicate() {
    let e = QueryEngineBuilder::new()
        .register("wiki", Backend::Wiki)
        .register("test", Backend::Mock)
        .build();
    match e {
        Ok(e) => assert_eq!(e.modifiers(), vec!["test".to_string(), "wiki".to_string()]),
        Err(_) => panic!("distinct names refused"),
    }
    let dup = QueryEngineBuilder::new()
        .register("test", Backend::Mock)
        .register("wiki", Backend::Wiki)
        .register("test", Backend::Wiki)
        .build();
    match dup {
        Err(err) => assert_eq!(err.message(), "Query engine already registered: test"),
        Ok(_) => panic!("duplicate accepted"),
    }
}

#[test]
fn builder_reports_the_first_name_given_again() {
    let dup = QueryEngineBuilder::new()
        .register("a", Backend::Mock)
        .register("b", Backend::Wiki)
        .register("b", Backend::Mock)
        .register("a", Backend::Wiki)
        .build();
    match dup {
        Err(QueryEngineError::AlreadyRegistered(n)) => assert_eq!(n, "b"),
        Ok(_) => panic!("duplicate accepted"),
    }
    let ok = QueryEngineBuilder::new()
        .register("wiki", Backend::Wiki)
        .register("test", Backend::Mock)
        .build();
    match ok {
        Ok(mut e) => {
            assert_eq!(*e.backend(0), Backend::Mock);
            assert_eq!(*e.backend(1), Backend::Wiki);
            assert_eq!(e.generation(), 0);
            assert!(e.recv_any().is_empty());
        }
        Err(_) => panic!("distinct names refused"),
    }
}

#[test]
fn unreserved_characters_are_not_encoded() {
    let w = WikipediaSearch::new("amoeba/0.1.0 (someone)");
    assert_eq!(
        w.search_uri(&Query::new("A-z_0.9~/")),
        "https://en.wikipedia.org/w/rest.php/v1/search/page?limit=5&q=A-z_0.9~%2F"
    );
}
