use linkdoctor::address::ResolvedUrl;
use linkdoctor::crawling::{crawl, Crawler, Polled, WorkerStep, CRAWL_THREADS};
use linkdoctor::fetching::{FetchReply, UrlError};
use linkdoctor::parsing::ParsedUrls;
use std::cell::RefCell;

fn page(address: &str, domain: &str) -> ResolvedUrl {
    ResolvedUrl { address: address.to_string(), domain: Some(domain.to_string()) }
}

fn home() -> ResolvedUrl {
    page("http://example.com/", "example.com")
}

fn served(body: &str) -> FetchReply {
    FetchReply::Response { status: 200, body: Some(body.to_string()) }
}

fn not_found() -> FetchReply {
    FetchReply::Response { status: 404, body: Some("not found".to_string()) }
}

fn no_links() -> ParsedUrls {
    ParsedUrls { urls: Vec::new(), malformed_urls: Vec::new() }
}

/// Lets worker 0 run the crawl to its end against `site`, and returns the
/// addresses that were requested, in order.
fn run(crawler: &mut Crawler, site: &dyn Fn(&str) -> FetchReply) -> Vec<String> {
    let requested = RefCell::new(Vec::new());
    loop {
        assert!(crawler.is_idle(0));
        match crawler.try_claim(0) {
            WorkerStep::Check(unit) => {
                requested.borrow_mut().push(unit.address.clone());
                assert!(crawler.is_busy(0));
                assert_eq!(crawler.active_count(), 1);
                let reply = site(&unit.address);
                crawler.complete(0, reply);
                assert_eq!(crawler.active_count(), 0);
            }
            WorkerStep::Wait => panic!("a lone worker has nobody to wait for"),
            WorkerStep::Exit => break,
        }
    }
    requested.into_inner()
}

/// Reads the outcomes of a finished crawl up to `Done`.
fn drain(crawler: &mut Crawler) -> Vec<Result<ResolvedUrl, UrlError>> {
    let mut outcomes = Vec::new();
    loop {
        match crawler.poll_next() {
            Polled::Outcome(outcome) => outcomes.push(outcome),
            Polled::Pending => panic!("a finished crawl has nothing pending"),
            Polled::Done => break,
        }
    }
    outcomes
}

fn checks(outcomes: &[Result<ResolvedUrl, UrlError>]) -> usize {
    let mut n = 0;
    for outcome in outcomes {
        match outcome {
            Err(UrlError::Malformed(_)) => {}
            _ => n += 1,
        }
    }
    n
}

fn assert_distinct(urls: &[ResolvedUrl]) {
    for i in 0..urls.len() {
        for j in (i + 1)..urls.len() {
            assert_ne!(urls[i].address, urls[j].address);
        }
    }
}

#[test]
fn crawl_starts_with_the_seed_queued_and_ten_idle_workers() {
    assert_eq!(CRAWL_THREADS, 10);
    let crawler = crawl("example.com", &home());
    assert_eq!(crawler.domain(), "example.com");
    assert_eq!(crawler.pool_size(), 10);
    assert_eq!(crawler.active_count(), 0);
    assert_eq!(crawler.visited(), vec![home()]);
    assert_eq!(crawler.visited_count(), 1);
    assert_eq!(crawler.claim_count(), 0);
    assert_eq!(crawler.outcome_count(), 0);
    assert!(!crawler.is_complete());
    for worker in 0..10 {
        assert!(crawler.is_idle(worker));
        assert!(!crawler.is_busy(worker));
    }
    assert!(!crawler.is_idle(10));
    assert!(!crawler.is_busy(10));
}

#[test]
fn stream_of_a_fresh_crawl_is_pending() {
    let mut crawler = crawl("example.com", &home());
    assert_eq!(crawler.poll_next(), Polled::Pending);
    assert_eq!(crawler.poll_next(), Polled::Pending);
}

#[test]
fn page_without_links_yields_one_outcome_then_done() {
    let mut crawler = crawl("example.com", &home());
    let requested = run(&mut crawler, &|_| served("<html><body>hello</body></html>"));
    assert_eq!(requested, vec!["http://example.com/"]);
    assert_eq!(crawler.poll_next(), Polled::Outcome(Ok(home())));
    assert_eq!(crawler.poll_next(), Polled::Done);
    assert_eq!(crawler.poll_next(), Polled::Done);
}

#[test]
fn page_linking_twice_to_a_path_yields_one_outcome_for_it() {
    let mut crawler = crawl("example.com", &home());
    let requested = run(&mut crawler, &|address| {
        if address == "http://example.com/" {
            served("<a href=\"/a\">first</a> <a href=\"/a\">second</a>")
        } else {
            served("leaf")
        }
    });
    assert_eq!(requested, vec!["http://example.com/", "http://example.com/a"]);
    let outcomes = drain(&mut crawler);
    assert_eq!(outcomes, vec![Ok(home()), Ok(page("http://example.com/a", "example.com"))]);
}

#[test]
fn cross_domain_link_is_checked_and_not_expanded() {
    let mut crawler = crawl("example.com", &home());
    let requested = run(&mut crawler, &|address| {
        if address == "http://example.com/" {
            served("<a href=\"http://other.example/x\">out</a>")
        } else {
            served("<a href=\"/deeper\">never followed</a> <a href=\"http://[::1\">bad</a>")
        }
    });
    assert_eq!(requested, vec!["http://example.com/", "http://other.example/x"]);
    let outcomes = drain(&mut crawler);
    assert_eq!(outcomes, vec![Ok(home()), Ok(page("http://other.example/x", "other.example"))]);
    assert_eq!(crawler.visited_count(), 2);
}

#[test]
fn cross_domain_link_that_fails_has_its_outcome_too() {
    let mut crawler = crawl("example.com", &home());
    run(&mut crawler, &|address| {
        if address == "http://example.com/" {
            served("<a href=\"http://other.example/x\">out</a>")
        } else {
            FetchReply::TransportError
        }
    });
    let outcomes = drain(&mut crawler);
    assert_eq!(
        outcomes,
        vec![
            Ok(home()),
            Err(UrlError::ConnectionFailed(page("http://other.example/x", "other.example"))),
        ]
    );
}

#[test]
fn malformed_link_is_reported_and_never_requested() {
    let mut crawler = crawl("example.com", &home());
    let requested = run(&mut crawler, &|_| served("<a href=\"http://[::1\">broken</a>"));
    assert_eq!(requested, vec!["http://example.com/"]);
    let outcomes = drain(&mut crawler);
    assert_eq!(outcomes, vec![Err(UrlError::Malformed("http://[::1".to_string())), Ok(home())]);
    assert_eq!(crawler.visited(), vec![home()]);
    assert_eq!(crawler.claim_count(), 1);
}

#[test]
fn silent_host_times_out_and_the_crawl_completes() {
    let mut crawler = crawl("example.com", &home());
    let requested = run(&mut crawler, &|address| {
        if address == "http://example.com/" {
            served("<a href=\"/slow\">slow</a><a href=\"/fast\">fast</a>")
        } else if address == "http://example.com/slow" {
            FetchReply::DeadlineElapsed
        } else {
            served("fast")
        }
    });
    assert_eq!(
        requested,
        vec!["http://example.com/", "http://example.com/slow", "http://example.com/fast"]
    );
    assert!(crawler.is_complete());
    let outcomes = drain(&mut crawler);
    assert_eq!(
        outcomes,
        vec![
            Ok(home()),
            Err(UrlError::TimedOut(page("http://example.com/slow", "example.com"))),
            Ok(page("http://example.com/fast", "example.com")),
        ]
    );
}

#[test]
fn seed_that_times_out_ends_the_crawl() {
    let mut crawler = crawl("example.com", &home());
    run(&mut crawler, &|_| FetchReply::DeadlineElapsed);
    assert_eq!(crawler.poll_next(), Polled::Outcome(Err(UrlError::TimedOut(home()))));
    assert_eq!(crawler.poll_next(), Polled::Done);
}

#[test]
fn page_linking_to_itself_is_claimed_once() {
    let mut crawler = crawl("example.com", &home());
    let requested = run(&mut crawler, &|_| served("<a href=\"/\">me</a> <a href=\"\">me too</a>"));
    assert_eq!(requested, vec!["http://example.com/"]);
    assert_eq!(drain(&mut crawler), vec![Ok(home())]);
    assert_eq!(crawler.claim_count(), 1);
}

#[test]
fn cycle_of_pages_ends() {
    let mut crawler = crawl("example.com", &home());
    let requested = run(&mut crawler, &|address| {
        if address == "http://example.com/" {
            served("<a href=\"/a\">a</a>")
        } else if address == "http://example.com/a" {
            served("<a href=\"/b\">b</a> <a href=\"/\">home</a>")
        } else {
            served("<a href=\"/a\">a</a> <a href=\"/\">home</a> <a href=\"/b\">b</a>")
        }
    });
    assert_eq!(
        requested,
        vec!["http://example.com/", "http://example.com/a", "http://example.com/b"]
    );
    assert_eq!(drain(&mut crawler).len(), 3);
}

#[test]
fn completed_crawl_has_no_duplicates_and_one_outcome_per_claim() {
    let mut crawler = crawl("example.com", &home());
    let requested = run(&mut crawler, &|address| {
        if address == "http://example.com/" {
            served(
                "<a href=\"/a\">a</a><a href=\"/b\">b</a><a href=\"/a\">a</a>\
                 <a href=\"http://\">bad</a><img src=\"/missing.png\">\
                 <link href=\"http://other.example/s.css\">",
            )
        } else if address == "http://example.com/a" {
            served("<a href=\"/b\">b</a><a href=\"/c\">c</a><a href=\"http://[::1\">bad</a>")
        } else if address == "http://example.com/b" {
            FetchReply::TransportError
        } else if address == "http://example.com/missing.png" {
            not_found()
        } else {
            served("<a href=\"/\">home</a>")
        }
    });
    assert!(crawler.is_complete());
    let visited = crawler.visited();
    assert_distinct(&visited);
    assert_eq!(visited.len(), 6);
    assert_eq!(requested.len(), 6);
    assert_eq!(crawler.claim_count(), 6);
    let outcomes = drain(&mut crawler);
    assert_eq!(outcomes.len(), 8);
    assert_eq!(checks(&outcomes), crawler.claim_count());
    assert_eq!(crawler.outcome_count(), 8);
    for url in &visited {
        let mut about = 0;
        for outcome in &outcomes {
            let subject = match outcome {
                Ok(u) => Some(u),
                Err(UrlError::BadStatus(u, _)) => Some(u),
                Err(UrlError::ConnectionFailed(u)) => Some(u),
                Err(UrlError::TimedOut(u)) => Some(u),
                Err(UrlError::Malformed(_)) => None,
            };
            if subject == Some(url) {
                about += 1;
            }
        }
        assert_eq!(about, 1);
    }
}

#[test]
fn frontier_is_first_in_first_out() {
    let mut crawler = crawl("example.com", &home());
    let requested = run(&mut crawler, &|address| {
        if address == "http://example.com/" {
            served("<a href=\"/1\">1</a><a href=\"/2\">2</a>")
        } else if address == "http://example.com/1" {
            served("<a href=\"/1/deep\">deep</a>")
        } else {
            served("")
        }
    });
    assert_eq!(
        requested,
        vec![
            "http://example.com/",
            "http://example.com/1",
            "http://example.com/2",
            "http://example.com/1/deep",
        ]
    );
}

#[test]
fn offer_accepts_a_url_once() {
    let mut crawler = crawl("example.com", &home());
    assert!(!crawler.offer(home()));
    assert!(crawler.offer(page("http://example.com/a", "example.com")));
    assert!(!crawler.offer(page("http://example.com/a", "example.com")));
    assert!(!crawler.offer(ResolvedUrl { address: "http://example.com/a".to_string(), domain: None }));
    assert!(crawler.offer(page("http://example.com/a#top", "example.com")));
    assert_eq!(
        crawler.visited(),
        vec![
            home(),
            page("http://example.com/a", "example.com"),
            page("http://example.com/a#top", "example.com"),
        ]
    );
    assert_eq!(crawler.claim_count(), 0);
    assert_eq!(crawler.outcome_count(), 0);
}

#[test]
fn active_count_stays_within_the_pool() {
    let mut crawler = Crawler::new("example.com", &home(), 3);
    assert_eq!(crawler.pool_size(), 3);
    assert_eq!(crawler.try_claim(0), WorkerStep::Check(home()));
    assert_eq!(crawler.active_count(), 1);
    assert_eq!(crawler.try_claim(1), WorkerStep::Wait);
    assert_eq!(crawler.active_count(), 1);
    let links = ParsedUrls {
        urls: vec![
            page("http://example.com/a", "example.com"),
            page("http://example.com/b", "example.com"),
            page("http://example.com/c", "example.com"),
            page("http://example.com/d", "example.com"),
        ],
        malformed_urls: Vec::new(),
    };
    crawler.settle(0, served("home"), &links);
    assert_eq!(crawler.active_count(), 0);
    assert_eq!(crawler.try_claim(2), WorkerStep::Check(page("http://example.com/a", "example.com")));
    assert_eq!(crawler.try_claim(0), WorkerStep::Check(page("http://example.com/b", "example.com")));
    assert_eq!(crawler.try_claim(1), WorkerStep::Check(page("http://example.com/c", "example.com")));
    assert_eq!(crawler.active_count(), 3);
    assert_eq!(crawler.active_count(), crawler.pool_size());
    for worker in 0..3 {
        assert!(crawler.is_busy(worker));
    }
    crawler.settle(1, not_found(), &no_links());
    assert_eq!(crawler.active_count(), 2);
    assert_eq!(crawler.try_claim(1), WorkerStep::Check(page("http://example.com/d", "example.com")));
    assert_eq!(crawler.active_count(), 3);
    crawler.settle(0, served(""), &no_links());
    crawler.settle(1, served(""), &no_links());
    assert_eq!(crawler.try_claim(0), WorkerStep::Wait);
    assert!(!crawler.is_complete());
    crawler.settle(2, served(""), &no_links());
    assert_eq!(crawler.active_count(), 0);
    assert!(crawler.is_complete());
    assert_eq!(crawler.try_claim(0), WorkerStep::Exit);
    assert_eq!(crawler.try_claim(1), WorkerStep::Exit);
    assert_eq!(crawler.try_claim(2), WorkerStep::Exit);
    assert_eq!(crawler.claim_count(), 5);
    assert_eq!(checks(&drain(&mut crawler)), 5);
}

#[test]
fn worker_waits_while_a_unit_in_flight_may_add_work() {
    let mut crawler = Crawler::new("example.com", &home(), 2);
    assert_eq!(crawler.try_claim(0), WorkerStep::Check(home()));
    assert_eq!(crawler.try_claim(1), WorkerStep::Wait);
    assert_eq!(crawler.poll_next(), Polled::Pending);
    crawler.complete(0, served("<a href=\"/next\">next</a>"));
    assert_eq!(crawler.poll_next(), Polled::Outcome(Ok(home())));
    assert_eq!(crawler.poll_next(), Polled::Pending);
    assert_eq!(
        crawler.try_claim(1),
        WorkerStep::Check(page("http://example.com/next", "example.com"))
    );
    assert_eq!(crawler.try_claim(0), WorkerStep::Wait);
    assert_eq!(crawler.poll_next(), Polled::Pending);
    crawler.complete(1, FetchReply::TransportError);
    assert_eq!(crawler.try_claim(0), WorkerStep::Exit);
    assert_eq!(
        crawler.poll_next(),
        Polled::Outcome(Err(UrlError::ConnectionFailed(page(
            "http://example.com/next",
            "example.com"
        ))))
    );
    assert_eq!(crawler.poll_next(), Polled::Done);
}

#[test]
fn stream_is_not_done_while_outcomes_are_unread() {
    let mut crawler = Crawler::new("example.com", &home(), 1);
    assert_eq!(crawler.try_claim(0), WorkerStep::Check(home()));
    let links = ParsedUrls {
        urls: Vec::new(),
        malformed_urls: vec!["http://[::1".to_string(), "http://".to_string()],
    };
    crawler.settle(0, served("home"), &links);
    assert!(crawler.is_complete());
    assert_eq!(
        crawler.poll_next(),
        Polled::Outcome(Err(UrlError::Malformed("http://[::1".to_string())))
    );
    assert_eq!(crawler.poll_next(), Polled::Outcome(Err(UrlError::Malformed("http://".to_string()))));
    assert_eq!(crawler.poll_next(), Polled::Outcome(Ok(home())));
    assert_eq!(crawler.poll_next(), Polled::Done);
}

#[test]
fn settle_ignores_the_links_of_a_failed_check() {
    let mut crawler = Crawler::new("example.com", &home(), 1);
    assert_eq!(crawler.try_claim(0), WorkerStep::Check(home()));
    let links = ParsedUrls {
        urls: vec![page("http://example.com/a", "example.com")],
        malformed_urls: vec!["http://".to_string()],
    };
    crawler.settle(0, not_found(), &links);
    assert_eq!(crawler.visited(), vec![home()]);
    assert_eq!(drain(&mut crawler), vec![Err(UrlError::BadStatus(home(), 404))]);
}

#[test]
fn settle_ignores_the_links_of_a_page_off_the_domain() {
    let seed = page("http://other.example/", "other.example");
    let mut crawler = Crawler::new("example.com", &seed, 1);
    assert_eq!(crawler.try_claim(0), WorkerStep::Check(seed.clone()));
    assert!(!crawler.expands(0, &served("page")));
    let links = ParsedUrls {
        urls: vec![page("http://example.com/a", "example.com")],
        malformed_urls: vec!["http://".to_string()],
    };
    crawler.settle(0, served("page"), &links);
    assert_eq!(crawler.visited(), vec![seed.clone()]);
    assert_eq!(drain(&mut crawler), vec![Ok(seed)]);
}

#[test]
fn expands_only_a_fetched_page_on_the_domain() {
    let mut crawler = Crawler::new("example.com", &home(), 1);
    assert_eq!(crawler.try_claim(0), WorkerStep::Check(home()));
    assert!(crawler.expands(0, &served("page")));
    assert!(crawler.expands(0, &FetchReply::Response { status: 204, body: Some(String::new()) }));
    assert!(!crawler.expands(0, &FetchReply::Response { status: 200, body: None }));
    assert!(!crawler.expands(0, &not_found()));
    assert!(!crawler.expands(0, &FetchReply::Response { status: 302, body: Some("x".to_string()) }));
    assert!(!crawler.expands(0, &FetchReply::TransportError));
    assert!(!crawler.expands(0, &FetchReply::DeadlineElapsed));
}

#[test]
fn page_with_unreadable_text_is_accessible_and_not_expanded() {
    let mut crawler = Crawler::new("example.com", &home(), 1);
    run(&mut crawler, &|_| FetchReply::Response { status: 200, body: None });
    assert_eq!(crawler.visited(), vec![home()]);
    assert_eq!(drain(&mut crawler), vec![Ok(home())]);
}

#[test]
fn settle_ignores_the_links_of_a_page_without_readable_text() {
    let mut crawler = Crawler::new("example.com", &home(), 1);
    assert_eq!(crawler.try_claim(0), WorkerStep::Check(home()));
    let links = ParsedUrls {
        urls: vec![page("http://example.com/a", "example.com")],
        malformed_urls: vec!["http://".to_string()],
    };
    crawler.settle(0, FetchReply::Response { status: 200, body: None }, &links);
    assert_eq!(crawler.visited(), vec![home()]);
    assert_eq!(drain(&mut crawler), vec![Ok(home())]);
}

#[test]
fn crawl_without_workers_never_ends() {
    let mut crawler = Crawler::new("example.com", &home(), 0);
    assert_eq!(crawler.pool_size(), 0);
    assert_eq!(crawler.active_count(), 0);
    assert!(!crawler.is_idle(0));
    assert!(!crawler.is_complete());
    assert_eq!(crawler.poll_next(), Polled::Pending);
}

#[test]
fn finished_crawl_has_visited_what_the_links_lead_to_and_nothing_else() {
    let mut crawler = crawl("example.com", &home());
    let requested = run(&mut crawler, &|address| {
        if address == "http://example.com/" {
            served("<a href=\"/a\">a</a><a href=\"http://other.example/\">out</a>")
        } else if address == "http://example.com/a" {
            served("<a href=\"/b\">b</a>")
        } else if address == "http://example.com/b" {
            not_found()
        } else if address == "http://other.example/" {
            served("<a href=\"http://example.com/hidden\">only linked from outside</a>")
        } else {
            served("<a href=\"/never\">never</a>")
        }
    });
    assert!(crawler.is_complete());
    assert_eq!(
        crawler.visited(),
        vec![
            home(),
            page("http://example.com/a", "example.com"),
            page("http://other.example/", "other.example"),
            page("http://example.com/b", "example.com"),
        ]
    );
    assert_eq!(requested.len(), 4);
}
