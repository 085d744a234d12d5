use linkdoctor::address::ResolvedUrl;
use linkdoctor::fetching::{
    fetch_all_urls, is_success, url_status, FetchRace, FetchReply, UrlError, TIMEOUT_SECS,
};

fn page(address: &str, domain: &str) -> ResolvedUrl {
    ResolvedUrl { address: address.to_string(), domain: Some(domain.to_string()) }
}

fn home() -> ResolvedUrl {
    page("http://example.com/", "example.com")
}

#[test]
fn success_with_text_is_the_body() {
    let reply = FetchReply::Response { status: 200, body: Some("<html></html>".to_string()) };
    assert_eq!(url_status(&home(), reply), Ok("<html></html>".to_string()));
}

#[test]
fn success_without_readable_text_is_accessible() {
    let reply = FetchReply::Response { status: 200, body: None };
    assert_eq!(url_status(&home(), reply), Ok(String::new()));
    let reply = FetchReply::Response { status: 204, body: None };
    assert_eq!(url_status(&home(), reply), Ok(String::new()));
    let reply = FetchReply::Response { status: 299, body: None };
    assert_eq!(url_status(&home(), reply), Ok(String::new()));
}

#[test]
fn failure_status_is_bad_status_with_the_code() {
    let reply = FetchReply::Response { status: 404, body: Some("gone".to_string()) };
    assert_eq!(url_status(&home(), reply), Err(UrlError::BadStatus(home(), 404)));
    let reply = FetchReply::Response { status: 500, body: None };
    assert_eq!(url_status(&home(), reply), Err(UrlError::BadStatus(home(), 500)));
}

#[test]
fn redirect_is_a_bad_status_and_not_followed() {
    let reply = FetchReply::Response { status: 301, body: Some("moved".to_string()) };
    assert_eq!(url_status(&home(), reply), Err(UrlError::BadStatus(home(), 301)));
}

#[test]
fn transport_error_is_connection_failed() {
    assert_eq!(
        url_status(&home(), FetchReply::TransportError),
        Err(UrlError::ConnectionFailed(home()))
    );
}

#[test]
fn elapsed_deadline_is_timed_out() {
    assert_eq!(url_status(&home(), FetchReply::DeadlineElapsed), Err(UrlError::TimedOut(home())));
}

#[test]
fn status_codes_from_200_to_299_are_success() {
    assert!(!is_success(0));
    assert!(!is_success(199));
    assert!(is_success(200));
    assert!(is_success(204));
    assert!(is_success(299));
    assert!(!is_success(300));
    assert!(!is_success(404));
    assert!(!is_success(u16::MAX));
}

#[test]
fn deadline_is_ten_seconds() {
    assert_eq!(TIMEOUT_SECS, 10);
}

#[test]
fn race_is_undecided_until_a_report() {
    let race = FetchRace::new();
    assert!(!race.is_decided());
    assert_eq!(race.into_reply(), None);
}

#[test]
fn deadline_wins_the_race_when_it_reports_first() {
    let mut race = FetchRace::new();
    assert!(race.report(FetchReply::DeadlineElapsed));
    assert!(race.is_decided());
    let late = FetchReply::Response { status: 200, body: Some("late".to_string()) };
    assert!(!race.report(late));
    let reply = race.into_reply();
    assert_eq!(reply, Some(FetchReply::DeadlineElapsed));
    assert_eq!(url_status(&home(), FetchReply::DeadlineElapsed), Err(UrlError::TimedOut(home())));
}

#[test]
fn response_wins_the_race_when_it_reports_first() {
    let mut race = FetchRace::new();
    let reply = FetchReply::Response { status: 200, body: Some("page".to_string()) };
    assert!(race.report(reply.clone()));
    assert!(!race.report(FetchReply::DeadlineElapsed));
    assert!(!race.report(FetchReply::TransportError));
    assert!(race.is_decided());
    assert_eq!(race.into_reply(), Some(reply));
}

#[test]
fn message_names_the_status_of_a_bad_status() {
    let error = UrlError::BadStatus(page("http://example.com/x", "example.com"), 404);
    assert_eq!(error.message("\u{2718}"), "\u{2718} http://example.com/x (404 Not Found)");
    let error = UrlError::BadStatus(home(), 500);
    assert_eq!(error.message("x"), "x http://example.com/ (500 Internal Server Error)");
}

#[test]
fn message_of_a_status_without_a_reason_phrase() {
    let error = UrlError::BadStatus(home(), 299);
    assert_eq!(error.message("x"), "x http://example.com/ (299 <unknown status code>)");
}

#[test]
fn message_of_a_number_that_is_no_status() {
    let error = UrlError::BadStatus(home(), 7);
    assert_eq!(error.message("x"), "x http://example.com/ (<unknown status code>)");
    let error = UrlError::BadStatus(home(), 1000);
    assert_eq!(error.message("x"), "x http://example.com/ (<unknown status code>)");
}

#[test]
fn message_of_each_other_failure() {
    assert_eq!(
        UrlError::ConnectionFailed(home()).message("!"),
        "! http://example.com/ (connection failed)"
    );
    assert_eq!(UrlError::TimedOut(home()).message("!"), "! http://example.com/ (timed out)");
    assert_eq!(
        UrlError::Malformed("http://[::1".to_string()).message("!"),
        "! http://[::1 (malformed)"
    );
    assert_eq!(UrlError::TimedOut(home()).message(""), " http://example.com/ (timed out)");
}

#[test]
fn duplicate_of_an_error_is_equal() {
    let errors = vec![
        UrlError::BadStatus(home(), 404),
        UrlError::ConnectionFailed(home()),
        UrlError::TimedOut(home()),
        UrlError::Malformed("??".to_string()),
    ];
    for error in &errors {
        assert_eq!(&error.duplicate(), error);
    }
}

#[test]
fn fetch_all_urls_sorts_links() {
    let html = "<a href=\"/a\">a</a><a href=\"http://[::1\">b</a><img src=\"pic.png\">";
    let links = fetch_all_urls(html, "example.com");
    assert_eq!(
        links.urls,
        vec![
            page("http://example.com/a", "example.com"),
            page("http://example.com/pic.png", "example.com"),
        ]
    );
    assert_eq!(links.malformed_urls, vec!["http://[::1".to_string()]);
}

#[test]
fn message_with_takes_the_words_for_a_bad_status() {
    let error = UrlError::BadStatus(home(), 404);
    assert_eq!(
        error.message_with("x", &Some("gone for good".to_string())),
        "x http://example.com/ (gone for good)"
    );
    assert_eq!(error.message_with("x", &None), "x http://example.com/ (<unknown status code>)");
}

#[test]
fn message_with_ignores_the_status_of_other_failures() {
    let status = Some("404 Not Found".to_string());
    assert_eq!(
        UrlError::TimedOut(home()).message_with("x", &status),
        "x http://example.com/ (timed out)"
    );
    assert_eq!(
        UrlError::ConnectionFailed(home()).message_with("x", &status),
        "x http://example.com/ (connection failed)"
    );
    assert_eq!(
        UrlError::Malformed("http://".to_string()).message_with("x", &status),
        "x http:// (malformed)"
    );
}
