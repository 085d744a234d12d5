//! The outcome of checking one URL: how a reply from the network, or the
//! deadline, becomes a verdict, and the race between the two.

use crate::address::{ResolvedUrl, UrlModel};
use crate::parsing::{get_parsed_urls, links_in, sort_links, texts, url_models, LinksModel};
use vstd::prelude::*;
use vstd::string::StringExecFns;

verus! {

/// Seconds after which a check that has had no reply is given up.
pub const TIMEOUT_SECS: u64 = 10;

/// Why a link is reported as broken.
#[derive(Debug, Clone, PartialEq, Eq)]
pub enum UrlError {
    /// The server answered with a status outside 200..=299.
    BadStatus(ResolvedUrl, u16),
    /// The request did not reach the server.
    ConnectionFailed(ResolvedUrl),
    /// No reply came before the deadline.
    TimedOut(ResolvedUrl),
    /// The link text, kept as it was found, is not a URL.
    Malformed(String),
}

/// The mathematical value of a [`UrlError`].
pub enum ErrorModel {
    BadStatus(UrlModel, u16),
    ConnectionFailed(UrlModel),
    TimedOut(UrlModel),
    Malformed(Seq<char>),
}

impl View for UrlError {
    type V = ErrorModel;

    open spec fn view(&self) -> ErrorModel {
        match *self {
            UrlError::BadStatus(url, status) => ErrorModel::BadStatus(url@, status),
            UrlError::ConnectionFailed(url) => ErrorModel::ConnectionFailed(url@),
            UrlError::TimedOut(url) => ErrorModel::TimedOut(url@),
            UrlError::Malformed(text) => ErrorModel::Malformed(text@),
        }
    }
}

impl UrlError {
    /// A copy of this error.
    pub fn duplicate(&self) -> (copy: UrlError)
        ensures
            copy@ == self@,
    {
        match self {
            UrlError::BadStatus(url, status) => UrlError::BadStatus(url.duplicate(), *status),
            UrlError::ConnectionFailed(url) => UrlError::ConnectionFailed(url.duplicate()),
            UrlError::TimedOut(url) => UrlError::TimedOut(url.duplicate()),
            UrlError::Malformed(text) => UrlError::Malformed(text.clone()),
        }
    }
}

/// What came back for one request: the reply of the network, or the news
/// that the deadline passed first.
#[derive(Debug, Clone, PartialEq, Eq)]
pub enum FetchReply {
    /// A response arrived. `body` is its text; `None` where it was not read
    /// or could not be read as text.
    Response { status: u16, body: Option<String> },
    /// The transport failed before any response.
    TransportError,
    /// The deadline passed.
    DeadlineElapsed,
}

/// Whether an HTTP status code reports success.
pub open spec fn success_status(status: u16) -> bool {
    200 <= status < 300
}

/// Whether an HTTP status code reports success: 200 to 299. A redirect is
/// not followed and counts as a failure.
pub fn is_success(status: u16) -> (yes: bool)
    ensures
        yes == success_status(status),
{
    200 <= status && status < 300
}

/// Whether `reply` carries a page that can be searched for links: a
/// response with a success status and a body that was read as text.
pub open spec fn readable_page(reply: FetchReply) -> bool {
    reply matches FetchReply::Response { status, body } && success_status(status) && body is Some
}

/// The verdict on `url` that `reply` amounts to: the body of the page, or the
/// reason the link is broken. The status alone decides on success; a body
/// that could not be read as text counts as an empty one.
pub open spec fn status_of(url: UrlModel, reply: FetchReply) -> Result<Seq<char>, ErrorModel> {
    match reply {
        FetchReply::Response { status, body } => if success_status(status) {
            match body {
                Some(text) => Ok(text@),
                None => Ok(Seq::empty()),
            }
        } else {
            Err(ErrorModel::BadStatus(url, status))
        },
        FetchReply::TransportError => Err(ErrorModel::ConnectionFailed(url)),
        FetchReply::DeadlineElapsed => Err(ErrorModel::TimedOut(url)),
    }
}

/// The mathematical value of a verdict.
pub open spec fn verdict_view(verdict: Result<String, UrlError>) -> Result<Seq<char>, ErrorModel> {
    match verdict {
        Ok(body) => Ok(body@),
        Err(e) => Err(e@),
    }
}

/// Classifies the reply to a request for `url`.
pub fn url_status(url: &ResolvedUrl, reply: FetchReply) -> (verdict: Result<String, UrlError>)
    ensures
        verdict_view(verdict) == status_of(url@, reply),
{
    match reply {
        FetchReply::Response { status, body } => {
            if is_success(status) {
                match body {
                    Some(text) => Ok(text),
                    None => Ok(String::new()),
                }
            } else {
                Err(UrlError::BadStatus(url.duplicate(), status))
            }
        },
        FetchReply::TransportError => Err(UrlError::ConnectionFailed(url.duplicate())),
        FetchReply::DeadlineElapsed => Err(UrlError::TimedOut(url.duplicate())),
    }
}

/// The race between the request for one URL and its deadline. Both sides
/// report to it; the first report decides, and whatever is reported later is
/// dropped.
pub struct FetchRace {
    winner: Option<FetchReply>,
}

impl FetchRace {
    /// The report that decided the race, once one has.
    pub closed spec fn winner(&self) -> Option<FetchReply> {
        self.winner
    }

    /// A race that nobody has reported to.
    pub fn new() -> (race: FetchRace)
        ensures
            race.winner() is None,
    {
        FetchRace { winner: None }
    }

    /// Whether a report has decided the race.
    pub fn is_decided(&self) -> (decided: bool)
        ensures
            decided == self.winner() is Some,
    {
        self.winner.is_some()
    }

    /// One side reports `reply`. The first report wins and is kept; a later
    /// one changes nothing.
    pub fn report(&mut self, reply: FetchReply) -> (won: bool)
        ensures
            won == old(self).winner() is None,
            final(self).winner() == if won {
                Some(reply)
            } else {
                old(self).winner()
            },
    {
        if self.winner.is_some() {
            false
        } else {
            self.winner = Some(reply);
            true
        }
    }

    /// Ends the race and hands out the report that won; `None` where nobody
    /// reported.
    pub fn into_reply(self) -> (reply: Option<FetchReply>)
        ensures
            reply == self.winner(),
    {
        self.winner
    }
}

/// What `reqwest::StatusCode` displays for the status `code`: the number and
/// the canonical reason phrase. `None` where `StatusCode::from_u16` refuses
/// `code`.
pub uninterp spec fn status_line(code: u16) -> Option<Seq<char>>;

/// Makes a `reqwest::StatusCode` of `code` with `StatusCode::from_u16` and
/// formats it with its `Display`; `None` where `from_u16` returns an error.
#[verifier::external_body]
fn status_text(code: u16) -> (line: Option<String>)
    ensures
        match line {
            Some(text) => status_line(code) == Some(text@),
            None => status_line(code) is None,
        },
{
    match reqwest::StatusCode::from_u16(code) {
        Ok(status) => Some(status.to_string()),
        Err(_) => None,
    }
}

/// What a broken link is reported under: the address of the URL, or the
/// malformed text.
pub open spec fn named(e: ErrorModel) -> Seq<char> {
    match e {
        ErrorModel::BadStatus(url, _) => url.address,
        ErrorModel::ConnectionFailed(url) => url.address,
        ErrorModel::TimedOut(url) => url.address,
        ErrorModel::Malformed(text) => text,
    }
}

/// Why a link is broken, in words, where `status` is what there is to show
/// of a status.
pub open spec fn reason_with(e: ErrorModel, status: Option<Seq<char>>) -> Seq<char> {
    match e {
        ErrorModel::BadStatus(_, _) => match status {
            Some(line) => line,
            None => "<unknown status code>"@,
        },
        ErrorModel::ConnectionFailed(_) => "connection failed"@,
        ErrorModel::TimedOut(_) => "timed out"@,
        ErrorModel::Malformed(_) => "malformed"@,
    }
}

/// The line that reports a broken link: the mark, the link, and the reason
/// in brackets.
pub open spec fn message_line(e: ErrorModel, mark: Seq<char>, status: Option<Seq<char>>) -> Seq<
    char,
> {
    mark + " "@ + named(e) + " ("@ + reason_with(e, status) + ")"@
}

/// What there is to show of the status of a broken link: the status line,
/// for a bad status whose code is one.
pub open spec fn shown_status(e: ErrorModel) -> Option<Seq<char>> {
    match e {
        ErrorModel::BadStatus(_, code) => status_line(code),
        _ => None,
    }
}

/// The line that reports a broken link, led by `mark`.
pub open spec fn message_of(e: ErrorModel, mark: Seq<char>) -> Seq<char> {
    message_line(e, mark, shown_status(e))
}

/// The text of a status line that may be missing.
pub open spec fn status_view(status: Option<String>) -> Option<Seq<char>> {
    match status {
        Some(line) => Some(line@),
        None => None,
    }
}

impl UrlError {
    /// The line that reports this broken link, led by `mark`, with `status`
    /// as the words for a bad status.
    pub fn message_with(&self, mark: &str, status: &Option<String>) -> (line: String)
        ensures
            line@ == message_line(self@, mark@, status_view(*status)),
    {
        let mut line = String::from_str(mark);
        line.append(" ");
        match self {
            UrlError::BadStatus(url, _) => {
                line.append(url.address.as_str());
                line.append(" (");
                match status {
                    Some(text) => line.append(text.as_str()),
                    None => line.append("<unknown status code>"),
                }
            },
            UrlError::ConnectionFailed(url) => {
                line.append(url.address.as_str());
                line.append(" (");
                line.append("connection failed");
            },
            UrlError::TimedOut(url) => {
                line.append(url.address.as_str());
                line.append(" (");
                line.append("timed out");
            },
            UrlError::Malformed(text) => {
                line.append(text.as_str());
                line.append(" (");
                line.append("malformed");
            },
        }
        line.append(")");
        line
    }

    /// The line that reports this broken link, led by `mark`.
    pub fn message(&self, mark: &str) -> (line: String)
        ensures
            line@ == message_of(self@, mark@),
    {
        let status = match self {
            UrlError::BadStatus(_, code) => status_text(*code),
            _ => None,
        };
        self.message_with(mark, &status)
    }
}

/// The links of a page, sorted into those that name a URL and those that do
/// not.
#[derive(Debug, PartialEq, Eq)]
pub struct FetchedUrls {
    pub urls: Vec<ResolvedUrl>,
    pub malformed_urls: Vec<String>,
}

impl View for FetchedUrls {
    type V = LinksModel;

    open spec fn view(&self) -> LinksModel {
        LinksModel { urls: url_models(self.urls@), malformed_urls: texts(self.malformed_urls@) }
    }
}

/// Extracts all the URLs from `html_src`, a page of the site `domain`.
pub fn fetch_all_urls(html_src: &str, domain: &str) -> (links: FetchedUrls)
    ensures
        links@ == sort_links(links_in(html_src@), domain@),
{
    let parsed = get_parsed_urls(html_src, domain);
    FetchedUrls { urls: parsed.urls, malformed_urls: parsed.malformed_urls }
}

} // verus!
