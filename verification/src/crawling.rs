//! The crawl session: the frontier and the set of visited URLs, the workers
//! of the pool and what each holds, and the outcomes that wait for the
//! consumer.

use crate::address::{ResolvedUrl, UrlModel};
use crate::fetching::{is_success, url_status, ErrorModel, FetchReply, UrlError};
use crate::laws::{
    lemma_busy_bound, lemma_busy_update, lemma_claim_wf, lemma_deliver_wf, lemma_offer_wf,
    lemma_settle_wf, lemma_start_wf,
};
use crate::model::{
    absorb, absorb_one, busy, has_address, malformed_outcomes, outcome_of, CrawlState, PollModel,
    StepModel,
};
use crate::parsing::{
    get_parsed_urls, links_in, sort_links, texts, url_models, LinksModel, ParsedUrls,
};
use vstd::prelude::*;
use vstd::string::StringExecFns;

verus! {

/// The number of workers of a crawl that does not say otherwise.
pub const CRAWL_THREADS: usize = 10;

/// What a worker that asked for work is to do.
#[derive(Debug, PartialEq, Eq)]
pub enum WorkerStep {
    /// Check this URL and report what came back.
    Check(ResolvedUrl),
    /// Nothing is queued, but a unit in flight may still add work: ask again.
    Wait,
    /// Nothing is queued and nothing is in flight: the crawl is over.
    Exit,
}

impl View for WorkerStep {
    type V = StepModel;

    open spec fn view(&self) -> StepModel {
        match *self {
            WorkerStep::Check(url) => StepModel::Check(url@),
            WorkerStep::Wait => StepModel::Wait,
            WorkerStep::Exit => StepModel::Exit,
        }
    }
}

/// What the consumer that asked for the next outcome gets.
#[derive(Debug, PartialEq, Eq)]
pub enum Polled {
    /// The next outcome: the URL that is reachable, or why a link is broken.
    Outcome(Result<ResolvedUrl, UrlError>),
    /// No outcome is waiting, but the crawl is not over: ask again.
    Pending,
    /// Every outcome was read and the crawl is over.
    Done,
}

/// The mathematical value of an outcome.
pub open spec fn outcome_view(outcome: Result<ResolvedUrl, UrlError>) -> Result<
    UrlModel,
    ErrorModel,
> {
    match outcome {
        Ok(url) => Ok(url@),
        Err(e) => Err(e@),
    }
}

/// The values of a list of outcomes.
pub open spec fn outcome_models(outcomes: Seq<Result<ResolvedUrl, UrlError>>) -> Seq<
    Result<UrlModel, ErrorModel>,
> {
    outcomes.map_values(|o: Result<ResolvedUrl, UrlError>| outcome_view(o))
}

/// What the workers hold, as positions.
pub open spec fn held_units(workers: Seq<Option<usize>>) -> Seq<Option<nat>> {
    workers.map_values(
        |held: Option<usize>|
            match held {
                Some(position) => Some(position as nat),
                None => None,
            },
    )
}

impl View for Polled {
    type V = PollModel;

    open spec fn view(&self) -> PollModel {
        match *self {
            Polled::Outcome(outcome) => PollModel::Outcome(outcome_view(outcome)),
            Polled::Pending => PollModel::Pending,
            Polled::Done => PollModel::Done,
        }
    }
}

/// One crawl session.
pub struct Crawler {
    domain: String,
    visited: Vec<ResolvedUrl>,
    claimed: usize,
    workers: Vec<Option<usize>>,
    active_count: usize,
    outcomes: Vec<Result<ResolvedUrl, UrlError>>,
    delivered: usize,
}

impl View for Crawler {
    type V = CrawlState;

    closed spec fn view(&self) -> CrawlState {
        CrawlState {
            domain: self.domain@,
            visited: url_models(self.visited@),
            claimed: self.claimed as nat,
            workers: held_units(self.workers@),
            outcomes: outcome_models(self.outcomes@),
            delivered: self.delivered as nat,
        }
    }
}

/// Whether one of `urls` has the address of `url`.
fn holds_address(urls: &Vec<ResolvedUrl>, url: &ResolvedUrl) -> (found: bool)
    ensures
        found == has_address(url_models(urls@), url@.address),
{
    let mut i: usize = 0;
    while i < urls.len()
        invariant
            i <= urls.len(),
            forall|j: int| 0 <= j < i ==> (#[trigger] url_models(urls@)[j]).address != url@.address,
        decreases urls.len() - i,
    {
        if urls[i].address == url.address {
            assert(url_models(urls@)[i as int].address == url@.address);
            return true;
        }
        i += 1;
    }
    false
}

/// Offers `url` to `visited`.
fn absorb_url(visited: &mut Vec<ResolvedUrl>, url: ResolvedUrl) -> (accepted: bool)
    ensures
        url_models(final(visited)@) == absorb_one(url_models(old(visited)@), url@),
        accepted == !has_address(url_models(old(visited)@), url@.address),
{
    if holds_address(visited, &url) {
        false
    } else {
        let ghost grown = url_models(visited@).push(url@);
        visited.push(url);
        assert(url_models(visited@) == grown);
        true
    }
}

/// Publishes one outcome for each malformed link text.
fn publish_malformed(outcomes: &mut Vec<Result<ResolvedUrl, UrlError>>, malformed: &Vec<String>)
    ensures
        outcome_models(final(outcomes)@) == outcome_models(old(outcomes)@) + malformed_outcomes(
            texts(malformed@),
        ),
{
    let ghost before = outcome_models(outcomes@);
    let ghost all = malformed_outcomes(texts(malformed@));
    let mut i: usize = 0;
    assert(before + all.take(0) == before);
    while i < malformed.len()
        invariant
            i <= malformed.len(),
            all == malformed_outcomes(texts(malformed@)),
            outcome_models(outcomes@) == before + all.take(i as int),
        decreases malformed.len() - i,
    {
        let outcome = Err(UrlError::Malformed(malformed[i].clone()));
        assert(outcome_view(outcome) == all[i as int]);
        let ghost grown = outcome_models(outcomes@).push(outcome_view(outcome));
        outcomes.push(outcome);
        assert(outcome_models(outcomes@) == grown);
        assert(before + all.take(i + 1) == grown);
        i += 1;
    }
    assert(all.take(malformed.len() as int) == all);
}

/// Offers each of `found` to `visited`, in order.
fn absorb_all(visited: &mut Vec<ResolvedUrl>, found: &Vec<ResolvedUrl>)
    ensures
        url_models(final(visited)@) == absorb(url_models(old(visited)@), url_models(found@)),
{
    let ghost before = url_models(visited@);
    let ghost all = url_models(found@);
    let mut i: usize = 0;
    while i < found.len()
        invariant
            i <= found.len(),
            all == url_models(found@),
            url_models(visited@) == absorb(before, all.take(i as int)),
        decreases found.len() - i,
    {
        proof {
            assert(all.take(i + 1).drop_last() == all.take(i as int));
            assert(all.take(i + 1).last() == found@[i as int]@);
        }
        absorb_url(visited, found[i].duplicate());
        i += 1;
    }
    assert(all.take(found.len() as int) == all);
}

/// The links of the page that `reply` carries, found on the site `domain`;
/// none where it carries no page.
pub open spec fn page_links(reply: FetchReply, domain: Seq<char>) -> LinksModel {
    match reply {
        FetchReply::Response { status: _, body: Some(text) } => sort_links(links_in(text@), domain),
        _ => LinksModel { urls: Seq::empty(), malformed_urls: Seq::empty() },
    }
}

impl Crawler {
    /// The counter of active units agrees with what the workers hold.
    pub closed spec fn counter_agrees(&self) -> bool {
        self.active_count == busy(self@.workers)
    }

    /// The session is in a state that a crawl can reach.
    pub open spec fn wf(&self) -> bool {
        self@.wf() && self.counter_agrees()
    }

    /// Starts a crawl of `domain` at `start_url` with a pool of `workers`
    /// workers: the seed is visited and queued, every worker is idle.
    pub fn new(domain: &str, start_url: &ResolvedUrl, workers: usize) -> (crawler: Crawler)
        ensures
            crawler.wf(),
            crawler@ == CrawlState::start(domain@, start_url@, workers as nat),
    {
        let mut idle: Vec<Option<usize>> = Vec::new();
        let mut w: usize = 0;
        while w < workers
            invariant
                w <= workers,
                idle.len() == w,
                forall|v: int| 0 <= v < w ==> idle[v] is None,
            decreases workers - w,
        {
            idle.push(None);
            w += 1;
        }
        let mut visited: Vec<ResolvedUrl> = Vec::new();
        visited.push(start_url.duplicate());
        let crawler = Crawler {
            domain: String::from_str(domain),
            visited,
            claimed: 0,
            workers: idle,
            active_count: 0,
            outcomes: Vec::new(),
            delivered: 0,
        };
        proof {
            let start = CrawlState::start(domain@, start_url@, workers as nat);
            assert(crawler@.visited == start.visited);
            assert(crawler@.workers == start.workers);
            assert(crawler@.outcomes == start.outcomes);
            lemma_start_wf(domain@, start_url@, workers as nat);
        }
        crawler
    }

    /// Offers `url` to the frontier of a crawl that is not complete. It is
    /// queued unless its address was accepted before; then nothing changes.
    /// A complete crawl takes no more work: its consumer may have been told
    /// that it is over.
    pub fn offer(&mut self, url: ResolvedUrl) -> (accepted: bool)
        requires
            old(self).wf(),
            !old(self)@.is_complete(),
        ensures
            final(self).wf(),
            final(self)@ == old(self)@.offer(url@),
            accepted == !has_address(old(self)@.visited, url@.address),
    {
        proof {
            lemma_offer_wf(self@, url@);
        }
        absorb_url(&mut self.visited, url)
    }

    /// `worker`, which holds no unit, asks for work. Where the frontier holds
    /// a URL, the worker takes the oldest one and becomes busy; else it is
    /// told to leave where nothing is in flight, and to ask again where
    /// something is.
    pub fn try_claim(&mut self, worker: usize) -> (step: WorkerStep)
        requires
            old(self).wf(),
            old(self)@.is_idle(worker as int),
        ensures
            final(self).wf(),
            final(self)@ == old(self)@.claim(worker as int),
            step@ == old(self)@.next_step(),
    {
        proof {
            lemma_claim_wf(self@, worker as int);
        }
        if self.claimed < self.visited.len() {
            let position = self.claimed;
            let unit = self.visited[position].duplicate();
            proof {
                lemma_busy_update(self@.workers, worker as int, Some(position as nat));
                lemma_busy_bound(self@.workers.update(worker as int, Some(position as nat)));
            }
            let ghost held = held_units(self.workers@).update(worker as int, Some(position as nat));
            self.workers.set(worker, Some(position));
            assert(held_units(self.workers@) == held);
            self.claimed = position + 1;
            self.active_count = self.active_count + 1;
            WorkerStep::Check(unit)
        } else if self.active_count == 0 {
            WorkerStep::Exit
        } else {
            WorkerStep::Wait
        }
    }

    /// Whether the page that came back for the unit of `worker` is to be
    /// searched for links: the fetch succeeded and the unit is on the domain
    /// of the crawl.
    pub fn expands(&self, worker: usize, reply: &FetchReply) -> (yes: bool)
        requires
            self.wf(),
            self@.is_busy(worker as int),
        ensures
            yes == self@.expands(worker as int, *reply),
    {
        let position = match self.workers[worker] {
            Some(position) => position,
            None => 0,
        };
        let succeeded = match reply {
            FetchReply::Response { status, body } => is_success(*status) && body.is_some(),
            FetchReply::TransportError => false,
            FetchReply::DeadlineElapsed => false,
        };
        assert(self@.workers[worker as int] == Some(position as nat));
        assert(position < self.visited.len());
        assert(self@.unit_of(worker as int) == self.visited[position as int]@);
        succeeded && self.visited[position].on_domain(self.domain.as_str())
    }

    /// `worker` reports `reply` for the unit it holds, with `links`, the
    /// links of the page. Where the page is to be searched, each malformed
    /// link is published and each other link offered to the frontier. Then
    /// the worker becomes idle and the outcome of the check is published.
    pub fn settle(&mut self, worker: usize, reply: FetchReply, links: &ParsedUrls)
        requires
            old(self).wf(),
            old(self)@.is_busy(worker as int),
        ensures
            final(self).wf(),
            final(self)@ == old(self)@.settle(worker as int, reply, links@),
    {
        proof {
            lemma_settle_wf(self@, worker as int, reply, links@);
            lemma_busy_update(self@.workers, worker as int, None);
        }
        let expand = self.expands(worker, &reply);
        let position = match self.workers[worker] {
            Some(position) => position,
            None => 0,
        };
        assert(self@.workers[worker as int] == Some(position as nat));
        assert(position < self.visited.len());
        let unit = self.visited[position].duplicate();
        assert(unit@ == self@.unit_of(worker as int));
        let outcome = match url_status(&unit, reply) {
            Ok(_) => Ok(unit),
            Err(e) => Err(e),
        };
        assert(outcome_view(outcome) == outcome_of(self@.unit_of(worker as int), reply));
        if expand {
            publish_malformed(&mut self.outcomes, &links.malformed_urls);
            absorb_all(&mut self.visited, &links.urls);
        }
        let ghost held = held_units(self.workers@).update(worker as int, None);
        self.workers.set(worker, None);
        assert(held_units(self.workers@) == held);
        self.active_count = self.active_count - 1;
        let ghost published = outcome_models(self.outcomes@).push(outcome_view(outcome));
        self.outcomes.push(outcome);
        assert(outcome_models(self.outcomes@) == published);
    }

    /// `worker` reports `reply` for the unit it holds. Where the fetch
    /// succeeded and the unit is on the domain of the crawl, the links of the
    /// page are extracted and resolved; then the report is settled with them.
    pub fn complete(&mut self, worker: usize, reply: FetchReply)
        requires
            old(self).wf(),
            old(self)@.is_busy(worker as int),
        ensures
            final(self).wf(),
            final(self)@ == old(self)@.settle(
                worker as int,
                reply,
                page_links(reply, old(self)@.domain),
            ),
    {
        let links = if self.expands(worker, &reply) {
            match &reply {
                FetchReply::Response { status: _, body: Some(text) } => get_parsed_urls(
                    text.as_str(),
                    self.domain.as_str(),
                ),
                _ => ParsedUrls { urls: Vec::new(), malformed_urls: Vec::new() },
            }
        } else {
            ParsedUrls { urls: Vec::new(), malformed_urls: Vec::new() }
        };
        assert(self@.expands(worker as int, reply) ==> links@ == page_links(reply, self@.domain));
        self.settle(worker, reply, &links);
    }

    /// The next outcome, if one waits to be read. If none does, `Done` where
    /// nothing is queued or in flight, so that none will come; `Pending`
    /// else.
    pub fn poll_next(&mut self) -> (polled: Polled)
        requires
            old(self).wf(),
        ensures
            final(self).wf(),
            final(self)@ == old(self)@.deliver(),
            polled@ == old(self)@.polled(),
    {
        proof {
            lemma_deliver_wf(self@);
        }
        if self.delivered < self.outcomes.len() {
            let outcome = match &self.outcomes[self.delivered] {
                Ok(url) => Ok(url.duplicate()),
                Err(e) => Err(e.duplicate()),
            };
            self.delivered = self.delivered + 1;
            Polled::Outcome(outcome)
        } else if self.claimed == self.visited.len() && self.active_count == 0 {
            Polled::Done
        } else {
            Polled::Pending
        }
    }

    /// The domain that the crawl is confined to.
    pub fn domain(&self) -> (domain: &str)
        ensures
            domain@ == self@.domain,
    {
        self.domain.as_str()
    }

    /// The number of workers.
    pub fn pool_size(&self) -> (n: usize)
        ensures
            n == self@.pool_size(),
    {
        self.workers.len()
    }

    /// The number of units that are claimed and not finished. It is never
    /// above the number of workers.
    pub fn active_count(&self) -> (n: usize)
        requires
            self.wf(),
        ensures
            n == self@.active_count(),
            n <= self@.pool_size(),
    {
        proof {
            lemma_busy_bound(self@.workers);
        }
        self.active_count
    }

    /// Whether `worker` is a worker of the pool that holds no unit.
    pub fn is_idle(&self, worker: usize) -> (idle: bool)
        ensures
            idle == self@.is_idle(worker as int),
    {
        worker < self.workers.len() && self.workers[worker].is_none()
    }

    /// Whether `worker` is a worker of the pool that holds a unit.
    pub fn is_busy(&self, worker: usize) -> (busy: bool)
        ensures
            busy == self@.is_busy(worker as int),
    {
        worker < self.workers.len() && self.workers[worker].is_some()
    }

    /// Whether the crawl is complete: nothing is queued and nothing is in
    /// flight.
    pub fn is_complete(&self) -> (complete: bool)
        requires
            self.wf(),
        ensures
            complete == self@.is_complete(),
    {
        self.claimed == self.visited.len() && self.active_count == 0
    }

    /// The number of URLs that were accepted.
    pub fn visited_count(&self) -> (n: usize)
        ensures
            n == self@.visited.len(),
    {
        self.visited.len()
    }

    /// The number of URLs that were claimed.
    pub fn claim_count(&self) -> (n: usize)
        ensures
            n == self@.claimed,
    {
        self.claimed
    }

    /// The number of outcomes that were published.
    pub fn outcome_count(&self) -> (n: usize)
        ensures
            n == self@.outcomes.len(),
    {
        self.outcomes.len()
    }

    /// The URLs that were accepted, in the order of discovery.
    pub fn visited(&self) -> (urls: Vec<ResolvedUrl>)
        ensures
            url_models(urls@) == self@.visited,
    {
        let mut urls: Vec<ResolvedUrl> = Vec::new();
        let mut i: usize = 0;
        while i < self.visited.len()
            invariant
                i <= self.visited.len(),
                url_models(urls@) == url_models(self.visited@).take(i as int),
            decreases self.visited.len() - i,
        {
            let ghost grown = url_models(urls@).push(self.visited[i as int]@);
            urls.push(self.visited[i].duplicate());
            assert(url_models(urls@) == grown);
            i += 1;
        }
        assert(url_models(self.visited@).take(self.visited.len() as int) == url_models(
            self.visited@,
        ));
        urls
    }
}

/// Starting at `start_url`, crawls the URLs on `domain` with the usual
/// number of workers.
pub fn crawl(domain: &str, start_url: &ResolvedUrl) -> (crawler: Crawler)
    ensures
        crawler.wf(),
        crawler@ == CrawlState::start(domain@, start_url@, CRAWL_THREADS as nat),
{
    Crawler::new(domain, start_url, CRAWL_THREADS)
}

} // verus!
