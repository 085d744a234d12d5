//! The crawl as a state machine over mathematical values: the state of a
//! session, its transitions, and what holds of every state that a crawl can
//! reach.

use crate::address::UrlModel;
use crate::fetching::{readable_page, status_of, ErrorModel, FetchReply};
use crate::parsing::LinksModel;
use vstd::prelude::*;

verus! {

/// Whether one of `urls` has the address `address`.
pub open spec fn has_address(urls: Seq<UrlModel>, address: Seq<char>) -> bool {
    exists|i: int| 0 <= i < urls.len() && (#[trigger] urls[i]).address == address
}

/// No two of `urls` have the same address.
pub open spec fn distinct_addresses(urls: Seq<UrlModel>) -> bool {
    forall|i: int, j: int|
        0 <= i < j < urls.len() ==> (#[trigger] urls[i]).address != (#[trigger] urls[j]).address
}

/// `urls` with `url` at its end, unless its address is there already.
pub open spec fn absorb_one(urls: Seq<UrlModel>, url: UrlModel) -> Seq<UrlModel> {
    if has_address(urls, url.address) {
        urls
    } else {
        urls.push(url)
    }
}

/// `urls` after each of `found` was offered to it in turn.
pub open spec fn absorb(urls: Seq<UrlModel>, found: Seq<UrlModel>) -> Seq<UrlModel>
    decreases found.len(),
{
    if found.len() == 0 {
        urls
    } else {
        absorb_one(absorb(urls, found.drop_last()), found.last())
    }
}

/// How many of `workers` hold a unit.
pub open spec fn busy(workers: Seq<Option<nat>>) -> nat
    decreases workers.len(),
{
    if workers.len() == 0 {
        0
    } else {
        busy(workers.drop_last()) + if workers.last() is Some {
            1nat
        } else {
            0nat
        }
    }
}

/// The URL that an outcome is about. An outcome for a malformed link text is
/// about no URL: nothing was requested for it.
pub open spec fn subject(outcome: Result<UrlModel, ErrorModel>) -> Option<UrlModel> {
    match outcome {
        Ok(url) => Some(url),
        Err(ErrorModel::BadStatus(url, _)) => Some(url),
        Err(ErrorModel::ConnectionFailed(url)) => Some(url),
        Err(ErrorModel::TimedOut(url)) => Some(url),
        Err(ErrorModel::Malformed(_)) => None,
    }
}

/// How many of `outcomes` report the check of a URL.
pub open spec fn checks(outcomes: Seq<Result<UrlModel, ErrorModel>>) -> nat
    decreases outcomes.len(),
{
    if outcomes.len() == 0 {
        0
    } else {
        checks(outcomes.drop_last()) + if subject(outcomes.last()) is Some {
            1nat
        } else {
            0nat
        }
    }
}

/// One outcome for each malformed link text, in order.
pub open spec fn malformed_outcomes(texts: Seq<Seq<char>>) -> Seq<Result<UrlModel, ErrorModel>> {
    texts.map_values(|text: Seq<char>| Err::<UrlModel, ErrorModel>(ErrorModel::Malformed(text)))
}

/// The outcome that is published for `url` when `reply` came back for it.
pub open spec fn outcome_of(url: UrlModel, reply: FetchReply) -> Result<UrlModel, ErrorModel> {
    match status_of(url, reply) {
        Ok(_) => Ok(url),
        Err(e) => Err(e),
    }
}

/// The state of one crawl session.
pub struct CrawlState {
    /// The domain that the crawl is confined to.
    pub domain: Seq<char>,
    /// Every URL that was accepted, in the order of discovery.
    pub visited: Seq<UrlModel>,
    /// How many of them have been claimed: the first `claimed` of `visited`.
    /// The rest is the frontier.
    pub claimed: nat,
    /// For each worker of the pool, the position in `visited` of the unit it
    /// holds.
    pub workers: Seq<Option<nat>>,
    /// Every outcome that was published, in the order of publication.
    pub outcomes: Seq<Result<UrlModel, ErrorModel>>,
    /// How many of them the consumer has read.
    pub delivered: nat,
}

/// What an idle worker is told.
pub enum StepModel {
    Check(UrlModel),
    Wait,
    Exit,
}

/// What the consumer of the outcomes is told.
pub enum PollModel {
    Outcome(Result<UrlModel, ErrorModel>),
    Pending,
    Done,
}

impl CrawlState {
    /// The state in which a crawl of `domain` from `seed` starts, with a pool
    /// of `workers` workers.
    pub open spec fn start(domain: Seq<char>, seed: UrlModel, workers: nat) -> CrawlState {
        CrawlState {
            domain,
            visited: seq![seed],
            claimed: 0,
            workers: Seq::new(workers, |w: int| None::<nat>),
            outcomes: Seq::empty(),
            delivered: 0,
        }
    }

    /// The number of workers.
    pub open spec fn pool_size(self) -> nat {
        self.workers.len()
    }

    /// The URLs that wait to be claimed, first in first out.
    pub open spec fn frontier(self) -> Seq<UrlModel> {
        self.visited.skip(self.claimed as int)
    }

    /// The number of units that are claimed and not finished.
    pub open spec fn active_count(self) -> nat {
        busy(self.workers)
    }

    /// Nothing is queued and nothing is in flight.
    pub open spec fn is_complete(self) -> bool {
        self.claimed == self.visited.len() && self.active_count() == 0
    }

    /// `worker` is a worker of the pool and holds no unit.
    pub open spec fn is_idle(self, worker: int) -> bool {
        0 <= worker < self.workers.len() && self.workers[worker] is None
    }

    /// `worker` is a worker of the pool and holds a unit.
    pub open spec fn is_busy(self, worker: int) -> bool {
        0 <= worker < self.workers.len() && self.workers[worker] is Some
    }

    /// The URL that `worker` holds.
    pub open spec fn unit_of(self, worker: int) -> UrlModel {
        self.visited[self.workers[worker]->0 as int]
    }

    /// Some worker holds the unit at `position`.
    pub open spec fn in_flight(self, position: nat) -> bool {
        exists|w: int| 0 <= w < self.workers.len() && #[trigger] self.workers[w] == Some(position)
    }

    /// The unit at `position` was claimed, is no longer in flight, and is
    /// `url`.
    pub open spec fn finished_unit(self, position: int, url: UrlModel) -> bool {
        &&& 0 <= position < self.claimed
        &&& self.visited[position] == url
        &&& !self.in_flight(position as nat)
    }

    /// If the outcome at `k` reports a check, it is the check of a unit that
    /// was claimed and is no longer in flight.
    pub open spec fn accounted(self, k: int) -> bool {
        subject(self.outcomes[k]) matches Some(url) ==> exists|position: int| #[trigger]
            self.finished_unit(position, url)
    }

    /// What holds of every state that a crawl reaches.
    pub open spec fn wf(self) -> bool {
        &&& distinct_addresses(self.visited)
        &&& self.claimed <= self.visited.len()
        &&& forall|w: int|
            0 <= w < self.workers.len() ==> (#[trigger] self.workers[w] matches Some(position)
                ==> position < self.claimed)
        &&& forall|v: int, w: int|
            0 <= v < w < self.workers.len() && self.workers[v] is Some ==> #[trigger] self.workers[v]
                != #[trigger] self.workers[w]
        &&& self.delivered <= self.outcomes.len()
        &&& checks(self.outcomes) + busy(self.workers) == self.claimed
        &&& forall|k: int| 0 <= k < self.outcomes.len() ==> #[trigger] self.accounted(k)
        &&& forall|j: int, k: int|
            0 <= j < k < self.outcomes.len() ==> (subject(#[trigger] self.outcomes[j]) matches Some(
                a,
            ) ==> (subject(#[trigger] self.outcomes[k]) matches Some(b) ==> a.address
                != b.address))
    }

    /// `url` is offered to the frontier: it is accepted unless its address
    /// was accepted before.
    pub open spec fn offer(self, url: UrlModel) -> CrawlState {
        CrawlState { visited: absorb_one(self.visited, url), ..self }
    }

    /// What a worker that asks for work is told.
    pub open spec fn next_step(self) -> StepModel {
        if self.claimed < self.visited.len() {
            StepModel::Check(self.visited[self.claimed as int])
        } else if self.active_count() == 0 {
            StepModel::Exit
        } else {
            StepModel::Wait
        }
    }

    /// `worker` asks for work: it takes the head of the frontier, if there is
    /// one.
    pub open spec fn claim(self, worker: int) -> CrawlState {
        if self.claimed < self.visited.len() {
            CrawlState {
                claimed: self.claimed + 1,
                workers: self.workers.update(worker, Some(self.claimed)),
                ..self
            }
        } else {
            self
        }
    }

    /// Whether the page that `worker` fetched is searched for links: the
    /// reply carries a page and the URL is on the domain of the crawl.
    pub open spec fn expands(self, worker: int, reply: FetchReply) -> bool {
        readable_page(reply) && self.unit_of(worker).domain == Some(self.domain)
    }

    /// `worker` reports `reply` for the unit it holds, and `links` are the
    /// links of the page where the page is searched: the malformed ones are
    /// published, the others offered, the worker becomes idle and the outcome
    /// of the check is published.
    pub open spec fn settle(self, worker: int, reply: FetchReply, links: LinksModel) -> CrawlState {
        let outcome = outcome_of(self.unit_of(worker), reply);
        if self.expands(worker, reply) {
            CrawlState {
                visited: absorb(self.visited, links.urls),
                workers: self.workers.update(worker, None),
                outcomes: (self.outcomes + malformed_outcomes(links.malformed_urls)).push(outcome),
                ..self
            }
        } else {
            CrawlState {
                workers: self.workers.update(worker, None),
                outcomes: self.outcomes.push(outcome),
                ..self
            }
        }
    }

    /// What the consumer is told when it asks for the next outcome.
    pub open spec fn polled(self) -> PollModel {
        if self.delivered < self.outcomes.len() {
            PollModel::Outcome(self.outcomes[self.delivered as int])
        } else if self.is_complete() {
            PollModel::Done
        } else {
            PollModel::Pending
        }
    }

    /// The consumer asks for the next outcome: one more is read, if one is
    /// unread.
    pub open spec fn deliver(self) -> CrawlState {
        if self.delivered < self.outcomes.len() {
            CrawlState { delivered: self.delivered + 1, ..self }
        } else {
            self
        }
    }
}

/// What can happen to a session.
pub enum Event {
    /// A URL is offered to the frontier.
    Offer(UrlModel),
    /// A worker asks for work.
    Claim(int),
    /// A worker reports what came back for its unit, with the links of the
    /// page.
    Settle(int, FetchReply, LinksModel),
    /// The consumer asks for the next outcome.
    Deliver,
}

impl CrawlState {
    /// Whether `event` can happen in this state: only an idle worker asks
    /// for work, only a busy one reports, and nothing is offered to a crawl
    /// that is complete.
    pub open spec fn allows(self, event: Event) -> bool {
        match event {
            Event::Offer(_) => !self.is_complete(),
            Event::Claim(worker) => self.is_idle(worker),
            Event::Settle(worker, _, _) => self.is_busy(worker),
            Event::Deliver => true,
        }
    }

    /// The state after `event`.
    pub open spec fn after(self, event: Event) -> CrawlState {
        match event {
            Event::Offer(url) => self.offer(url),
            Event::Claim(worker) => self.claim(worker),
            Event::Settle(worker, reply, links) => self.settle(worker, reply, links),
            Event::Deliver => self.deliver(),
        }
    }

    /// The state after `events`, one after the other.
    pub open spec fn after_all(self, events: Seq<Event>) -> CrawlState
        decreases events.len(),
    {
        if events.len() == 0 {
            self
        } else {
            self.after_all(events.drop_last()).after(events.last())
        }
    }

    /// Whether `events` can happen one after the other, from this state on.
    pub open spec fn allows_all(self, events: Seq<Event>) -> bool
        decreases events.len(),
    {
        if events.len() == 0 {
            true
        } else {
            self.allows_all(events.drop_last()) && self.after_all(events.drop_last()).allows(
                events.last(),
            )
        }
    }
}

} // verus!
