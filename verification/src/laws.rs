//! What holds of the crawl state machine: its invariant, that every
//! transition keeps it, and what follows for visited URLs, workers and
//! outcomes.

use crate::address::UrlModel;
use crate::fetching::{ErrorModel, FetchReply};
use crate::model::{
    absorb, absorb_one, busy, checks, distinct_addresses, has_address, malformed_outcomes,
    outcome_of, subject, CrawlState, Event, PollModel, StepModel,
};
use crate::parsing::LinksModel;
use vstd::prelude::*;

verus! {

/// Changing what one worker holds changes the number of busy workers by that
/// worker alone.
pub proof fn lemma_busy_update(workers: Seq<Option<nat>>, w: int, held: Option<nat>)
    requires
        0 <= w < workers.len(),
    ensures
        busy(workers.update(w, held)) + (if workers[w] is Some {
            1nat
        } else {
            0nat
        }) == busy(workers) + (if held is Some {
            1nat
        } else {
            0nat
        }),
    decreases workers.len(),
{
    if w == workers.len() - 1 {
        assert(workers.update(w, held).drop_last() == workers.drop_last());
    } else {
        lemma_busy_update(workers.drop_last(), w, held);
        assert(workers.update(w, held).drop_last() == workers.drop_last().update(w, held));
    }
}

/// No more workers are busy than there are workers.
pub proof fn lemma_busy_bound(workers: Seq<Option<nat>>)
    ensures
        busy(workers) <= workers.len(),
    decreases workers.len(),
{
    if workers.len() > 0 {
        lemma_busy_bound(workers.drop_last());
    }
}

/// No worker is busy exactly when every worker is idle.
pub proof fn lemma_busy_zero(workers: Seq<Option<nat>>)
    ensures
        busy(workers) == 0 <==> forall|w: int| 0 <= w < workers.len() ==> workers[w] is None,
    decreases workers.len(),
{
    if workers.len() > 0 {
        let front = workers.drop_last();
        lemma_busy_zero(front);
        if busy(workers) == 0 {
            assert forall|w: int| 0 <= w < workers.len() implies workers[w] is None by {
                if w < front.len() {
                    assert(front[w] is None);
                }
            }
        }
        if forall|w: int| 0 <= w < workers.len() ==> workers[w] is None {
            assert forall|w: int| 0 <= w < front.len() implies front[w] is None by {
                assert(workers[w] is None);
            }
            assert(workers.last() is None);
        }
    }
}

/// One more outcome is one more check exactly when it is about a URL.
pub proof fn lemma_checks_push(
    outcomes: Seq<Result<UrlModel, ErrorModel>>,
    outcome: Result<UrlModel, ErrorModel>,
)
    ensures
        checks(outcomes.push(outcome)) == checks(outcomes) + (if subject(outcome) is Some {
            1nat
        } else {
            0nat
        }),
{
    assert(outcomes.push(outcome).drop_last() == outcomes);
}

/// Outcomes for malformed link texts are no checks.
pub proof fn lemma_checks_malformed(
    outcomes: Seq<Result<UrlModel, ErrorModel>>,
    texts: Seq<Seq<char>>,
)
    ensures
        checks(outcomes + malformed_outcomes(texts)) == checks(outcomes),
    decreases texts.len(),
{
    if texts.len() == 0 {
        assert(outcomes + malformed_outcomes(texts) == outcomes);
    } else {
        let front = texts.drop_last();
        lemma_checks_malformed(outcomes, front);
        let last = Err::<UrlModel, ErrorModel>(ErrorModel::Malformed(texts.last()));
        assert(outcomes + malformed_outcomes(texts) == (outcomes + malformed_outcomes(front)).push(
            last,
        ));
        lemma_checks_push(outcomes + malformed_outcomes(front), last);
    }
}

/// Offering a URL keeps what was accepted before, in place, and accepts no
/// address twice.
pub proof fn lemma_absorb_one(urls: Seq<UrlModel>, url: UrlModel)
    requires
        distinct_addresses(urls),
    ensures
        distinct_addresses(absorb_one(urls, url)),
        urls.is_prefix_of(absorb_one(urls, url)),
        has_address(absorb_one(urls, url), url.address),
{
    let grown = absorb_one(urls, url);
    if has_address(urls, url.address) {
    } else {
        assert forall|i: int, j: int| 0 <= i < j < grown.len() implies (#[trigger] grown[i]).address
            != (#[trigger] grown[j]).address by {
            if j == urls.len() {
                assert(urls[i].address != url.address);
            } else {
                assert(urls[i].address != urls[j].address);
            }
        }
        assert(grown[urls.len() as int].address == url.address);
    }
}

/// Offering a list of URLs keeps what was accepted before, in place, and
/// accepts no address twice, however often the list repeats it.
pub proof fn lemma_absorb(urls: Seq<UrlModel>, found: Seq<UrlModel>)
    requires
        distinct_addresses(urls),
    ensures
        distinct_addresses(absorb(urls, found)),
        urls.is_prefix_of(absorb(urls, found)),
    decreases found.len(),
{
    if found.len() > 0 {
        lemma_absorb(urls, found.drop_last());
        lemma_absorb_one(absorb(urls, found.drop_last()), found.last());
    }
}

/// A crawl starts in a state that meets the invariant.
pub proof fn lemma_start_wf(domain: Seq<char>, seed: UrlModel, workers: nat)
    ensures
        CrawlState::start(domain, seed, workers).wf(),
        CrawlState::start(domain, seed, workers).active_count() == 0,
{
    let s = CrawlState::start(domain, seed, workers);
    lemma_busy_zero(s.workers);
}

/// The outcomes that `s` and `t` share stay accounted for in `t`, where `t`
/// has the claimed URLs of `s` in place and no worker of `t` holds a unit
/// that `s` had claimed and no worker of `s` held.
proof fn lemma_accounted_carries(s: CrawlState, t: CrawlState)
    requires
        forall|k: int| 0 <= k < s.outcomes.len() ==> #[trigger] s.accounted(k),
        s.outcomes.is_prefix_of(t.outcomes),
        s.claimed <= t.claimed,
        forall|position: int|
            0 <= position < s.claimed ==> #[trigger] t.visited[position] == s.visited[position],
        forall|w: int|
            0 <= w < t.workers.len() ==> (#[trigger] t.workers[w] matches Some(position)
                ==> position < s.claimed ==> w < s.workers.len() && s.workers[w] == t.workers[w]),
    ensures
        forall|k: int| 0 <= k < s.outcomes.len() ==> #[trigger] t.accounted(k),
{
    assert forall|k: int| 0 <= k < s.outcomes.len() implies #[trigger] t.accounted(k) by {
        assert(s.accounted(k));
        assert(t.outcomes[k] == s.outcomes[k]);
        if subject(s.outcomes[k]) is Some {
            let url = subject(s.outcomes[k])->0;
            let position = choose|position: int| #[trigger] s.finished_unit(position, url);
            if t.in_flight(position as nat) {
                let w = choose|w: int|
                    0 <= w < t.workers.len() && #[trigger] t.workers[w] == Some(position as nat);
                assert(s.workers[w] == Some(position as nat));
                assert(s.in_flight(position as nat));
            }
            assert(t.visited[position] == s.visited[position]);
            assert(t.finished_unit(position, url));
        }
    }
}

/// URLs accepted behind those that are there, none of them twice, keep the
/// invariant.
proof fn lemma_grow_wf(s: CrawlState, longer: Seq<UrlModel>)
    requires
        s.wf(),
        distinct_addresses(longer),
        s.visited.is_prefix_of(longer),
    ensures
        (CrawlState { visited: longer, ..s }).wf(),
{
    lemma_accounted_carries(s, CrawlState { visited: longer, ..s });
}

/// Offering a URL keeps the invariant.
pub proof fn lemma_offer_wf(s: CrawlState, url: UrlModel)
    requires
        s.wf(),
    ensures
        s.offer(url).wf(),
{
    lemma_absorb_one(s.visited, url);
    lemma_grow_wf(s, absorb_one(s.visited, url));
}

/// A claim by an idle worker keeps the invariant, and makes that worker busy
/// exactly when the frontier held a URL.
pub proof fn lemma_claim_wf(s: CrawlState, worker: int)
    requires
        s.wf(),
        s.is_idle(worker),
    ensures
        s.claim(worker).wf(),
        s.claimed < s.visited.len() ==> s.claim(worker).active_count() == s.active_count() + 1,
{
    let t = s.claim(worker);
    if s.claimed < s.visited.len() {
        lemma_busy_update(s.workers, worker, Some(s.claimed));
        assert forall|v: int, w: int|
            0 <= v < w < t.workers.len() && t.workers[v] is Some implies #[trigger] t.workers[v]
            != #[trigger] t.workers[w] by {
            if v != worker && w != worker {
                assert(s.workers[v] != s.workers[w]);
            } else if v == worker {
                assert(s.workers[w] matches Some(position) ==> position < s.claimed);
            } else {
                assert(s.workers[v] matches Some(position) ==> position < s.claimed);
            }
        }
        assert forall|w: int| 0 <= w < t.workers.len() implies (#[trigger] t.workers[w] matches Some(
            position,
        ) ==> position < t.claimed) by {
            if w != worker {
                assert(s.workers[w] matches Some(position) ==> position < s.claimed);
            }
        }
        lemma_accounted_carries(s, t);
    }
}

/// Publishing outcomes for malformed link texts keeps the invariant.
proof fn lemma_publish_malformed_wf(s: CrawlState, texts: Seq<Seq<char>>)
    requires
        s.wf(),
    ensures
        (CrawlState { outcomes: s.outcomes + malformed_outcomes(texts), ..s }).wf(),
{
    let t = CrawlState { outcomes: s.outcomes + malformed_outcomes(texts), ..s };
    lemma_checks_malformed(s.outcomes, texts);
    lemma_accounted_carries(s, t);
    assert forall|k: int| 0 <= k < t.outcomes.len() implies #[trigger] t.accounted(k) by {
        if k >= s.outcomes.len() {
            assert(subject(t.outcomes[k]) is None);
        }
    }
    assert forall|j: int, k: int| 0 <= j < k < t.outcomes.len() implies (subject(
        #[trigger] t.outcomes[j],
    ) matches Some(a) ==> (subject(#[trigger] t.outcomes[k]) matches Some(b) ==> a.address
        != b.address)) by {
        if k < s.outcomes.len() {
            assert(t.outcomes[j] == s.outcomes[j]);
            assert(t.outcomes[k] == s.outcomes[k]);
        } else {
            assert(subject(t.outcomes[k]) is None);
        }
    }
}

/// A busy worker that publishes the outcome of its unit and becomes idle
/// keeps the invariant, and one unit fewer is in flight.
proof fn lemma_finish_wf(s: CrawlState, worker: int, outcome: Result<UrlModel, ErrorModel>)
    requires
        s.wf(),
        s.is_busy(worker),
        subject(outcome) == Some(s.unit_of(worker)),
    ensures
        (CrawlState {
            workers: s.workers.update(worker, None),
            outcomes: s.outcomes.push(outcome),
            ..s
        }).wf(),
        busy(s.workers.update(worker, None)) + 1 == busy(s.workers),
{
    let t = CrawlState {
        workers: s.workers.update(worker, None),
        outcomes: s.outcomes.push(outcome),
        ..s
    };
    let unit = s.workers[worker]->0;
    assert(s.workers[worker] matches Some(position) ==> position < s.claimed);
    lemma_busy_update(s.workers, worker, None);
    lemma_checks_push(s.outcomes, outcome);
    assert forall|w: int| 0 <= w < t.workers.len() implies (#[trigger] t.workers[w] matches Some(
        position,
    ) ==> position < t.claimed) by {
        if w != worker {
            assert(s.workers[w] matches Some(position) ==> position < s.claimed);
        }
    }
    assert forall|v: int, w: int|
        0 <= v < w < t.workers.len() && t.workers[v] is Some implies #[trigger] t.workers[v]
        != #[trigger] t.workers[w] by {
        if v != worker && w != worker {
            assert(s.workers[v] != s.workers[w]);
        }
    }
    // The unit that was finished is in no other worker's hands.
    assert(!t.in_flight(unit)) by {
        if t.in_flight(unit) {
            let w = choose|w: int| 0 <= w < t.workers.len() && #[trigger] t.workers[w] == Some(unit);
            assert(w != worker);
            assert(s.workers[w] == Some(unit));
            if w < worker {
                assert(s.workers[w] != s.workers[worker]);
            } else {
                assert(s.workers[worker] != s.workers[w]);
            }
        }
    }
    assert(s.in_flight(unit)) by {
        assert(s.workers[worker] == Some(unit));
    }
    lemma_accounted_carries(s, t);
    assert forall|k: int| 0 <= k < t.outcomes.len() implies #[trigger] t.accounted(k) by {
        if k >= s.outcomes.len() {
            assert(t.finished_unit(unit as int, s.unit_of(worker)));
        }
    }
    assert forall|j: int, k: int| 0 <= j < k < t.outcomes.len() implies (subject(
        #[trigger] t.outcomes[j],
    ) matches Some(a) ==> (subject(#[trigger] t.outcomes[k]) matches Some(b) ==> a.address
        != b.address)) by {
        assert(t.outcomes[j] == s.outcomes[j]);
        if k < s.outcomes.len() {
            assert(t.outcomes[k] == s.outcomes[k]);
        } else if subject(s.outcomes[j]) is Some {
            let a = subject(s.outcomes[j])->0;
            assert(s.accounted(j));
            let position = choose|position: int| #[trigger] s.finished_unit(position, a);
            assert(position != unit);
            if position < unit {
                assert(s.visited[position].address != s.visited[unit as int].address);
            } else {
                assert(s.visited[unit as int].address != s.visited[position].address);
            }
        }
    }
}

/// The report of a busy worker keeps the invariant, and one unit fewer is in
/// flight.
pub proof fn lemma_settle_wf(s: CrawlState, worker: int, reply: FetchReply, links: LinksModel)
    requires
        s.wf(),
        s.is_busy(worker),
    ensures
        s.settle(worker, reply, links).wf(),
        s.settle(worker, reply, links).active_count() + 1 == s.active_count(),
{
    let outcome = outcome_of(s.unit_of(worker), reply);
    assert(s.workers[worker] matches Some(position) ==> position < s.claimed);
    if s.expands(worker, reply) {
        let published = CrawlState {
            outcomes: s.outcomes + malformed_outcomes(links.malformed_urls),
            ..s
        };
        lemma_publish_malformed_wf(s, links.malformed_urls);
        let grown = CrawlState { visited: absorb(s.visited, links.urls), ..published };
        lemma_absorb(s.visited, links.urls);
        lemma_grow_wf(published, absorb(s.visited, links.urls));
        assert(grown.unit_of(worker) == s.unit_of(worker));
        lemma_finish_wf(grown, worker, outcome);
    } else {
        lemma_finish_wf(s, worker, outcome);
    }
}

/// Reading an outcome keeps the invariant.
pub proof fn lemma_deliver_wf(s: CrawlState)
    requires
        s.wf(),
    ensures
        s.deliver().wf(),
{
    lemma_accounted_carries(s, s.deliver());
}

/// When a crawl is complete, no URL was visited twice, every visited URL was
/// claimed, and there are as many outcomes of checks as there were claims.
pub proof fn lemma_completed_crawl(s: CrawlState)
    requires
        s.wf(),
        s.is_complete(),
    ensures
        distinct_addresses(s.visited),
        s.claimed == s.visited.len(),
        checks(s.outcomes) == s.claimed,
{
}

/// At every moment of a crawl, each claim is either in flight or has its
/// outcome: the outcomes of checks and the active units add up to the claims.
pub proof fn lemma_claims_accounted(s: CrawlState)
    requires
        s.wf(),
    ensures
        checks(s.outcomes) + s.active_count() == s.claimed,
{
}

/// The number of active units is never above the size of the pool.
pub proof fn lemma_active_count_bounded(s: CrawlState)
    requires
        s.wf(),
    ensures
        0 <= s.active_count() <= s.pool_size(),
        s.active_count() <= s.claimed,
{
    lemma_busy_bound(s.workers);
}

/// A URL off the domain of the crawl is checked and never expanded: its
/// outcome is published, and whatever its page links to, nothing is added to
/// the visited URLs and no other outcome appears.
pub proof fn lemma_cross_domain_not_expanded(
    s: CrawlState,
    worker: int,
    reply: FetchReply,
    links: LinksModel,
)
    requires
        s.wf(),
        s.is_busy(worker),
        s.unit_of(worker).domain != Some(s.domain),
    ensures
        s.settle(worker, reply, links).visited == s.visited,
        s.settle(worker, reply, links).outcomes == s.outcomes.push(
            outcome_of(s.unit_of(worker), reply),
        ),
        subject(outcome_of(s.unit_of(worker), reply)) == Some(s.unit_of(worker)),
{
}

/// A failed check is never expanded either.
pub proof fn lemma_failure_not_expanded(
    s: CrawlState,
    worker: int,
    reply: FetchReply,
    links: LinksModel,
)
    requires
        s.wf(),
        s.is_busy(worker),
        outcome_of(s.unit_of(worker), reply) is Err,
    ensures
        s.settle(worker, reply, links).visited == s.visited,
        s.settle(worker, reply, links).outcomes == s.outcomes.push(
            outcome_of(s.unit_of(worker), reply),
        ),
{
}

/// Offering a URL whose address was accepted before changes nothing.
pub proof fn lemma_offer_visited(s: CrawlState, url: UrlModel)
    requires
        has_address(s.visited, url.address),
    ensures
        s.offer(url) == s,
{
}

/// Offering a URL a second time changes nothing: what is queued once is not
/// queued again.
pub proof fn lemma_offer_twice(s: CrawlState, url: UrlModel)
    requires
        s.wf(),
    ensures
        s.offer(url).offer(url) == s.offer(url),
{
    lemma_absorb_one(s.visited, url);
}

/// Links to URLs that were accepted before add nothing.
pub proof fn lemma_absorb_known(urls: Seq<UrlModel>, found: Seq<UrlModel>)
    requires
        forall|i: int| 0 <= i < found.len() ==> has_address(urls, (#[trigger] found[i]).address),
    ensures
        absorb(urls, found) == urls,
    decreases found.len(),
{
    if found.len() > 0 {
        let front = found.drop_last();
        assert forall|i: int| 0 <= i < front.len() implies has_address(
            urls,
            (#[trigger] front[i]).address,
        ) by {
            assert(front[i] == found[i]);
        }
        lemma_absorb_known(urls, front);
        assert(has_address(urls, found[found.len() - 1].address));
    }
}

/// A page that links to itself, or to any URL accepted before, puts nothing
/// back into the frontier: a cycle of links ends where it closes.
pub proof fn lemma_cycle_closes(s: CrawlState, worker: int, reply: FetchReply, links: LinksModel)
    requires
        s.wf(),
        s.is_busy(worker),
        forall|i: int|
            0 <= i < links.urls.len() ==> has_address(s.visited, (#[trigger] links.urls[i]).address),
    ensures
        s.settle(worker, reply, links).visited == s.visited,
        s.settle(worker, reply, links).frontier() == s.frontier(),
{
    lemma_absorb_known(s.visited, links.urls);
}

/// The URL that a worker holds was accepted, so a page that links to itself
/// links to a URL that is known.
pub proof fn lemma_unit_is_visited(s: CrawlState, worker: int)
    requires
        s.wf(),
        s.is_busy(worker),
    ensures
        has_address(s.visited, s.unit_of(worker).address),
{
    assert(s.workers[worker] matches Some(position) ==> position < s.claimed);
    let position = s.workers[worker]->0 as int;
    assert(s.visited[position].address == s.unit_of(worker).address);
}

/// No URL is claimed twice: the claimed URLs have distinct addresses, and
/// two workers never hold the same one.
pub proof fn lemma_single_dispatch(s: CrawlState)
    requires
        s.wf(),
    ensures
        distinct_addresses(s.visited.take(s.claimed as int)),
        forall|v: int, w: int|
            s.is_busy(v) && s.is_busy(w) && v != w ==> #[trigger] s.unit_of(v).address
                != #[trigger] s.unit_of(w).address,
{
    let claimed = s.visited.take(s.claimed as int);
    assert forall|i: int, j: int| 0 <= i < j < claimed.len() implies (#[trigger] claimed[i]).address
        != (#[trigger] claimed[j]).address by {
        assert(s.visited[i].address != s.visited[j].address);
    }
    assert forall|v: int, w: int| s.is_busy(v) && s.is_busy(w) && v != w implies #[trigger] s.unit_of(
        v,
    ).address != #[trigger] s.unit_of(w).address by {
        assert(s.workers[v] matches Some(position) ==> position < s.claimed);
        assert(s.workers[w] matches Some(position) ==> position < s.claimed);
        let a = s.workers[v]->0 as int;
        let b = s.workers[w]->0 as int;
        if v < w {
            assert(s.workers[v] != s.workers[w]);
        } else {
            assert(s.workers[w] != s.workers[v]);
        }
        if a < b {
            assert(s.visited[a].address != s.visited[b].address);
        } else {
            assert(s.visited[b].address != s.visited[a].address);
        }
    }
}

/// No URL has two outcomes: two outcomes of checks are about different
/// addresses.
pub proof fn lemma_one_outcome_per_url(s: CrawlState, j: int, k: int)
    requires
        s.wf(),
        0 <= j < s.outcomes.len(),
        0 <= k < s.outcomes.len(),
        j != k,
        subject(s.outcomes[j]) is Some,
        subject(s.outcomes[k]) is Some,
    ensures
        subject(s.outcomes[j])->0.address != subject(s.outcomes[k])->0.address,
{
    if j < k {
        assert(subject(s.outcomes[j]) matches Some(a) ==> (subject(s.outcomes[k]) matches Some(b)
            ==> a.address != b.address));
    } else {
        assert(subject(s.outcomes[k]) matches Some(a) ==> (subject(s.outcomes[j]) matches Some(b)
            ==> a.address != b.address));
    }
}

/// Every outcome of a check is about a URL that was claimed.
pub proof fn lemma_outcome_was_claimed(s: CrawlState, k: int)
    requires
        s.wf(),
        0 <= k < s.outcomes.len(),
        subject(s.outcomes[k]) is Some,
    ensures
        has_address(s.visited.take(s.claimed as int), subject(s.outcomes[k])->0.address),
{
    assert(s.accounted(k));
    let url = subject(s.outcomes[k])->0;
    let position = choose|position: int| #[trigger] s.finished_unit(position, url);
    assert(s.visited.take(s.claimed as int)[position].address == url.address);
}

/// The frontier is a queue: a URL that is accepted goes to its end, and a
/// claim takes its head.
pub proof fn lemma_frontier_fifo(s: CrawlState, url: UrlModel, worker: int)
    requires
        s.wf(),
    ensures
        !has_address(s.visited, url.address) ==> s.offer(url).frontier() == s.frontier().push(url),
        s.frontier().len() > 0 ==> s.next_step() == StepModel::Check(s.frontier().first())
            && s.claim(worker).frontier() == s.frontier().drop_first(),
{
    if !has_address(s.visited, url.address) {
        assert(s.offer(url).frontier() == s.frontier().push(url));
    }
    if s.frontier().len() > 0 {
        assert(s.claim(worker).frontier() == s.frontier().drop_first());
    }
}

/// A complete crawl stays complete, whatever happens: no worker holds a
/// unit that could add work, nothing is offered to it, a worker that asks is
/// told to leave, and the consumer is never told to wait. All that an event
/// can change is how far the consumer has read.
pub proof fn lemma_complete_is_final(s: CrawlState, event: Event)
    requires
        s.wf(),
        s.is_complete(),
        s.allows(event),
    ensures
        s.next_step() == StepModel::Exit,
        s.polled() != PollModel::Pending,
        s.after(event).is_complete(),
        s.after(event) == s.deliver() || s.after(event) == s,
{
    lemma_busy_zero(s.workers);
}

/// Once the consumer was told that the crawl is over, it is: nothing that
/// can happen changes the state, so the answer stays the same and no outcome
/// is ever published behind it.
pub proof fn lemma_done_is_final(s: CrawlState, events: Seq<Event>)
    requires
        s.wf(),
        s.polled() == PollModel::Done,
        s.allows_all(events),
    ensures
        s.after_all(events) == s,
    decreases events.len(),
{
    if events.len() > 0 {
        lemma_done_is_final(s, events.drop_last());
        lemma_complete_is_final(s, events.last());
    }
}

/// The consumer is told that the crawl is over only when every outcome was
/// read, nothing is queued and no worker could still publish one.
pub proof fn lemma_done_is_over(s: CrawlState)
    requires
        s.wf(),
        s.polled() == PollModel::Done,
    ensures
        s.delivered == s.outcomes.len(),
        s.frontier().len() == 0,
        forall|w: int| !s.is_busy(w),
{
    lemma_busy_zero(s.workers);
}

/// Whatever happens to a session that meets the invariant, it meets it
/// afterwards.
pub proof fn lemma_event_wf(s: CrawlState, event: Event)
    requires
        s.wf(),
        s.allows(event),
    ensures
        s.after(event).wf(),
{
    match event {
        Event::Offer(url) => lemma_offer_wf(s, url),
        Event::Claim(worker) => lemma_claim_wf(s, worker),
        Event::Settle(worker, reply, links) => lemma_settle_wf(s, worker, reply, links),
        Event::Deliver => lemma_deliver_wf(s),
    }
}

/// What could happen one after the other could happen up to any point.
pub proof fn lemma_allows_prefix(s: CrawlState, events: Seq<Event>, n: int)
    requires
        s.allows_all(events),
        0 <= n <= events.len(),
    ensures
        s.allows_all(events.take(n)),
    decreases events.len(),
{
    if n == events.len() {
        assert(events.take(n) == events);
    } else {
        lemma_allows_prefix(s, events.drop_last(), n);
        assert(events.drop_last().take(n) == events.take(n));
    }
}

/// Every state of every crawl meets the invariant: the state in which a
/// crawl starts does, and so does each state that events lead to from it.
pub proof fn lemma_every_crawl_wf(
    domain: Seq<char>,
    seed: UrlModel,
    workers: nat,
    events: Seq<Event>,
)
    requires
        CrawlState::start(domain, seed, workers).allows_all(events),
    ensures
        CrawlState::start(domain, seed, workers).after_all(events).wf(),
    decreases events.len(),
{
    let start = CrawlState::start(domain, seed, workers);
    if events.len() == 0 {
        lemma_start_wf(domain, seed, workers);
    } else {
        lemma_every_crawl_wf(domain, seed, workers, events.drop_last());
        lemma_event_wf(start.after_all(events.drop_last()), events.last());
    }
}

/// No event changes the size of the pool.
pub proof fn lemma_pool_size_fixed(s: CrawlState, events: Seq<Event>)
    requires
        s.allows_all(events),
    ensures
        s.after_all(events).pool_size() == s.pool_size(),
    decreases events.len(),
{
    if events.len() > 0 {
        lemma_pool_size_fixed(s, events.drop_last());
    }
}

/// Throughout every crawl, the number of active units stays between zero
/// and the number of workers that the crawl started with, and no URL is
/// visited twice.
pub proof fn lemma_throughout_every_crawl(
    domain: Seq<char>,
    seed: UrlModel,
    workers: nat,
    events: Seq<Event>,
    n: int,
)
    requires
        CrawlState::start(domain, seed, workers).allows_all(events),
        0 <= n <= events.len(),
    ensures
        0 <= CrawlState::start(domain, seed, workers).after_all(events.take(n)).active_count()
            <= workers,
        distinct_addresses(CrawlState::start(domain, seed, workers).after_all(events.take(n)).visited),
{
    let start = CrawlState::start(domain, seed, workers);
    lemma_allows_prefix(start, events, n);
    lemma_every_crawl_wf(domain, seed, workers, events.take(n));
    lemma_pool_size_fixed(start, events.take(n));
    lemma_active_count_bounded(start.after_all(events.take(n)));
}

/// A crawl cannot go on for ever on a site with finitely many addresses:
/// where every visited address is one of `site`, there are no more visited
/// URLs, and so no more claims, than `site` has addresses. A cycle of links
/// adds none.
pub proof fn lemma_claims_bounded_by_site(s: CrawlState, site: Set<Seq<char>>)
    requires
        s.wf(),
        site.finite(),
        forall|i: int| 0 <= i < s.visited.len() ==> site.contains((#[trigger] s.visited[i]).address),
    ensures
        s.claimed <= s.visited.len() <= site.len(),
{
    let addresses = s.visited.map_values(|url: UrlModel| url.address);
    assert forall|i: int, j: int|
        0 <= i < addresses.len() && 0 <= j < addresses.len() && i != j implies addresses[i]
        != addresses[j] by {
        if i < j {
            assert(s.visited[i].address != s.visited[j].address);
        } else {
            assert(s.visited[j].address != s.visited[i].address);
        }
    }
    addresses.unique_seq_to_set();
    assert forall|a: Seq<char>| addresses.to_set().contains(a) implies site.contains(a) by {
        let i = choose|i: int| 0 <= i < addresses.len() && addresses[i] == a;
        assert(site.contains(s.visited[i].address));
    }
    vstd::set_lib::lemma_len_subset(addresses.to_set(), site);
}

/// A malformed link text gets its outcome and nothing else: it is not
/// queued, so it is never claimed or requested, and it is no check. Each
/// report adds one outcome of a check, however many malformed links the page
/// has.
pub proof fn lemma_malformed_not_requested(
    s: CrawlState,
    worker: int,
    reply: FetchReply,
    links: LinksModel,
)
    requires
        s.wf(),
        s.is_busy(worker),
    ensures
        s.settle(worker, reply, links).visited == s.settle(
            worker,
            reply,
            LinksModel { urls: links.urls, malformed_urls: Seq::empty() },
        ).visited,
        s.settle(worker, reply, links).claimed == s.claimed,
        checks(s.settle(worker, reply, links).outcomes) == checks(s.outcomes) + 1,
{
    let outcome = outcome_of(s.unit_of(worker), reply);
    lemma_checks_malformed(s.outcomes, links.malformed_urls);
    lemma_checks_push(s.outcomes + malformed_outcomes(links.malformed_urls), outcome);
    lemma_checks_push(s.outcomes, outcome);
}

} // verus!
