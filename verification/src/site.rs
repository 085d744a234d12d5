//! A crawl against a site: where every report is what the site gives for the
//! URL and nothing is offered from outside, a finished crawl has visited
//! what the links lead to from the seed, and nothing else.

use crate::address::UrlModel;
use crate::fetching::{readable_page, FetchReply};
use crate::laws::{lemma_absorb, lemma_busy_zero, lemma_every_crawl_wf};
use crate::model::{absorb, has_address, CrawlState, Event};
use crate::parsing::LinksModel;
use vstd::prelude::*;

verus! {

/// A site as the crawl meets it: what comes back for each URL, and the links
/// of the page that came back.
pub struct Site {
    pub reply: spec_fn(UrlModel) -> FetchReply,
    pub links: spec_fn(UrlModel) -> LinksModel,
}

/// The URLs that a crawl of `domain` is led to by the page of `url`: its
/// links, where the page can be read and `url` is on the domain.
pub open spec fn leads_to(site: Site, domain: Seq<char>, url: UrlModel) -> Seq<UrlModel> {
    if readable_page((site.reply)(url)) && url.domain == Some(domain) {
        (site.links)(url).urls
    } else {
        Seq::empty()
    }
}

/// Whether `events`, from the state `s` on, are a crawl of `site`: each
/// report is what the site gives for the unit of the worker, and no URL is
/// offered from outside.
pub open spec fn follows(s: CrawlState, events: Seq<Event>, site: Site) -> bool
    decreases events.len(),
{
    if events.len() == 0 {
        true
    } else {
        let before = s.after_all(events.drop_last());
        follows(s, events.drop_last(), site) && match events.last() {
            Event::Offer(_) => false,
            Event::Claim(_) => true,
            Event::Settle(worker, reply, links) => reply == (site.reply)(before.unit_of(worker))
                && links == (site.links)(before.unit_of(worker)),
            Event::Deliver => true,
        }
    }
}

/// The unit at `position` was claimed and is no longer in flight.
pub open spec fn finished(s: CrawlState, position: int) -> bool {
    0 <= position < s.claimed && !s.in_flight(position as nat)
}

/// Every URL that the page at `position` leads to is visited.
pub open spec fn followed_up(s: CrawlState, site: Site, position: int) -> bool {
    forall|i: int|
        0 <= i < leads_to(site, s.domain, s.visited[position]).len() ==> has_address(
            s.visited,
            (#[trigger] leads_to(site, s.domain, s.visited[position])[i]).address,
        )
}

/// Every unit that is finished has been followed up.
pub open spec fn finished_followed_up(s: CrawlState, site: Site) -> bool {
    forall|position: int| #[trigger] finished(s, position) ==> followed_up(s, site, position)
}

/// `path` is a way from `seed` along links that a crawl of `domain` follows.
pub open spec fn is_way(site: Site, domain: Seq<char>, seed: UrlModel, path: Seq<UrlModel>) -> bool {
    &&& path.len() > 0
    &&& path[0] == seed
    &&& forall|i: int|
        0 <= i < path.len() - 1 ==> leads_to(site, domain, #[trigger] path[i]).contains(path[i + 1])
}

/// Links lead from `seed` to `url`.
pub open spec fn reachable(site: Site, domain: Seq<char>, seed: UrlModel, url: UrlModel) -> bool {
    exists|path: Seq<UrlModel>| #[trigger] is_way(site, domain, seed, path) && path.last() == url
}

/// Every visited URL can be reached from `seed`.
pub open spec fn visited_reachable(s: CrawlState, site: Site, seed: UrlModel) -> bool {
    forall|i: int|
        0 <= i < s.visited.len() ==> reachable(site, s.domain, seed, #[trigger] s.visited[i])
}

/// What is visited stays visited when more is accepted behind it.
proof fn lemma_has_address_grows(urls: Seq<UrlModel>, longer: Seq<UrlModel>, address: Seq<char>)
    requires
        urls.is_prefix_of(longer),
        has_address(urls, address),
    ensures
        has_address(longer, address),
{
    let i = choose|i: int| 0 <= i < urls.len() && (#[trigger] urls[i]).address == address;
    assert(longer[i].address == address);
}

/// After a list of URLs was offered, each of them is visited.
proof fn lemma_absorb_holds(urls: Seq<UrlModel>, found: Seq<UrlModel>, i: int)
    requires
        0 <= i < found.len(),
    ensures
        has_address(absorb(urls, found), found[i].address),
    decreases found.len(),
{
    let front = absorb(urls, found.drop_last());
    if i == found.len() - 1 {
        if !has_address(front, found.last().address) {
            assert(front.push(found.last())[front.len() as int].address == found[i].address);
        }
    } else {
        lemma_absorb_holds(urls, found.drop_last(), i);
        assert(found.drop_last()[i] == found[i]);
        if !has_address(front, found.last().address) {
            lemma_has_address_grows(front, front.push(found.last()), found[i].address);
        }
    }
}

/// Each URL that is visited after a list was offered was visited before or
/// is one of the list.
proof fn lemma_absorb_source(urls: Seq<UrlModel>, found: Seq<UrlModel>, i: int)
    requires
        0 <= i < absorb(urls, found).len(),
    ensures
        urls.len() <= absorb(urls, found).len(),
        i < urls.len() ==> absorb(urls, found)[i] == urls[i],
        i >= urls.len() ==> found.contains(absorb(urls, found)[i]),
    decreases found.len(),
{
    if found.len() > 0 {
        let front = absorb(urls, found.drop_last());
        if i < front.len() {
            lemma_absorb_source(urls, found.drop_last(), i);
            if i >= urls.len() {
                let j = choose|j: int|
                    0 <= j < found.drop_last().len() && found.drop_last()[j] == front[i];
                assert(found[j] == front[i]);
            }
        } else {
            if front.len() > 0 {
                lemma_absorb_source(urls, found.drop_last(), 0);
            }
            assert(absorb(urls, found)[i] == found[found.len() - 1]);
        }
    }
}

/// An event of a crawl of a site keeps every finished unit followed up.
proof fn lemma_event_follows_up(s: CrawlState, site: Site, event: Event)
    requires
        s.wf(),
        s.allows(event),
        finished_followed_up(s, site),
        match event {
            Event::Offer(_) => false,
            Event::Claim(_) => true,
            Event::Settle(worker, reply, links) => reply == (site.reply)(s.unit_of(worker))
                && links == (site.links)(s.unit_of(worker)),
            Event::Deliver => true,
        },
    ensures
        finished_followed_up(s.after(event), site),
{
    let t = s.after(event);
    match event {
        Event::Offer(_) => {},
        Event::Deliver => {
            assert forall|position: int| #[trigger] finished(t, position) implies followed_up(
                t,
                site,
                position,
            ) by {
                assert(t.in_flight(position as nat) == s.in_flight(position as nat));
                assert(finished(s, position));
            }
        },
        Event::Claim(worker) => {
            assert forall|position: int| #[trigger] finished(t, position) implies followed_up(
                t,
                site,
                position,
            ) by {
                if s.claimed < s.visited.len() {
                    assert(t.workers[worker] == Some(s.claimed));
                    if position == s.claimed {
                        assert(t.in_flight(position as nat));
                    }
                    if s.in_flight(position as nat) {
                        let w = choose|w: int|
                            0 <= w < s.workers.len() && #[trigger] s.workers[w] == Some(
                                position as nat,
                            );
                        assert(t.workers[w] == Some(position as nat));
                    }
                }
                assert(finished(s, position));
            }
        },
        Event::Settle(worker, reply, links) => {
            let unit = s.workers[worker]->0 as int;
            assert(s.workers[worker] matches Some(p) ==> p < s.claimed);
            lemma_absorb(s.visited, links.urls);
            assert(s.visited.is_prefix_of(t.visited));
            assert forall|position: int| #[trigger] finished(t, position) implies followed_up(
                t,
                site,
                position,
            ) by {
                let led = leads_to(site, t.domain, t.visited[position]);
                assert(t.visited[position] == s.visited[position]);
                if position == unit {
                    assert forall|i: int| 0 <= i < led.len() implies has_address(
                        t.visited,
                        (#[trigger] led[i]).address,
                    ) by {
                        lemma_absorb_holds(s.visited, links.urls, i);
                    }
                } else {
                    if s.in_flight(position as nat) {
                        let w = choose|w: int|
                            0 <= w < s.workers.len() && #[trigger] s.workers[w] == Some(
                                position as nat,
                            );
                        assert(t.workers[w] == Some(position as nat));
                    }
                    assert(finished(s, position));
                    assert(followed_up(s, site, position));
                    assert forall|i: int| 0 <= i < led.len() implies has_address(
                        t.visited,
                        (#[trigger] led[i]).address,
                    ) by {
                        lemma_has_address_grows(s.visited, t.visited, led[i].address);
                    }
                }
            }
        },
    }
}

/// An event of a crawl of a site keeps every visited URL reachable from the
/// seed.
proof fn lemma_event_stays_reachable(s: CrawlState, site: Site, seed: UrlModel, event: Event)
    requires
        s.wf(),
        s.allows(event),
        visited_reachable(s, site, seed),
        match event {
            Event::Offer(_) => false,
            Event::Claim(_) => true,
            Event::Settle(worker, reply, links) => reply == (site.reply)(s.unit_of(worker))
                && links == (site.links)(s.unit_of(worker)),
            Event::Deliver => true,
        },
    ensures
        visited_reachable(s.after(event), site, seed),
{
    let t = s.after(event);
    match event {
        Event::Settle(worker, reply, links) => {
            let unit = s.workers[worker]->0 as int;
            assert(s.workers[worker] matches Some(p) ==> p < s.claimed);
            assert forall|i: int| 0 <= i < t.visited.len() implies reachable(
                site,
                t.domain,
                seed,
                #[trigger] t.visited[i],
            ) by {
                if s.expands(worker, reply) {
                    lemma_absorb_source(s.visited, links.urls, i);
                    if i < s.visited.len() {
                        assert(reachable(site, s.domain, seed, s.visited[i]));
                    } else {
                        let from = s.visited[unit];
                        assert(reachable(site, s.domain, seed, from));
                        let path = choose|path: Seq<UrlModel>| #[trigger]
                            is_way(site, s.domain, seed, path) && path.last() == from;
                        let longer = path.push(t.visited[i]);
                        assert(leads_to(site, s.domain, from) == links.urls);
                        assert forall|k: int| 0 <= k < longer.len() - 1 implies leads_to(
                            site,
                            s.domain,
                            #[trigger] longer[k],
                        ).contains(longer[k + 1]) by {
                            if k < path.len() - 1 {
                                assert(longer[k] == path[k]);
                                assert(longer[k + 1] == path[k + 1]);
                            }
                        }
                        assert(is_way(site, s.domain, seed, longer));
                        assert(longer.last() == t.visited[i]);
                    }
                } else {
                    assert(reachable(site, s.domain, seed, s.visited[i]));
                }
            }
        },
        _ => {
            assert forall|i: int| 0 <= i < t.visited.len() implies reachable(
                site,
                t.domain,
                seed,
                #[trigger] t.visited[i],
            ) by {
                assert(reachable(site, s.domain, seed, s.visited[i]));
            }
        },
    }
}

/// Throughout a crawl of a site, every finished unit has been followed up
/// and every visited URL can be reached from the seed.
pub proof fn lemma_crawl_of_site(
    domain: Seq<char>,
    seed: UrlModel,
    workers: nat,
    site: Site,
    events: Seq<Event>,
)
    requires
        CrawlState::start(domain, seed, workers).allows_all(events),
        follows(CrawlState::start(domain, seed, workers), events, site),
    ensures
        CrawlState::start(domain, seed, workers).after_all(events).domain == domain,
        finished_followed_up(CrawlState::start(domain, seed, workers).after_all(events), site),
        visited_reachable(CrawlState::start(domain, seed, workers).after_all(events), site, seed),
    decreases events.len(),
{
    let start = CrawlState::start(domain, seed, workers);
    if events.len() == 0 {
        assert forall|position: int| #[trigger] finished(start, position) implies followed_up(
            start,
            site,
            position,
        ) by {}
        let path = seq![seed];
        assert(is_way(site, domain, seed, path));
        assert(path.last() == seed);
    } else {
        let before = start.after_all(events.drop_last());
        lemma_crawl_of_site(domain, seed, workers, site, events.drop_last());
        lemma_every_crawl_wf(domain, seed, workers, events.drop_last());
        lemma_event_follows_up(before, site, events.last());
        lemma_event_stays_reachable(before, site, seed, events.last());
    }
}

/// A finished crawl of a site has visited exactly what the links lead to
/// from the seed: every visited URL can be reached from the seed, and every
/// URL that the page of a visited URL leads to is visited.
pub proof fn lemma_finished_crawl_is_closure(
    domain: Seq<char>,
    seed: UrlModel,
    workers: nat,
    site: Site,
    events: Seq<Event>,
)
    requires
        CrawlState::start(domain, seed, workers).allows_all(events),
        follows(CrawlState::start(domain, seed, workers), events, site),
        CrawlState::start(domain, seed, workers).after_all(events).is_complete(),
    ensures
        visited_reachable(CrawlState::start(domain, seed, workers).after_all(events), site, seed),
        forall|position: int|
            0 <= position < CrawlState::start(domain, seed, workers).after_all(events).visited.len()
                ==> #[trigger] followed_up(
                CrawlState::start(domain, seed, workers).after_all(events),
                site,
                position,
            ),
{
    let end = CrawlState::start(domain, seed, workers).after_all(events);
    lemma_crawl_of_site(domain, seed, workers, site, events);
    lemma_every_crawl_wf(domain, seed, workers, events);
    lemma_busy_zero(end.workers);
    assert forall|position: int| 0 <= position < end.visited.len() implies #[trigger] followed_up(
        end,
        site,
        position,
    ) by {
        assert(finished(end, position));
    }
}

} // verus!
