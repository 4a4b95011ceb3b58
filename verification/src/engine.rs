use vstd::prelude::*;
use vstd::set_lib::lemma_len_subset;

use crate::scrape::{
    attr_values, help_tag_selector_spec, inner_htmls, link_pass, link_selector_spec, scrape_page,
    sel_valid, tags_spec, texts_of, ExtractionResult,
};
use crate::urls::{parse_outcome, CrawlError, CrawlSpec, CrawlUrl, ParseOutcome};
use crate::visited::VisitedSet;

verus! {

/// The crawler engine: owns the visited set, the queue of pending URLs and
/// the allowed domain, and drives the fetch, scrape and re-enqueue cycle.
///
/// The caller fetches: it takes the next pending URL with `next_url`, fetches
/// it outside, and hands the page back through `on_page_fetched` (or calls
/// nothing on a fetch failure, which leaves the URL visited and never
/// retried). The crawl ends when `next_url` yields nothing.
pub struct CrawlEngine {
    domain: String,
    visited: VisitedSet,
    queue: Vec<CrawlUrl>,
}

/// What enqueuing one raw seed URL does to the engine's visited sequence and
/// pending queue: a URL that does not parse absolutely is rejected; one whose
/// host is not the allowed domain, or which was already visited, is dropped;
/// the rest is marked visited and enqueued.
pub open spec fn visit_spec(
    domain: Seq<char>,
    visited: Seq<Seq<char>>,
    pending: Seq<CrawlSpec>,
    raw: Seq<char>,
) -> (Result<bool, CrawlError>, Seq<Seq<char>>, Seq<CrawlSpec>) {
    match parse_outcome(raw) {
        ParseOutcome::Absolute(u) => {
            if u.host != domain {
                (Ok(false), visited, pending)
            } else if visited.contains(u.base) {
                (Ok(false), visited, pending)
            } else {
                (
                    Ok(true),
                    visited.push(u.base),
                    pending.push(CrawlSpec { text: u.base, host: u.host }),
                )
            }
        },
        _ => (Err(CrawlError::MalformedUrl), visited, pending),
    }
}

impl CrawlEngine {
    /// Every pending URL has the allowed domain as host, was recorded in the
    /// visited sequence when it was enqueued, and is pending only once.
    pub closed spec fn wf(self) -> bool {
        &&& forall|k: int|
            0 <= k < self.queue@.len() ==> (#[trigger] self.queue@[k])@.host == self.domain@
        &&& forall|k: int|
            0 <= k < self.queue@.len() ==> self.visited@.contains(
                (#[trigger] self.queue@[k])@.text,
            )
        &&& forall|k: int, l: int|
            0 <= k < l < self.queue@.len() ==> self.queue@[k]@.text != self.queue@[l]@.text
    }

    /// The domain that every fetched URL's host must equal.
    pub closed spec fn allowed_domain(self) -> Seq<char> {
        self.domain@
    }

    /// Every URL ever scheduled, in the order it was first discovered.
    pub closed spec fn visited_urls(self) -> Seq<Seq<char>> {
        self.visited@
    }

    /// The URLs scheduled and not yet handed out for fetching.
    pub closed spec fn pending(self) -> Seq<CrawlSpec> {
        self.queue.deep_view()
    }

    /// Configure an engine restricted to `allowed_domain`, with nothing
    /// visited and nothing pending. Fails fast, before any crawling, if and
    /// only if one of the two fixed extraction selectors does not compile.
    pub fn new(allowed_domain: &String) -> (r: Result<CrawlEngine, CrawlError>)
        ensures
            (r is Ok <==> sel_valid(help_tag_selector_spec()) && sel_valid(link_selector_spec())),
            (r matches Ok(e) ==> {
                &&& e.wf()
                &&& e.allowed_domain() == allowed_domain@
                &&& e.visited_urls() == Seq::<Seq<char>>::empty()
                &&& e.pending() == Seq::<CrawlSpec>::empty()
            }),
            (r is Err ==> r == Err::<CrawlEngine, CrawlError>(CrawlError::InvalidSelector)),
    {
        if !crate::scrape::selectors_compile() {
            return Err(CrawlError::InvalidSelector);
        }
        let e = CrawlEngine {
            domain: allowed_domain.clone(),
            visited: VisitedSet::new(),
            queue: Vec::new(),
        };
        proof {
            assert(e.pending() =~= Seq::<CrawlSpec>::empty());
        }
        Ok(e)
    }

    /// How many distinct URLs were ever scheduled.
    pub fn visited_count(&self) -> (n: usize)
        ensures
            n == self.visited_urls().len(),
    {
        self.visited.len()
    }

    /// How many URLs are scheduled and not yet handed out for fetching.
    pub fn pending_count(&self) -> (n: usize)
        ensures
            n == self.pending().len(),
    {
        self.queue.len()
    }

    /// Enqueue a seed or discovered URL for fetching, unless its host is
    /// outside the allowed domain or it was already scheduled once.
    pub fn visit(&mut self, raw: &str) -> (r: Result<bool, CrawlError>)
        requires
            old(self).wf(),
        ensures
            final(self).wf(),
            final(self).allowed_domain() == old(self).allowed_domain(),
            (r, final(self).visited_urls(), final(self).pending()) == visit_spec(
                old(self).allowed_domain(),
                old(self).visited_urls(),
                old(self).pending(),
                raw@,
            ),
    {
        let c = match CrawlUrl::from_absolute(raw) {
            Ok(c) => c,
            Err(e) => {
                return Err(e);
            },
        };
        if !c.host().eq(&self.domain) {
            return Ok(false);
        }
        let inserted = self.visited.check_and_insert(c.text());
        if !inserted {
            return Ok(false);
        }
        let ghost cv = c@;
        let ghost old_queue = self.queue.deep_view();
        self.queue.push(c);
        proof {
            assert(self.queue.deep_view() =~= old_queue.push(cv));
            assert(self.visited@[old(self).visited@.len() as int] == cv.text);
            assert(forall|k: int|
                0 <= k < old(self).visited@.len() ==> #[trigger] self.visited@[k] == old(
                    self,
                ).visited@[k]);
            assert forall|k: int| 0 <= k < self.queue@.len() implies self.visited@.contains(
                (#[trigger] self.queue@[k])@.text,
            ) by {
                if k < old_queue.len() {
                    let w = choose|w: int|
                        0 <= w < old(self).visited@.len() && old(self).visited@[w]
                            == old_queue[k].text;
                    assert(self.visited@[w] == old_queue[k].text);
                }
            }
            assert forall|k: int, l: int| 0 <= k < l < self.queue@.len() implies self.queue@[k]@.text
                != self.queue@[l]@.text by {
                if l == old_queue.len() {
                    assert(old(self).visited@.contains(old_queue[k].text));
                }
            }
        }
        Ok(true)
    }

    /// Hand out the next pending URL for fetching, oldest first. Every URL
    /// returned has the allowed domain as host — no fetch is ever issued
    /// outside it — and was recorded in the visited sequence when it was
    /// enqueued.
    pub fn next_url(&mut self) -> (r: Option<CrawlUrl>)
        requires
            old(self).wf(),
        ensures
            final(self).wf(),
            final(self).allowed_domain() == old(self).allowed_domain(),
            final(self).visited_urls() == old(self).visited_urls(),
            (old(self).pending().len() == 0 ==> r is None && final(self).pending() == old(
                self,
            ).pending()),
            (old(self).pending().len() > 0 ==> ({
                &&& r is Some
                &&& r.unwrap()@ == old(self).pending()[0]
                &&& final(self).pending() == old(self).pending().drop_first()
                &&& r.unwrap()@.host == old(self).allowed_domain()
                &&& old(self).visited_urls().contains(r.unwrap()@.text)
            })),
    {
        if self.queue.len() == 0 {
            return None;
        }
        let u = self.queue.remove(0);
        proof {
            assert(self.queue.deep_view() =~= old(self).pending().drop_first());
        }
        Some(u)
    }

    /// Take one fetched page — its resolved response URL, after any
    /// redirects, and its raw HTML — scrape it, enqueue the newly discovered
    /// same-domain links, and return the page's extraction result.
    ///
    /// Succeeds if and only if the resolved URL parses absolutely and the
    /// fixed selectors compile; on an error nothing changes. The visited
    /// sequence and the pending queue grow by exactly the new links, so the
    /// queue shrinks over a whole crawl once discovery dries up.
    pub fn on_page_fetched(&mut self, resolved_raw: &str, html: &str) -> (r: Result<
        ExtractionResult,
        CrawlError,
    >)
        requires
            old(self).wf(),
        ensures
            final(self).wf(),
            final(self).allowed_domain() == old(self).allowed_domain(),
            (r is Ok <==> parse_outcome(resolved_raw@) is Absolute && sel_valid(
                help_tag_selector_spec(),
            ) && sel_valid(link_selector_spec())),
            (r is Err ==> final(self).visited_urls() == old(self).visited_urls()
                && final(self).pending() == old(self).pending()),
            (!(parse_outcome(resolved_raw@) is Absolute) ==> r == Err::<
                ExtractionResult,
                CrawlError,
            >(CrawlError::MalformedUrl)),
            (parse_outcome(resolved_raw@) matches ParseOutcome::Absolute(u) ==> ({
                let base = CrawlSpec { text: u.base, host: u.host };
                let (vf, nl) = link_pass(
                    base,
                    old(self).allowed_domain(),
                    old(self).visited_urls(),
                    attr_values(html@, link_selector_spec(), "href"@),
                );
                &&& (!(sel_valid(help_tag_selector_spec()) && sel_valid(link_selector_spec()))
                    ==> r == Err::<ExtractionResult, CrawlError>(CrawlError::InvalidSelector))
                &&& (sel_valid(help_tag_selector_spec()) && sel_valid(link_selector_spec()) ==> ({
                    &&& (r matches Ok(res) && res.tag_set() == tags_spec(
                        base,
                        inner_htmls(html@, help_tag_selector_spec()),
                    ))
                    &&& final(self).visited_urls() == vf
                    &&& final(self).pending() == old(self).pending() + nl
                }))
            })),
    {
        let resolved = match CrawlUrl::from_absolute(resolved_raw) {
            Ok(c) => c,
            Err(e) => {
                return Err(e);
            },
        };
        let domain = self.domain.clone();
        let ghost v0 = self.visited@;
        let ghost q0 = self.queue.deep_view();
        match scrape_page(&resolved, html, &domain, &mut self.visited) {
            Ok((res, mut links)) => {
                let ghost nl = links.deep_view();
                proof {
                    crate::scrape::lemma_link_pass_props(
                        resolved@,
                        domain@,
                        v0,
                        attr_values(html@, link_selector_spec(), "href"@),
                    );
                }
                self.queue.append(&mut links);
                proof {
                    assert(self.queue.deep_view() =~= q0 + nl);
                    assert(forall|k: int|
                        0 <= k < q0.len() ==> q0[k] == (#[trigger] old(self).queue@[k])@);
                    assert(forall|k: int|
                        0 <= k < self.queue@.len() ==> self.queue.deep_view()[k]
                            == (#[trigger] self.queue@[k])@);
                    assert(forall|k: int|
                        0 <= k < q0.len() ==> v0.contains((#[trigger] q0[k]).text));
                    assert(self.visited@ =~= v0 + texts_of(nl));
                    assert(forall|k: int|
                        0 <= k < nl.len() ==> texts_of(nl)[k] == (#[trigger] nl[k]).text);
                    assert forall|k: int| 0 <= k < self.queue@.len() implies self.visited@.contains(
                        (#[trigger] self.queue@[k])@.text,
                    ) by {
                        if k < q0.len() {
                            let w = choose|w: int| 0 <= w < v0.len() && v0[w] == q0[k].text;
                            assert(self.visited@[w] == q0[k].text);
                        } else {
                            assert(self.queue@[k]@ == nl[k - q0.len()]);
                            assert(self.visited@[v0.len() + k - q0.len()] == nl[k
                                - q0.len()].text);
                        }
                    }
                    assert forall|k: int, l: int|
                        0 <= k < l < self.queue@.len() implies self.queue@[k]@.text
                        != self.queue@[l]@.text by {
                        if k < q0.len() && l >= q0.len() {
                            assert(v0.contains(q0[k].text));
                            assert(!v0.contains(nl[l - q0.len()].text));
                        }
                        if k >= q0.len() {
                            assert(nl[k - q0.len()].text != nl[l - q0.len()].text);
                        }
                    }
                }
                Ok(res)
            },
            Err(e) => Err(e),
        }
    }
}

/// Domain containment: no URL whose host differs from the allowed domain is
/// ever pending, so no fetch is ever issued for one; `next_url` restates
/// this of each URL it hands out.
pub proof fn lemma_domain_containment(e: &CrawlEngine, k: int)
    requires
        e.wf(),
        0 <= k < e.pending().len(),
    ensures
        e.pending()[k].host == e.allowed_domain(),
{
}

/// At-most-once visitation, across a whole run: a URL already in the visited
/// sequence and no longer pending is not made pending again by enqueuing a
/// seed — so once fetched, it is never fetched twice.
pub proof fn lemma_visit_never_reenqueues(
    domain: Seq<char>,
    visited: Seq<Seq<char>>,
    pending: Seq<CrawlSpec>,
    raw: Seq<char>,
    t: Seq<char>,
)
    requires
        visited.contains(t),
        !texts_of(pending).contains(t),
    ensures
        !texts_of(visit_spec(domain, visited, pending, raw).2).contains(t),
{
    let p2 = visit_spec(domain, visited, pending, raw).2;
    assert forall|w: int| 0 <= w < p2.len() implies texts_of(p2)[w] != t by {
        if w < pending.len() {
            assert(texts_of(pending)[w] == texts_of(p2)[w]);
            assert(texts_of(pending).contains(texts_of(pending)[w]));
        }
    }
}

/// At-most-once visitation, across a whole run: a URL already in the visited
/// sequence and no longer pending is not made pending again by scraping any
/// page — so once fetched, it is never fetched twice.
pub proof fn lemma_scrape_never_reenqueues(
    base: CrawlSpec,
    domain: Seq<char>,
    visited: Seq<Seq<char>>,
    pending: Seq<CrawlSpec>,
    hrefs: Seq<Seq<char>>,
    t: Seq<char>,
)
    requires
        visited.contains(t),
        !texts_of(pending).contains(t),
    ensures
        !texts_of(pending + link_pass(base, domain, visited, hrefs).1).contains(t),
{
    crate::scrape::lemma_link_pass_props(base, domain, visited, hrefs);
    let nl = link_pass(base, domain, visited, hrefs).1;
    let p2 = pending + nl;
    assert forall|w: int| 0 <= w < p2.len() implies texts_of(p2)[w] != t by {
        if w < pending.len() {
            assert(texts_of(pending)[w] == texts_of(p2)[w]);
            assert(texts_of(pending).contains(texts_of(pending)[w]));
        } else {
            assert(p2[w] == nl[w - pending.len()]);
            assert(!visited.contains(nl[w - pending.len()].text));
        }
    }
}

/// Termination: the pending queue never outgrows the visited sequence. Each
/// `next_url` shortens the queue by one, and each scraped page grows queue
/// and visited by the same count of never-before-visited URLs, so when only
/// finitely many distinct URLs are reachable from the seed the visited
/// sequence, and with it the queue, stops growing and the crawl drains in
/// finitely many steps.
pub proof fn lemma_pending_bounded(e: &CrawlEngine)
    requires
        e.wf(),
    ensures
        e.pending().len() <= e.visited_urls().len(),
{
    let texts = texts_of(e.pending());
    assert(texts.no_duplicates());
    texts.unique_seq_to_set();
    assert forall|x: Seq<char>| texts.to_set().contains(x) implies e.visited_urls().to_set().contains(
        x,
    ) by {
        let w = choose|w: int| 0 <= w < texts.len() && texts[w] == x;
        assert(e.visited_urls().contains(e.pending()[w].text));
    }
    lemma_len_subset(texts.to_set(), e.visited_urls().to_set());
    e.visited_urls().lemma_cardinality_of_set();
}

} // verus!
