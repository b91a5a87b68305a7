//! The sequential crawl driver: the frontier phase consuming the
//! work queue it grows, with its termination argument, and the
//! transport table it runs against. Fetch outcomes come in as data;
//! the network itself stays outside.

use vstd::prelude::*;

use crate::engine::{CrawlState, PageActions, process_page};
use crate::fetch::FetchOutcome;
use crate::mirror::WritePlan;
use crate::scope::{spec_in_scope, spec_ignored};
use crate::text::{bytes_eq, copy_bytes, vec_contains, append_all, lemma_deep_view_index,
    lemma_deep_view_push};

verus! {

/// The first outcome `entries` holds for `u`, a transport failure
/// when there is none.
pub open spec fn lookup_in(entries: Seq<(Vec<u8>, FetchOutcome)>, u: Seq<u8>) -> FetchOutcome
    decreases entries.len(),
{
    if entries.len() == 0 {
        FetchOutcome::Failed
    } else if entries[0].0@ == u {
        entries[0].1
    } else {
        lookup_in(entries.skip(1), u)
    }
}

/// Where the first entry for `u` stands, the lookup gives its
/// outcome.
proof fn lemma_lookup_at(entries: Seq<(Vec<u8>, FetchOutcome)>, u: Seq<u8>, i: int)
    requires
        0 <= i < entries.len(),
        entries[i].0@ == u,
        forall|j: int| 0 <= j < i ==> #[trigger] entries[j].0@ != u,
    ensures
        lookup_in(entries, u) == entries[i].1,
    decreases i,
{
    if i > 0 {
        assert(forall|j: int| 0 <= j < i - 1 ==> #[trigger] entries.skip(1)[j].0@ != u);
        lemma_lookup_at(entries.skip(1), u, i - 1);
    }
}

/// A URL with no entry looks up to a transport failure.
proof fn lemma_lookup_absent(entries: Seq<(Vec<u8>, FetchOutcome)>, u: Seq<u8>)
    requires
        forall|j: int| 0 <= j < entries.len() ==> #[trigger] entries[j].0@ != u,
    ensures
        lookup_in(entries, u) == FetchOutcome::Failed,
    decreases entries.len(),
{
    if entries.len() > 0 {
        assert(forall|j: int|
            0 <= j < entries.len() - 1 ==> #[trigger] entries.skip(1)[j].0@ != u);
        lemma_lookup_absent(entries.skip(1), u);
    }
}

/// A deterministic page table standing in for the network while the
/// sequential engine runs: each URL maps to the outcome its fetch
/// has; a URL without an entry fails with a transport error.
pub struct Transport {
    /// Each URL with its outcome; the first entry for a URL counts.
    pub pages: Vec<(Vec<u8>, FetchOutcome)>,
}

impl Transport {
    /// The URLs the transport has an outcome for.
    pub open spec fn keys(&self) -> Set<Seq<u8>> {
        self.pages@.map_values(|p: (Vec<u8>, FetchOutcome)| p.0@).to_set()
    }

    /// The outcome a fetch of `u` has.
    pub open spec fn spec_lookup(&self, u: Seq<u8>) -> FetchOutcome {
        lookup_in(self.pages@, u)
    }

    /// An empty transport.
    pub fn new() -> (r: Transport)
        ensures
            r.pages@.len() == 0,
    {
        Transport { pages: Vec::new() }
    }

    /// Adds an entry for `u` with the given outcome.
    pub fn add(&mut self, u: Vec<u8>, outcome: FetchOutcome)
        ensures
            final(self).pages@ == old(self).pages@.push((u, outcome)),
    {
        self.pages.push((u, outcome));
    }

    /// Finds the outcome stored for `u`, `None` when there is none.
    pub fn lookup(&self, u: &Vec<u8>) -> (r: Option<&FetchOutcome>)
        ensures
            r is Some <==> self.keys().contains(u@),
            r matches Some(oc) ==> *oc == self.spec_lookup(u@),
    {
        let ghost m = self.pages@.map_values(|p: (Vec<u8>, FetchOutcome)| p.0@);
        let mut i: usize = 0;
        while i < self.pages.len()
            invariant
                i <= self.pages@.len(),
                m == self.pages@.map_values(|p: (Vec<u8>, FetchOutcome)| p.0@),
                forall|j: int| 0 <= j < i ==> #[trigger] self.pages@[j].0@ != u@,
            decreases self.pages@.len() - i,
        {
            if bytes_eq(&self.pages[i].0, u) {
                proof {
                    lemma_lookup_at(self.pages@, u@, i as int);
                    assert(m[i as int] == u@);
                    assert(m.contains(u@));
                }
                return Some(&self.pages[i].1);
            }
            i += 1;
        }
        proof {
            assert(!self.keys().contains(u@)) by {
                if m.contains(u@) {
                    let j = choose|j: int| 0 <= j < m.len() && m[j] == u@;
                    assert(self.pages@[j].0@ != u@);
                }
            }
        }
        None
    }
}

/// What the frontier phase produced: the pages fetched in dispatch
/// order, their mirror writes, and the two asset queues for the
/// second phase.
pub struct FrontierLog {
    /// Every page URL dispatched, in order.
    pub fetched: Vec<Vec<u8>>,
    /// The mirror write of each successfully fetched page.
    pub writes: Vec<(WritePlan, Vec<u8>)>,
    /// The image queue the pages filled.
    pub imgs: Vec<Vec<u8>>,
    /// The script and stylesheet queue the pages filled.
    pub js_css: Vec<Vec<u8>>,
}

/// The frontier phase: seeds are claimed and enqueued, then the
/// frontier queue is consumed, each page dispatched through
/// `process_page` and its newly claimed anchors enqueued behind, until
/// no current or future task can enqueue again.
///
/// The contract carries the crawl's guarantees: every fetched page
/// beyond the seeds starts with the scope base and matches no ignore
/// prefix, no page is fetched twice, and every new entry of the page
/// failure ledger was fetched. The loop terminates for every finite
/// transport, cycles included: the dedup claim lets no URL enter the
/// frontier twice, so the pair of unfetched transport entries and
/// unconsumed queue length in the `decreases` measure always falls.
pub fn run_frontier(
    state: &mut CrawlState,
    seeds: &Vec<Vec<u8>>,
    transport: &Transport,
    out_dir: &Vec<u8>,
) -> (log: FrontierLog)
    ensures
        final(state).scope_base@ == old(state).scope_base@,
        final(state).ignore.deep_view() == old(state).ignore.deep_view(),
        final(state).failed_imgs@ == old(state).failed_imgs@,
        final(state).failed_js_css@ == old(state).failed_js_css@,
        old(state).visited@.subset_of(final(state).visited@),
        forall|i: int| 0 <= i < seeds.deep_view().len() ==> final(state).visited@.contains(
            #[trigger] seeds.deep_view()[i],
        ) && log.fetched.deep_view().contains(seeds.deep_view()[i]),
        forall|i: int| 0 <= i < log.fetched.deep_view().len() ==> final(state).visited@.contains(
            #[trigger] log.fetched.deep_view()[i],
        ),
        forall|i: int| 0 <= i < log.fetched.deep_view().len() ==> seeds.deep_view().contains(
            #[trigger] log.fetched.deep_view()[i],
        ) || (spec_in_scope(log.fetched.deep_view()[i], old(state).scope_base@) && !spec_ignored(
            log.fetched.deep_view()[i],
            old(state).ignore.deep_view(),
        )),
        forall|i: int, j: int| 0 <= i < j < log.fetched.deep_view().len()
            ==> log.fetched.deep_view()[i] != log.fetched.deep_view()[j],
        forall|u: Seq<u8>| final(state).failed_pages@.contains(u) ==> old(
            state,
        ).failed_pages@.contains(u) || log.fetched.deep_view().contains(u),
        forall|i: int| 0 <= i < log.imgs.deep_view().len() ==> final(state).visited@.contains(
            #[trigger] log.imgs.deep_view()[i],
        ),
        forall|i: int, j: int| 0 <= i < j < log.imgs.deep_view().len() ==> log.imgs.deep_view()[i]
            != log.imgs.deep_view()[j],
        forall|i: int| 0 <= i < log.js_css.deep_view().len() ==> final(state).visited@.contains(
            #[trigger] log.js_css.deep_view()[i],
        ),
        forall|i: int, j: int| 0 <= i < j < log.js_css.deep_view().len()
            ==> log.js_css.deep_view()[i] != log.js_css.deep_view()[j],
{
    let mut frontier: Vec<Vec<u8>> = Vec::new();
    let mut s: usize = 0;
    proof {
        assert(frontier.deep_view() =~= Seq::<Seq<u8>>::empty());
    }
    while s < seeds.len()
        invariant
            s <= seeds.len(),
            state.scope_base@ == old(state).scope_base@,
            state.ignore.deep_view() == old(state).ignore.deep_view(),
            state.failed_pages@ == old(state).failed_pages@,
            state.failed_imgs@ == old(state).failed_imgs@,
            state.failed_js_css@ == old(state).failed_js_css@,
            old(state).visited@.subset_of(state.visited@),
            forall|i: int| 0 <= i < s ==> state.visited@.contains(#[trigger] seeds.deep_view()[i])
                && frontier.deep_view().contains(seeds.deep_view()[i]),
            forall|i: int| 0 <= i < frontier.deep_view().len() ==> state.visited@.contains(
                #[trigger] frontier.deep_view()[i],
            ) && seeds.deep_view().contains(frontier.deep_view()[i]),
            forall|i: int, j: int| 0 <= i < j < frontier.deep_view().len()
                ==> frontier.deep_view()[i] != frontier.deep_view()[j],
        decreases seeds.len() - s,
    {
        proof {
            lemma_deep_view_index(*seeds, s as int);
        }
        let ghost pre_frontier = frontier.deep_view();
        state.visited.record(&seeds[s]);
        if !vec_contains(&frontier, &seeds[s]) {
            let c = copy_bytes(&seeds[s]);
            let ghost pre_f = frontier;
            let ghost c_v = c;
            frontier.push(c);
            proof {
                lemma_deep_view_push(pre_f, frontier, c_v);
                assert(frontier.deep_view().last() == seeds.deep_view()[s as int]);
                assert(forall|i: int|
                    0 <= i < pre_frontier.len() ==> frontier.deep_view()[i]
                        == #[trigger] pre_frontier[i]);
            }
        }
        proof {
            assert forall|i: int| 0 <= i <= s implies frontier.deep_view().contains(
                #[trigger] seeds.deep_view()[i],
            ) by {
                if i < s {
                    let j = choose|j: int|
                        0 <= j < pre_frontier.len() && pre_frontier[j] == seeds.deep_view()[i];
                    assert(frontier.deep_view()[j] == seeds.deep_view()[i]);
                } else {
                    if pre_frontier.contains(seeds.deep_view()[s as int]) {
                        let j = choose|j: int|
                            0 <= j < pre_frontier.len() && pre_frontier[j] == seeds.deep_view()[i];
                        assert(frontier.deep_view()[j] == seeds.deep_view()[i]);
                    } else {
                        assert(frontier.deep_view().last() == seeds.deep_view()[i]);
                    }
                }
            }
        }
        s += 1;
    }
    let mut log = FrontierLog {
        fetched: Vec::new(),
        writes: Vec::new(),
        imgs: Vec::new(),
        js_css: Vec::new(),
    };
    let mut head: usize = 0;
    let ghost mut remaining: Set<Seq<u8>> = transport.keys();
    proof {
        broadcast use vstd::seq_lib::seq_to_set_is_finite;

        assert(remaining.finite());
        assert(log.fetched.deep_view() =~= Seq::<Seq<u8>>::empty());
        assert(log.imgs.deep_view() =~= Seq::<Seq<u8>>::empty());
        assert(log.js_css.deep_view() =~= Seq::<Seq<u8>>::empty());
        assert(frontier.deep_view().take(0) =~= Seq::<Seq<u8>>::empty());
    }
    while head < frontier.len()
        invariant
            head <= frontier.len(),
            state.scope_base@ == old(state).scope_base@,
            state.ignore.deep_view() == old(state).ignore.deep_view(),
            state.failed_imgs@ == old(state).failed_imgs@,
            state.failed_js_css@ == old(state).failed_js_css@,
            old(state).visited@.subset_of(state.visited@),
            log.fetched.deep_view() == frontier.deep_view().take(head as int),
            forall|i: int| 0 <= i < frontier.deep_view().len() ==> state.visited@.contains(
                #[trigger] frontier.deep_view()[i],
            ),
            forall|i: int| 0 <= i < frontier.deep_view().len() ==> seeds.deep_view().contains(
                #[trigger] frontier.deep_view()[i],
            ) || (spec_in_scope(frontier.deep_view()[i], old(state).scope_base@) && !spec_ignored(
                frontier.deep_view()[i],
                old(state).ignore.deep_view(),
            )),
            forall|i: int, j: int| 0 <= i < j < frontier.deep_view().len()
                ==> frontier.deep_view()[i] != frontier.deep_view()[j],
            forall|i: int| 0 <= i < seeds.deep_view().len() ==> state.visited@.contains(
                #[trigger] seeds.deep_view()[i],
            ) && frontier.deep_view().contains(seeds.deep_view()[i]),
            forall|u: Seq<u8>| state.failed_pages@.contains(u) ==> old(
                state,
            ).failed_pages@.contains(u) || log.fetched.deep_view().contains(u),
            forall|i: int| 0 <= i < log.imgs.deep_view().len() ==> state.visited@.contains(
                #[trigger] log.imgs.deep_view()[i],
            ),
            forall|i: int, j: int| 0 <= i < j < log.imgs.deep_view().len()
                ==> log.imgs.deep_view()[i] != log.imgs.deep_view()[j],
            forall|i: int| 0 <= i < log.js_css.deep_view().len() ==> state.visited@.contains(
                #[trigger] log.js_css.deep_view()[i],
            ),
            forall|i: int, j: int| 0 <= i < j < log.js_css.deep_view().len()
                ==> log.js_css.deep_view()[i] != log.js_css.deep_view()[j],
            remaining.finite(),
            forall|u: Seq<u8>| remaining.contains(u) <==> (transport.keys().contains(u)
                && !log.fetched.deep_view().contains(u)),
        decreases remaining.len(), frontier.len() - head,
    {
        let ghost pre_remaining = remaining;
        let ghost pre_fetched = log.fetched.deep_view();
        let ghost pre_frontier = frontier.deep_view();
        let ghost pre_imgs = log.imgs.deep_view();
        let ghost pre_js = log.js_css.deep_view();
        let ghost pre_v = state.visited@;
        let ghost pre_failed = state.failed_pages@;
        proof {
            lemma_deep_view_index(frontier, head as int);
        }
        let u = copy_bytes(&frontier[head]);
        proof {
            assert(!pre_fetched.contains(u@)) by {
                if pre_fetched.contains(u@) {
                    let j = choose|j: int| 0 <= j < pre_fetched.len() && pre_fetched[j] == u@;
                    assert(pre_frontier.take(head as int)[j] == u@);
                    assert(pre_frontier[j] == u@);
                }
            }
        }
        let lookup_res = transport.lookup(&u);
        let acts: PageActions = match lookup_res {
            Some(oc) => {
                proof {
                    assert(remaining.contains(u@));
                    remaining = remaining.remove(u@);
                    vstd::set::axiom_set_remove_len(pre_remaining, u@);
                    assert(remaining.len() < pre_remaining.len());
                }
                process_page(state, &u, oc, out_dir)
            },
            None => {
                let oc = FetchOutcome::Failed;
                process_page(state, &u, &oc, out_dir)
            },
        };
        let PageActions { failed: _, write, imgs, js_css, pages } = acts;
        match write {
            Some(w) => log.writes.push(w),
            None => {},
        }
        let ghost u_v = u@;
        let ghost pre_log_fetched = log.fetched;
        let ghost u_snapshot = u;
        log.fetched.push(u);
        proof {
            lemma_deep_view_push(pre_log_fetched, log.fetched, u_snapshot);
        }
        append_all(&mut log.imgs, &imgs);
        append_all(&mut log.js_css, &js_css);
        append_all(&mut frontier, &pages);
        head += 1;
        proof {
            let new_frontier = frontier.deep_view();
            let new_fetched = log.fetched.deep_view();
            let new_imgs = log.imgs.deep_view();
            let new_js = log.js_css.deep_view();
            let ps = pages.deep_view();
            assert(new_frontier == pre_frontier + ps);
            assert(new_fetched == pre_fetched.push(u_v));
            assert(forall|i: int|
                0 <= i < pre_frontier.len() ==> #[trigger] new_frontier[i] == pre_frontier[i]);
            assert(forall|i: int|
                pre_frontier.len() <= i < new_frontier.len() ==> #[trigger] new_frontier[i] == ps[i
                    - pre_frontier.len()]);
            // the consumed prefix is exactly what was fetched
            assert(new_fetched =~= new_frontier.take(head as int)) by {
                assert(pre_fetched =~= pre_frontier.take(head - 1));
                assert(forall|j: int|
                    0 <= j < head - 1 ==> #[trigger] new_frontier.take(head as int)[j]
                        == pre_frontier[j]);
                assert(new_frontier.take(head as int)[head - 1] == u_v);
            }
            // frontier entries stay claimed
            assert forall|i: int| 0 <= i < new_frontier.len() implies state.visited@.contains(
                #[trigger] new_frontier[i],
            ) by {
                if i < pre_frontier.len() {
                    assert(pre_v.contains(pre_frontier[i]));
                } else {
                    assert(new_frontier[i] == ps[i - pre_frontier.len()]);
                }
            }
            // frontier entries are seeds or in-scope, not-ignored links
            assert forall|i: int|
                0 <= i < new_frontier.len() implies (seeds.deep_view().contains(
                #[trigger] new_frontier[i],
            ) || (spec_in_scope(new_frontier[i], old(state).scope_base@) && !spec_ignored(
                new_frontier[i],
                old(state).ignore.deep_view(),
            ))) by {
                if i >= pre_frontier.len() {
                    assert(new_frontier[i] == ps[i - pre_frontier.len()]);
                }
            }
            // the frontier never holds a URL twice
            assert forall|i: int, j: int| 0 <= i < j < new_frontier.len() implies new_frontier[i]
                != new_frontier[j] by {
                if j < pre_frontier.len() {
                } else if i < pre_frontier.len() {
                    assert(pre_v.contains(pre_frontier[i]));
                    assert(!pre_v.contains(ps[j - pre_frontier.len()]));
                } else {
                    assert(new_frontier[i] == ps[i - pre_frontier.len()]);
                    assert(new_frontier[j] == ps[j - pre_frontier.len()]);
                }
            }
            // seeds stay enqueued
            assert forall|i: int| 0 <= i < seeds.deep_view().len() implies new_frontier.contains(
                #[trigger] seeds.deep_view()[i],
            ) by {
                let j = choose|j: int|
                    0 <= j < pre_frontier.len() && pre_frontier[j] == seeds.deep_view()[i];
                assert(new_frontier[j] == seeds.deep_view()[i]);
            }
            // new ledger entries come from fetched pages
            assert forall|u2: Seq<u8>|
                state.failed_pages@.contains(u2) && !old(state).failed_pages@.contains(
                    u2,
                ) implies new_fetched.contains(u2) by {
                if pre_failed.contains(u2) {
                    assert(pre_fetched.contains(u2));
                    let j = choose|j: int| 0 <= j < pre_fetched.len() && pre_fetched[j] == u2;
                    assert(new_fetched[j] == u2);
                } else {
                    assert(u2 == u_v);
                    assert(new_fetched[new_fetched.len() - 1] == u_v);
                }
            }
            // asset queues: claimed, and never a URL twice
            assert forall|i: int| 0 <= i < new_imgs.len() implies state.visited@.contains(
                #[trigger] new_imgs[i],
            ) by {
                if i < pre_imgs.len() {
                    assert(new_imgs[i] == pre_imgs[i]);
                    assert(pre_v.contains(pre_imgs[i]));
                } else {
                    assert(new_imgs[i] == imgs.deep_view()[i - pre_imgs.len()]);
                }
            }
            assert forall|i: int, j: int| 0 <= i < j < new_imgs.len() implies new_imgs[i]
                != new_imgs[j] by {
                if j < pre_imgs.len() {
                    assert(new_imgs[i] == pre_imgs[i]);
                    assert(new_imgs[j] == pre_imgs[j]);
                } else if i < pre_imgs.len() {
                    assert(new_imgs[i] == pre_imgs[i]);
                    assert(new_imgs[j] == imgs.deep_view()[j - pre_imgs.len()]);
                    assert(pre_v.contains(pre_imgs[i]));
                    assert(!pre_v.contains(imgs.deep_view()[j - pre_imgs.len()]));
                } else {
                    assert(new_imgs[i] == imgs.deep_view()[i - pre_imgs.len()]);
                    assert(new_imgs[j] == imgs.deep_view()[j - pre_imgs.len()]);
                }
            }
            assert forall|i: int| 0 <= i < new_js.len() implies state.visited@.contains(
                #[trigger] new_js[i],
            ) by {
                if i < pre_js.len() {
                    assert(new_js[i] == pre_js[i]);
                    assert(pre_v.contains(pre_js[i]));
                } else {
                    assert(new_js[i] == js_css.deep_view()[i - pre_js.len()]);
                }
            }
            assert forall|i: int, j: int| 0 <= i < j < new_js.len() implies new_js[i]
                != new_js[j] by {
                if j < pre_js.len() {
                    assert(new_js[i] == pre_js[i]);
                    assert(new_js[j] == pre_js[j]);
                } else if i < pre_js.len() {
                    assert(new_js[i] == pre_js[i]);
                    assert(new_js[j] == js_css.deep_view()[j - pre_js.len()]);
                    assert(pre_v.contains(pre_js[i]));
                    assert(!pre_v.contains(js_css.deep_view()[j - pre_js.len()]));
                } else {
                    assert(new_js[i] == js_css.deep_view()[i - pre_js.len()]);
                    assert(new_js[j] == js_css.deep_view()[j - pre_js.len()]);
                }
            }
            // what remains unfetched
            assert forall|u2: Seq<u8>| #![auto]
                remaining.contains(u2) <==> (transport.keys().contains(u2)
                    && !new_fetched.contains(u2)) by {
                assert(new_fetched.contains(u2) <==> (pre_fetched.contains(u2) || u2 == u_v)) by {
                    if new_fetched.contains(u2) {
                        let j = choose|j: int| 0 <= j < new_fetched.len() && new_fetched[j] == u2;
                        if j < pre_fetched.len() {
                            assert(pre_fetched[j] == u2);
                        }
                    }
                    if pre_fetched.contains(u2) {
                        let j = choose|j: int| 0 <= j < pre_fetched.len() && pre_fetched[j] == u2;
                        assert(new_fetched[j] == u2);
                    }
                    if u2 == u_v {
                        assert(new_fetched[new_fetched.len() - 1] == u_v);
                    }
                }
            }
        }
    }
    proof {
        assert(frontier.deep_view().take(frontier.deep_view().len() as int)
            =~= frontier.deep_view());
        assert forall|i: int| 0 <= i < seeds.deep_view().len() implies log.fetched.deep_view(
        ).contains(#[trigger] seeds.deep_view()[i]) by {
            assert(frontier.deep_view().contains(seeds.deep_view()[i]));
        }
    }
    log
}

/// The queue items whose fetch succeeds, in queue order.
pub open spec fn asset_successes(q: Seq<Seq<u8>>, t: Transport) -> Seq<Seq<u8>>
    decreases q.len(),
{
    if q.len() == 0 {
        Seq::empty()
    } else {
        let rest = asset_successes(q.drop_last(), t);
        if t.spec_lookup(q.last()) is Success {
            rest.push(q.last())
        } else {
            rest
        }
    }
}

/// The queue items whose fetch fails, as a set.
pub open spec fn asset_failures(q: Seq<Seq<u8>>, t: Transport) -> Set<Seq<u8>>
    decreases q.len(),
{
    if q.len() == 0 {
        Set::empty()
    } else {
        let rest = asset_failures(q.drop_last(), t);
        if t.spec_lookup(q.last()) is Success {
            rest
        } else {
            rest.insert(q.last())
        }
    }
}

/// What one asset queue's drain produced.
pub struct AssetLog {
    /// The mirror write of each successfully fetched asset, in order.
    pub writes: Vec<(WritePlan, Vec<u8>)>,
    /// The successfully fetched asset URLs, in order.
    pub done: Vec<Vec<u8>>,
}

/// The asset phase for one queue: drains it to exhaustion, fetching
/// each item once and writing it under the output directory as raw
/// content, never as a directory-style HTML page; every failure goes
/// to the category's failure ledger. There is no in-run retry.
pub fn run_assets(
    failed: &mut crate::registry::Registry,
    queue: &Vec<Vec<u8>>,
    transport: &Transport,
    out_dir: &Vec<u8>,
) -> (log: AssetLog)
    ensures
        final(failed)@ == old(failed)@.union(asset_failures(queue.deep_view(), *transport)),
        log.done.deep_view() == asset_successes(queue.deep_view(), *transport),
        log.writes@.len() == log.done.deep_view().len(),
        forall|i: int| 0 <= i < log.writes@.len() ==> {
            let u = log.done.deep_view()[i];
            (#[trigger] log.writes@[i]).0.file_path@ == crate::mirror::mirror_file_spec(
                out_dir@,
                crate::urls::url_path(u),
                false,
            ) && log.writes@[i].0.dir_path@ == crate::mirror::mirror_dir_spec(
                out_dir@,
                crate::urls::url_path(u),
                false,
            ) && log.writes@[i].1@ == transport.spec_lookup(u).spec_body()
        },
{
    let mut log = AssetLog { writes: Vec::new(), done: Vec::new() };
    let mut i: usize = 0;
    let ghost q = queue.deep_view();
    proof {
        assert(log.done.deep_view() =~= Seq::<Seq<u8>>::empty());
        assert(q.take(0) =~= Seq::<Seq<u8>>::empty());
        assert(old(failed)@.union(asset_failures(q.take(0), *transport)) =~= old(failed)@);
    }
    while i < queue.len()
        invariant
            i <= queue.len(),
            q == queue.deep_view(),
            failed@ == old(failed)@.union(asset_failures(q.take(i as int), *transport)),
            log.done.deep_view() == asset_successes(q.take(i as int), *transport),
            log.writes@.len() == log.done.deep_view().len(),
            forall|k: int| 0 <= k < log.writes@.len() ==> {
                let u = log.done.deep_view()[k];
                (#[trigger] log.writes@[k]).0.file_path@ == crate::mirror::mirror_file_spec(
                    out_dir@,
                    crate::urls::url_path(u),
                    false,
                ) && log.writes@[k].0.dir_path@ == crate::mirror::mirror_dir_spec(
                    out_dir@,
                    crate::urls::url_path(u),
                    false,
                ) && log.writes@[k].1@ == transport.spec_lookup(u).spec_body()
            },
        decreases queue.len() - i,
    {
        proof {
            lemma_deep_view_index(*queue, i as int);
            assert(q.take(i + 1).drop_last() =~= q.take(i as int));
            assert(q.take(i + 1).last() == q[i as int]);
        }
        let u = copy_bytes(&queue[i]);
        let mut success = false;
        match transport.lookup(&u) {
            Some(oc) => {
                match oc {
                    FetchOutcome::Success { is_html: _, body } => {
                        let path = crate::urls::path_of_url(&u);
                        let plan = crate::mirror::mirror_target(out_dir, &path, false);
                        let content = copy_bytes(body);
                        let ghost pre_done = log.done;
                        let ghost u_snap = u;
                        log.writes.push((plan, content));
                        log.done.push(u);
                        success = true;
                        proof {
                            lemma_deep_view_push(pre_done, log.done, u_snap);
                        }
                    },
                    FetchOutcome::BadStatus(_) | FetchOutcome::Failed => {
                        failed.record(&u);
                    },
                }
            },
            None => {
                proof {
                    let m = transport.pages@.map_values(|p: (Vec<u8>, FetchOutcome)| p.0@);
                    assert(forall|j: int|
                        0 <= j < transport.pages@.len() ==> #[trigger] transport.pages@[j].0@
                            != u@) by {
                        if exists|j: int|
                            0 <= j < transport.pages@.len() && #[trigger] transport.pages@[j].0@
                                == u@ {
                            let j = choose|j: int|
                                0 <= j < transport.pages@.len() && #[trigger] transport.pages@[j].0@
                                    == u@;
                            assert(m[j] == u@);
                            assert(m.contains(u@));
                        }
                    }
                    lemma_lookup_absent(transport.pages@, u@);
                }
                failed.record(&u);
            },
        }
        proof {
            if success {
                assert(transport.spec_lookup(q[i as int]) is Success);
                assert(asset_failures(q.take(i + 1), *transport) == asset_failures(
                    q.take(i as int),
                    *transport,
                ));
            } else {
                assert(!(transport.spec_lookup(q[i as int]) is Success));
                assert(failed@ =~= old(failed)@.union(
                    asset_failures(q.take(i + 1), *transport),
                ));
            }
        }
        i += 1;
    }
    proof {
        assert(q.take(q.len() as int) =~= q);
    }
    log
}

/// Everything one whole crawl produced: the frontier phase's log and
/// the mirror writes of the two asset phases.
pub struct CrawlLog {
    /// Every page URL dispatched, in order.
    pub fetched: Vec<Vec<u8>>,
    /// The mirror write of each successfully fetched page.
    pub page_writes: Vec<(WritePlan, Vec<u8>)>,
    /// The image queue the frontier phase filled.
    pub imgs: Vec<Vec<u8>>,
    /// The script and stylesheet queue the frontier phase filled.
    pub js_css: Vec<Vec<u8>>,
    /// The mirror writes of the script and stylesheet phase.
    pub js_css_writes: Vec<(WritePlan, Vec<u8>)>,
    /// The mirror writes of the image phase.
    pub img_writes: Vec<(WritePlan, Vec<u8>)>,
}

/// One whole crawl: the frontier phase drains the page queue it
/// grows, and only then the two asset queues are drained, scripts and
/// stylesheets first, images second, failures going each to its own
/// ledger partition.
pub fn run_crawl(
    state: &mut CrawlState,
    seeds: &Vec<Vec<u8>>,
    transport: &Transport,
    out_dir: &Vec<u8>,
) -> (log: CrawlLog)
    ensures
        final(state).scope_base@ == old(state).scope_base@,
        final(state).ignore.deep_view() == old(state).ignore.deep_view(),
        old(state).visited@.subset_of(final(state).visited@),
        forall|i: int| 0 <= i < seeds.deep_view().len() ==> final(state).visited@.contains(
            #[trigger] seeds.deep_view()[i],
        ) && log.fetched.deep_view().contains(seeds.deep_view()[i]),
        forall|i: int| 0 <= i < log.fetched.deep_view().len() ==> final(state).visited@.contains(
            #[trigger] log.fetched.deep_view()[i],
        ),
        forall|i: int| 0 <= i < log.fetched.deep_view().len() ==> seeds.deep_view().contains(
            #[trigger] log.fetched.deep_view()[i],
        ) || (spec_in_scope(log.fetched.deep_view()[i], old(state).scope_base@) && !spec_ignored(
            log.fetched.deep_view()[i],
            old(state).ignore.deep_view(),
        )),
        forall|i: int, j: int| 0 <= i < j < log.fetched.deep_view().len()
            ==> log.fetched.deep_view()[i] != log.fetched.deep_view()[j],
        forall|u: Seq<u8>| final(state).failed_pages@.contains(u) ==> old(
            state,
        ).failed_pages@.contains(u) || log.fetched.deep_view().contains(u),
        final(state).failed_js_css@ == old(state).failed_js_css@.union(
            asset_failures(log.js_css.deep_view(), *transport),
        ),
        final(state).failed_imgs@ == old(state).failed_imgs@.union(
            asset_failures(log.imgs.deep_view(), *transport),
        ),
        forall|i: int| 0 <= i < log.imgs.deep_view().len() ==> final(state).visited@.contains(
            #[trigger] log.imgs.deep_view()[i],
        ),
        forall|i: int| 0 <= i < log.js_css.deep_view().len() ==> final(state).visited@.contains(
            #[trigger] log.js_css.deep_view()[i],
        ),
{
    let flog = run_frontier(state, seeds, transport, out_dir);
    let FrontierLog { fetched, writes, imgs, js_css } = flog;
    let jlog = run_assets(&mut state.failed_js_css, &js_css, transport, out_dir);
    let ilog = run_assets(&mut state.failed_imgs, &imgs, transport, out_dir);
    let AssetLog { writes: js_css_writes, done: _ } = jlog;
    let AssetLog { writes: img_writes, done: _ } = ilog;
    CrawlLog { fetched, page_writes: writes, imgs, js_css, js_css_writes, img_writes }
}

/// The active-producer count behind the termination detector: one
/// unit for the seed, one more per successful frontier enqueue, one
/// released per task exit. When it reaches zero with an empty queue,
/// no current or future task can enqueue again, and the consumer
/// closes the frontier queue.
pub struct ProducerCount {
    /// Tasks that may still produce frontier items.
    pub active: u64,
}

impl ProducerCount {
    /// The count at the start of a run: the seed's unit.
    pub fn start() -> (r: ProducerCount)
        ensures
            r.active == 1,
    {
        ProducerCount { active: 1 }
    }

    /// One successful frontier enqueue hands a unit to the task it
    /// will spawn.
    pub fn on_enqueued(&mut self)
        requires
            old(self).active < u64::MAX,
        ensures
            final(self).active == old(self).active + 1,
    {
        self.active = self.active + 1;
    }

    /// One task exit releases its unit.
    pub fn on_task_done(&mut self)
        requires
            old(self).active > 0,
        ensures
            final(self).active == old(self).active - 1,
    {
        self.active = self.active - 1;
    }

    /// The frontier queue can be closed exactly when no unit remains
    /// and the queue is empty: nothing can enqueue again.
    pub fn should_close(&self, queue_empty: bool) -> (r: bool)
        ensures
            r == (self.active == 0 && queue_empty),
    {
        self.active == 0 && queue_empty
    }
}

} // verus!
