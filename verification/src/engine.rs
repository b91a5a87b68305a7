//! The crawl engine: the per-page task pipeline (fetch outcome,
//! mirror write, link classification, scope filter, dedup claims,
//! re-enqueue), the frontier phase with its termination argument, the
//! asset phase, and the active-producer count that closes the
//! frontier queue.

use vstd::prelude::*;

use crate::fetch::FetchOutcome;
use crate::links::{extract_page_links, page_imgs, page_js_css, page_anchors};
use crate::mirror::{WritePlan, mirror_target, mirror_file_spec, mirror_dir_spec};
use crate::registry::Registry;
use crate::scope::{spec_in_scope, spec_ignored, in_scope, is_ignored};
use crate::text::{bytes_eq, copy_bytes, vec_contains, append_all, lemma_deep_view_index,
    lemma_deep_view_push};
use crate::urls::{url_path, path_of_url};

verus! {

/// The shared state of one crawl run: the dedup registry, the three
/// failure-ledger partitions, and the scope configuration.
pub struct CrawlState {
    /// Every URL ever claimed: enqueued or deliberately skipped.
    pub visited: Registry,
    /// Pages whose fetch failed.
    pub failed_pages: Registry,
    /// Scripts and stylesheets whose fetch failed.
    pub failed_js_css: Registry,
    /// Images whose fetch failed.
    pub failed_imgs: Registry,
    /// The URL prefix bounding the recursive crawl.
    pub scope_base: Vec<u8>,
    /// Prefixes whose pages are claimed but never enqueued.
    pub ignore: Vec<Vec<u8>>,
}

/// Claims each item in order against the growing set, keeping for the
/// queue exactly the items whose claim succeeds.
pub open spec fn claim_new(v: Set<Seq<u8>>, items: Seq<Seq<u8>>) -> (Set<Seq<u8>>, Seq<Seq<u8>>)
    decreases items.len(),
{
    if items.len() == 0 {
        (v, Seq::empty())
    } else {
        let prev = claim_new(v, items.drop_last());
        let u = items.last();
        if prev.0.contains(u) {
            prev
        } else {
            (prev.0.insert(u), prev.1.push(u))
        }
    }
}

/// Applies the scope filter and then the dedup claim to each anchor
/// in order: out-of-scope anchors are dropped, in-scope unclaimed
/// anchors are claimed, and of those only the ones matching no ignore
/// prefix are enqueued.
pub open spec fn filter_pages(
    v: Set<Seq<u8>>,
    anchors: Seq<Seq<u8>>,
    base: Seq<u8>,
    ignore: Seq<Seq<u8>>,
) -> (Set<Seq<u8>>, Seq<Seq<u8>>)
    decreases anchors.len(),
{
    if anchors.len() == 0 {
        (v, Seq::empty())
    } else {
        let prev = filter_pages(v, anchors.drop_last(), base, ignore);
        let u = anchors.last();
        if spec_in_scope(u, base) && !prev.0.contains(u) {
            if spec_ignored(u, ignore) {
                (prev.0.insert(u), prev.1)
            } else {
                (prev.0.insert(u), prev.1.push(u))
            }
        } else {
            prev
        }
    }
}

/// A claim pass only grows the set; what it enqueues was unclaimed
/// before the pass, is claimed after it, and is enqueued once.
pub proof fn lemma_claim_new(v: Set<Seq<u8>>, items: Seq<Seq<u8>>)
    ensures
        v.subset_of(claim_new(v, items).0),
        forall|i: int| 0 <= i < claim_new(v, items).1.len() ==> !v.contains(
            #[trigger] claim_new(v, items).1[i],
        ) && claim_new(v, items).0.contains(claim_new(v, items).1[i]),
        forall|i: int, j: int| 0 <= i < j < claim_new(v, items).1.len() ==> claim_new(v, items).1[i]
            != claim_new(v, items).1[j],
    decreases items.len(),
{
    if items.len() > 0 {
        lemma_claim_new(v, items.drop_last());
    }
}

/// A filter pass only grows the set; what it enqueues was unclaimed
/// before the pass, is claimed after it, starts with the scope base,
/// matches no ignore prefix, and is enqueued once.
pub proof fn lemma_filter_pages(
    v: Set<Seq<u8>>,
    anchors: Seq<Seq<u8>>,
    base: Seq<u8>,
    ignore: Seq<Seq<u8>>,
)
    ensures
        v.subset_of(filter_pages(v, anchors, base, ignore).0),
        forall|i: int| 0 <= i < filter_pages(v, anchors, base, ignore).1.len() ==> {
            let p = #[trigger] filter_pages(v, anchors, base, ignore).1[i];
            !v.contains(p) && filter_pages(v, anchors, base, ignore).0.contains(p) && spec_in_scope(
                p,
                base,
            ) && !spec_ignored(p, ignore)
        },
        forall|i: int, j: int| 0 <= i < j < filter_pages(v, anchors, base, ignore).1.len()
            ==> filter_pages(v, anchors, base, ignore).1[i] != filter_pages(
            v,
            anchors,
            base,
            ignore,
        ).1[j],
    decreases anchors.len(),
{
    if anchors.len() > 0 {
        lemma_filter_pages(v, anchors.drop_last(), base, ignore);
    }
}

/// The whole dedup pipeline a successful page fetch drives: image
/// claims, then script and stylesheet claims, then the filtered
/// anchor claims; the result is the final set and the three queues.
pub open spec fn page_claims(
    v: Set<Seq<u8>>,
    body: Seq<u8>,
    page: Seq<u8>,
    base: Seq<u8>,
    ignore: Seq<Seq<u8>>,
) -> (Set<Seq<u8>>, Seq<Seq<u8>>, Seq<Seq<u8>>, Seq<Seq<u8>>) {
    let ci = claim_new(v, page_imgs(body, page));
    let cj = claim_new(ci.0, page_js_css(body, page));
    let cp = filter_pages(cj.0, page_anchors(body, page), base, ignore);
    (cp.0, ci.1, cj.1, cp.1)
}

/// What one page task asks of its surroundings: record a failure,
/// write the page's mirror copy, and enqueue the newly claimed links.
pub struct PageActions {
    /// The fetch failed and was recorded in the page ledger.
    pub failed: bool,
    /// The mirror write for the page itself, with its content.
    pub write: Option<(WritePlan, Vec<u8>)>,
    /// Newly claimed image links, for the image queue.
    pub imgs: Vec<Vec<u8>>,
    /// Newly claimed script and stylesheet links, for their queue.
    pub js_css: Vec<Vec<u8>>,
    /// Newly claimed in-scope anchor links, for the frontier queue.
    pub pages: Vec<Vec<u8>>,
}

/// One page task, after its fetch came back: a failure is recorded in
/// the page ledger and nothing is enqueued; a success is written to
/// the mirror and its links are resolved, filtered and claimed, the
/// newly claimed ones handed back for enqueueing.
pub fn process_page(
    state: &mut CrawlState,
    url: &Vec<u8>,
    outcome: &FetchOutcome,
    out_dir: &Vec<u8>,
) -> (acts: PageActions)
    ensures
        final(state).scope_base@ == old(state).scope_base@,
        final(state).ignore.deep_view() == old(state).ignore.deep_view(),
        final(state).failed_imgs@ == old(state).failed_imgs@,
        final(state).failed_js_css@ == old(state).failed_js_css@,
        old(state).visited@.subset_of(final(state).visited@),
        !(outcome is Success) ==> {
            &&& final(state).failed_pages@ == old(state).failed_pages@.insert(url@)
            &&& final(state).visited@ == old(state).visited@
            &&& acts.failed
            &&& acts.write is None
            &&& acts.imgs@.len() == 0
            &&& acts.js_css@.len() == 0
            &&& acts.pages@.len() == 0
        },
        outcome is Success ==> {
            let claims = page_claims(
                old(state).visited@,
                outcome.spec_body(),
                url@,
                old(state).scope_base@,
                old(state).ignore.deep_view(),
            );
            &&& final(state).failed_pages@ == old(state).failed_pages@
            &&& !acts.failed
            &&& (acts.write matches Some(w) && w.0.file_path@ == mirror_file_spec(
                out_dir@,
                url_path(url@),
                outcome.spec_is_html(),
            ) && w.0.dir_path@ == mirror_dir_spec(out_dir@, url_path(url@), outcome.spec_is_html())
                && w.1@ == outcome.spec_body())
            &&& final(state).visited@ == claims.0
            &&& acts.imgs.deep_view() == claims.1
            &&& acts.js_css.deep_view() == claims.2
            &&& acts.pages.deep_view() == claims.3
        },
        forall|i: int| 0 <= i < acts.pages.deep_view().len() ==> {
            let p = #[trigger] acts.pages.deep_view()[i];
            !old(state).visited@.contains(p) && final(state).visited@.contains(p) && spec_in_scope(
                p,
                old(state).scope_base@,
            ) && !spec_ignored(p, old(state).ignore.deep_view())
        },
        forall|i: int, j: int| 0 <= i < j < acts.pages.deep_view().len()
            ==> acts.pages.deep_view()[i] != acts.pages.deep_view()[j],
        forall|i: int| 0 <= i < acts.imgs.deep_view().len() ==> final(state).visited@.contains(
            #[trigger] acts.imgs.deep_view()[i],
        ) && !old(state).visited@.contains(acts.imgs.deep_view()[i]),
        forall|i: int, j: int| 0 <= i < j < acts.imgs.deep_view().len()
            ==> acts.imgs.deep_view()[i] != acts.imgs.deep_view()[j],
        forall|i: int| 0 <= i < acts.js_css.deep_view().len() ==> final(state).visited@.contains(
            #[trigger] acts.js_css.deep_view()[i],
        ) && !old(state).visited@.contains(acts.js_css.deep_view()[i]),
        forall|i: int, j: int| 0 <= i < j < acts.js_css.deep_view().len()
            ==> acts.js_css.deep_view()[i] != acts.js_css.deep_view()[j],
{
    match outcome {
        FetchOutcome::BadStatus(_) | FetchOutcome::Failed => {
            state.failed_pages.record(url);
            let acts = PageActions {
                failed: true,
                write: None,
                imgs: Vec::new(),
                js_css: Vec::new(),
                pages: Vec::new(),
            };
            proof {
                assert(acts.imgs.deep_view() =~= Seq::<Seq<u8>>::empty());
                assert(acts.js_css.deep_view() =~= Seq::<Seq<u8>>::empty());
                assert(acts.pages.deep_view() =~= Seq::<Seq<u8>>::empty());
                assert(acts.imgs.deep_view().len() == 0);
                assert(acts.js_css.deep_view().len() == 0);
                assert(acts.pages.deep_view().len() == 0);
            }
            acts
        },
        FetchOutcome::Success { is_html, body } => {
            let path = path_of_url(url);
            let plan = mirror_target(out_dir, &path, *is_html);
            let content = copy_bytes(body);
            let links = extract_page_links(body, url);
            let ghost v0 = state.visited@;
            let ghost imgs_spec = links.imgs.deep_view();
            let mut imgs_out: Vec<Vec<u8>> = Vec::new();
            let mut i: usize = 0;
            proof {
                assert(imgs_out.deep_view() =~= Seq::<Seq<u8>>::empty());
                assert(imgs_spec.take(0) =~= Seq::<Seq<u8>>::empty());
            }
            while i < links.imgs.len()
                invariant
                    i <= links.imgs.len(),
                    links.imgs.deep_view() == imgs_spec,
                    (state.visited@, imgs_out.deep_view()) == claim_new(v0, imgs_spec.take(i as int)),
                    state.scope_base@ == old(state).scope_base@,
                    state.ignore.deep_view() == old(state).ignore.deep_view(),
                    state.failed_pages@ == old(state).failed_pages@,
                    state.failed_imgs@ == old(state).failed_imgs@,
                    state.failed_js_css@ == old(state).failed_js_css@,
                decreases links.imgs.len() - i,
            {
                proof {
                    lemma_deep_view_index(links.imgs, i as int);
                    assert(imgs_spec.take(i + 1).drop_last() =~= imgs_spec.take(i as int));
                    assert(imgs_spec.take(i + 1).last() == imgs_spec[i as int]);
                }
                let ghost pre_v = state.visited@;
                let claimed = state.visited.try_claim(&links.imgs[i]);
                if claimed {
                    let c = copy_bytes(&links.imgs[i]);
                    let ghost pre_out = imgs_out;
                    let ghost c_v = c;
                    imgs_out.push(c);
                    proof {
                        lemma_deep_view_push(pre_out, imgs_out, c_v);
                    }
                } else {
                    proof {
                        assert(pre_v.insert(imgs_spec[i as int]) =~= pre_v);
                    }
                }
                i += 1;
            }
            proof {
                assert(imgs_spec.take(imgs_spec.len() as int) =~= imgs_spec);
            }
            let ghost v1 = state.visited@;
            let ghost js_spec = links.js_css.deep_view();
            let mut js_out: Vec<Vec<u8>> = Vec::new();
            let mut j: usize = 0;
            proof {
                assert(js_out.deep_view() =~= Seq::<Seq<u8>>::empty());
                assert(js_spec.take(0) =~= Seq::<Seq<u8>>::empty());
            }
            while j < links.js_css.len()
                invariant
                    j <= links.js_css.len(),
                    links.js_css.deep_view() == js_spec,
                    (state.visited@, js_out.deep_view()) == claim_new(v1, js_spec.take(j as int)),
                    state.scope_base@ == old(state).scope_base@,
                    state.ignore.deep_view() == old(state).ignore.deep_view(),
                    state.failed_pages@ == old(state).failed_pages@,
                    state.failed_imgs@ == old(state).failed_imgs@,
                    state.failed_js_css@ == old(state).failed_js_css@,
                decreases links.js_css.len() - j,
            {
                proof {
                    lemma_deep_view_index(links.js_css, j as int);
                    assert(js_spec.take(j + 1).drop_last() =~= js_spec.take(j as int));
                    assert(js_spec.take(j + 1).last() == js_spec[j as int]);
                }
                let ghost pre_v = state.visited@;
                let claimed = state.visited.try_claim(&links.js_css[j]);
                if claimed {
                    let c = copy_bytes(&links.js_css[j]);
                    let ghost pre_out = js_out;
                    let ghost c_v = c;
                    js_out.push(c);
                    proof {
                        lemma_deep_view_push(pre_out, js_out, c_v);
                    }
                } else {
                    proof {
                        assert(pre_v.insert(js_spec[j as int]) =~= pre_v);
                    }
                }
                j += 1;
            }
            proof {
                assert(js_spec.take(js_spec.len() as int) =~= js_spec);
            }
            let ghost v2 = state.visited@;
            let ghost a_spec = links.anchors.deep_view();
            let ghost base_spec = state.scope_base@;
            let ghost ignore_spec = state.ignore.deep_view();
            let mut pages_out: Vec<Vec<u8>> = Vec::new();
            let mut k: usize = 0;
            proof {
                assert(pages_out.deep_view() =~= Seq::<Seq<u8>>::empty());
                assert(a_spec.take(0) =~= Seq::<Seq<u8>>::empty());
            }
            while k < links.anchors.len()
                invariant
                    k <= links.anchors.len(),
                    links.anchors.deep_view() == a_spec,
                    (state.visited@, pages_out.deep_view()) == filter_pages(
                        v2,
                        a_spec.take(k as int),
                        base_spec,
                        ignore_spec,
                    ),
                    state.scope_base@ == old(state).scope_base@,
                    state.scope_base@ == base_spec,
                    state.ignore.deep_view() == old(state).ignore.deep_view(),
                    state.ignore.deep_view() == ignore_spec,
                    state.failed_pages@ == old(state).failed_pages@,
                    state.failed_imgs@ == old(state).failed_imgs@,
                    state.failed_js_css@ == old(state).failed_js_css@,
                decreases links.anchors.len() - k,
            {
                proof {
                    lemma_deep_view_index(links.anchors, k as int);
                    assert(a_spec.take(k + 1).drop_last() =~= a_spec.take(k as int));
                    assert(a_spec.take(k + 1).last() == a_spec[k as int]);
                }
                if in_scope(&links.anchors[k], &state.scope_base) {
                    let ghost pre_v = state.visited@;
                    let claimed = state.visited.try_claim(&links.anchors[k]);
                    if claimed {
                        if !is_ignored(&links.anchors[k], &state.ignore) {
                            let c = copy_bytes(&links.anchors[k]);
                            let ghost pre_out = pages_out;
                            let ghost c_v = c;
                            pages_out.push(c);
                            proof {
                                lemma_deep_view_push(pre_out, pages_out, c_v);
                            }
                        }
                    } else {
                        proof {
                            assert(pre_v.insert(a_spec[k as int]) =~= pre_v);
                        }
                    }
                }
                k += 1;
            }
            proof {
                assert(a_spec.take(a_spec.len() as int) =~= a_spec);
                assert(outcome.spec_body() == body@);
                assert(outcome.spec_is_html() == *is_html);
                lemma_claim_new(v0, page_imgs(body@, url@));
                lemma_claim_new(v1, page_js_css(body@, url@));
                lemma_filter_pages(v2, page_anchors(body@, url@), base_spec, ignore_spec);
                assert(v0.subset_of(v1));
                assert(v1.subset_of(v2));
                assert(v2.subset_of(state.visited@));
                assert(imgs_out.deep_view() == claim_new(v0, page_imgs(body@, url@)).1);
                assert(js_out.deep_view() == claim_new(v1, page_js_css(body@, url@)).1);
                assert(pages_out.deep_view() == filter_pages(
                    v2,
                    page_anchors(body@, url@),
                    base_spec,
                    ignore_spec,
                ).1);
                assert forall|i: int| 0 <= i < imgs_out.deep_view().len() implies
                    state.visited@.contains(#[trigger] imgs_out.deep_view()[i]) && !v0.contains(
                    imgs_out.deep_view()[i],
                ) by {
                    assert(imgs_out.deep_view()[i] == claim_new(v0, page_imgs(body@, url@)).1[i]);
                }
                assert forall|i: int| 0 <= i < js_out.deep_view().len() implies
                    state.visited@.contains(#[trigger] js_out.deep_view()[i]) && !v0.contains(
                    js_out.deep_view()[i],
                ) by {
                    assert(js_out.deep_view()[i] == claim_new(v1, page_js_css(body@, url@)).1[i]);
                }
                assert forall|i: int| 0 <= i < pages_out.deep_view().len() implies
                    state.visited@.contains(#[trigger] pages_out.deep_view()[i]) && !v0.contains(
                    pages_out.deep_view()[i],
                ) && spec_in_scope(pages_out.deep_view()[i], base_spec) && !spec_ignored(
                    pages_out.deep_view()[i],
                    ignore_spec,
                ) by {
                    assert(pages_out.deep_view()[i] == filter_pages(
                        v2,
                        page_anchors(body@, url@),
                        base_spec,
                        ignore_spec,
                    ).1[i]);
                }
            }
            PageActions {
                failed: false,
                write: Some((plan, content)),
                imgs: imgs_out,
                js_css: js_out,
                pages: pages_out,
            }
        },
    }
}

} // verus!
