use std::collections::HashSet;

use sitemirror::driver::{run_assets, run_crawl, run_frontier, ProducerCount, Transport};
use sitemirror::engine::{process_page, CrawlState};
use sitemirror::fetch::FetchOutcome;
use sitemirror::links::extract_page_links;
use sitemirror::registry::Registry;
use sitemirror::urls::{join_url, normalize_anchor, normalize_url, path_of_url};

fn b(s: &str) -> Vec<u8> {
    s.as_bytes().to_vec()
}

fn ok_html(body: &str) -> FetchOutcome {
    FetchOutcome::Success { is_html: true, body: b(body) }
}

fn ok_blob(body: &str) -> FetchOutcome {
    FetchOutcome::Success { is_html: false, body: b(body) }
}

fn state(base: &str, ignore: &[&str]) -> CrawlState {
    CrawlState {
        visited: Registry::new(),
        failed_pages: Registry::new(),
        failed_js_css: Registry::new(),
        failed_imgs: Registry::new(),
        scope_base: b(base),
        ignore: ignore.iter().map(|s| b(s)).collect(),
    }
}

fn visited_set(r: &Registry) -> HashSet<Vec<u8>> {
    r.items().into_iter().collect()
}

#[test]
fn url_wrappers_normalize() {
    assert_eq!(normalize_url(&b("http://x/docs")), Some(b("http://x/docs")));
    assert_eq!(normalize_url(&b("HTTP://X/docs/../a")), Some(b("http://x/a")));
    assert_eq!(normalize_url(&b("not a url")), None);
    assert_eq!(path_of_url(&b("http://x/docs/a?q=1")), b("/docs/a"));
    assert_eq!(join_url(&b("http://x/docs/"), &b("img/i.png")), Some(b("http://x/docs/img/i.png")));
    assert_eq!(
        normalize_anchor(&b("http://x/docs/a?q=1#frag")),
        Some(b("http://x/docs/a"))
    );
}

#[test]
fn dedup_claim_exactly_once() {
    let mut reg = Registry::new();
    let u = b("http://x/docs/a");
    assert!(reg.try_claim(&u));
    assert!(!reg.try_claim(&u));
    assert!(!reg.try_claim(&u));
    assert!(reg.contains(&u));
    let items = reg.items();
    assert_eq!(items.len(), 1);
    assert_eq!(items[0], u);
}

#[test]
fn page_links_extracted_and_resolved() {
    let body = "<html><body>\
        <img src=\"/img/1.png\"><img src=\"rel.gif\"><img alt=\"no src\">\
        <script src=\"/js/app.js\"></script>\
        <link rel=\"stylesheet\" href=\"style.css\">\
        <a href=\"/docs/a?q=1#f\">a</a><a href=\"http://other.example/\">ext</a>\
        </body></html>";
    let links = extract_page_links(&b(body), &b("http://x/docs/"));
    assert_eq!(links.imgs, vec![b("http://x/img/1.png"), b("http://x/docs/rel.gif")]);
    assert_eq!(links.js_css, vec![b("http://x/js/app.js"), b("http://x/docs/style.css")]);
    assert_eq!(links.anchors, vec![b("http://x/docs/a"), b("http://other.example/")]);
}

#[test]
fn process_page_failure_goes_to_ledger() {
    let mut st = state("http://x/docs/", &[]);
    let acts = process_page(&mut st, &b("http://x/docs/"), &FetchOutcome::BadStatus(500), &b("out"));
    assert!(acts.failed);
    assert!(acts.write.is_none());
    assert!(st.failed_pages.contains(&b("http://x/docs/")));
    assert!(!st.visited.contains(&b("http://x/docs/")));
}

#[test]
fn end_to_end_scoped_crawl() {
    let seed = b("http://x/docs/");
    let mut transport = Transport::new();
    transport.add(
        seed.clone(),
        ok_html(
            "<a href=\"/docs/a\">in</a><a href=\"/other\">out</a><img src=\"/img/1.png\">",
        ),
    );
    transport.add(b("http://x/docs/a"), ok_html("no links here"));
    transport.add(b("http://x/img/1.png"), ok_blob("png-bytes"));

    let mut st = state("http://x/docs/", &[]);
    let log = run_crawl(&mut st, &vec![seed.clone()], &transport, &b("out"));

    assert_eq!(log.fetched, vec![seed.clone(), b("http://x/docs/a")]);
    assert_eq!(log.imgs, vec![b("http://x/img/1.png")]);
    assert_eq!(log.js_css, Vec::<Vec<u8>>::new());

    let visited = visited_set(&st.visited);
    let expect: HashSet<Vec<u8>> =
        [seed.clone(), b("http://x/docs/a"), b("http://x/img/1.png")].into_iter().collect();
    assert_eq!(visited, expect);

    assert_eq!(log.img_writes.len(), 1);
    assert_eq!(log.img_writes[0].0.file_path, b("out/img/1.png"));
    assert_eq!(log.img_writes[0].0.dir_path, b("out/img"));
    assert_eq!(log.img_writes[0].1, b("png-bytes"));

    assert_eq!(log.page_writes.len(), 2);
    assert_eq!(log.page_writes[0].0.file_path, b("out/docs//index.html"));
    assert_eq!(log.page_writes[1].0.file_path, b("out/docs/a/index.html"));

    assert!(visited_set(&st.failed_pages).is_empty());
    assert!(visited_set(&st.failed_imgs).is_empty());
    assert!(visited_set(&st.failed_js_css).is_empty());
}

#[test]
fn cycles_terminate_and_fetch_once() {
    let a = b("http://x/docs/a");
    let bu = b("http://x/docs/b");
    let mut transport = Transport::new();
    transport.add(a.clone(), ok_html("<a href=\"/docs/b\">b</a><a href=\"/docs/a\">self</a>"));
    transport.add(bu.clone(), ok_html("<a href=\"/docs/a\">back</a>"));

    let mut st = state("http://x/docs/", &[]);
    let log = run_frontier(&mut st, &vec![a.clone()], &transport, &b("out"));

    assert_eq!(log.fetched, vec![a.clone(), bu.clone()]);
    let visited = visited_set(&st.visited);
    let expect: HashSet<Vec<u8>> = [a, bu].into_iter().collect();
    assert_eq!(visited, expect);
}

#[test]
fn ignored_links_claimed_never_fetched() {
    let seed = b("http://x/docs/");
    let priv_page = b("http://x/docs/priv/secret");
    let mut transport = Transport::new();
    transport.add(
        seed.clone(),
        ok_html("<a href=\"/docs/priv/secret\">p</a><a href=\"/docs/a\">a</a>"),
    );
    transport.add(b("http://x/docs/a"), ok_html(""));
    transport.add(priv_page.clone(), ok_html("never fetched"));

    let mut st = state("http://x/docs/", &["http://x/docs/priv/"]);
    let log = run_frontier(&mut st, &vec![seed.clone()], &transport, &b("out"));

    assert!(st.visited.contains(&priv_page));
    assert!(!log.fetched.contains(&priv_page));
    assert!(!st.failed_pages.contains(&priv_page));
    assert_eq!(log.fetched, vec![seed, b("http://x/docs/a")]);
}

#[test]
fn asset_phase_failures_partitioned() {
    let mut transport = Transport::new();
    transport.add(b("http://x/img/ok.png"), ok_blob("ok"));
    transport.add(b("http://x/img/gone.png"), FetchOutcome::BadStatus(404));

    let mut failed = Registry::new();
    let queue = vec![
        b("http://x/img/ok.png"),
        b("http://x/img/gone.png"),
        b("http://x/img/offline.png"),
    ];
    let log = run_assets(&mut failed, &queue, &transport, &b("out"));

    assert_eq!(log.done, vec![b("http://x/img/ok.png")]);
    assert_eq!(log.writes.len(), 1);
    assert_eq!(log.writes[0].0.file_path, b("out/img/ok.png"));
    let failures = visited_set(&failed);
    let expect: HashSet<Vec<u8>> =
        [b("http://x/img/gone.png"), b("http://x/img/offline.png")].into_iter().collect();
    assert_eq!(failures, expect);
}

#[test]
fn resume_reaches_same_visited_registry() {
    let seed = b("http://x/docs/");
    let page_a = b("http://x/docs/a");
    let body_seed = "<a href=\"/docs/a\">a</a><img src=\"/img/1.png\">";
    let body_a = "<a href=\"/docs/b\">b</a>";

    // first run: /docs/a is down, so it lands in the failure ledger
    let mut flaky = Transport::new();
    flaky.add(seed.clone(), ok_html(body_seed));
    flaky.add(page_a.clone(), FetchOutcome::Failed);
    flaky.add(b("http://x/img/1.png"), ok_blob("png"));

    let mut st1 = state("http://x/docs/", &[]);
    run_crawl(&mut st1, &vec![seed.clone()], &flaky, &b("out"));
    assert!(st1.failed_pages.contains(&page_a));

    // resume: only the failed page is re-seeded, against a healed transport
    let mut healed = Transport::new();
    healed.add(seed.clone(), ok_html(body_seed));
    healed.add(page_a.clone(), ok_html(body_a));
    healed.add(b("http://x/docs/b"), ok_html(""));
    healed.add(b("http://x/img/1.png"), ok_blob("png"));

    let mut resumed = st1;
    let reseed = resumed.failed_pages.items();
    run_crawl(&mut resumed, &reseed, &healed, &b("out"));

    // uninterrupted run against the healed transport
    let mut whole = state("http://x/docs/", &[]);
    run_crawl(&mut whole, &vec![seed.clone()], &healed, &b("out"));

    assert_eq!(visited_set(&resumed.visited), visited_set(&whole.visited));
}

#[test]
fn producer_count_closes_once_idle() {
    let mut count = ProducerCount::start();
    assert_eq!(count.active, 1);
    count.on_enqueued();
    count.on_enqueued();
    assert_eq!(count.active, 3);
    count.on_task_done();
    count.on_task_done();
    assert!(!count.should_close(true));
    count.on_task_done();
    assert!(!count.should_close(false));
    assert!(count.should_close(true));
}
