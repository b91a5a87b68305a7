use sitemirror::config::{parse_args, parse_u64, parse_usize, plan_fresh, ArgError, Command};
use sitemirror::fetch::{classify_response, FetchOutcome, FetchedContent};
use sitemirror::mirror::mirror_target;
use sitemirror::scope::{compute_base_path, compute_scope_base, in_scope, is_ignored, segments_of,
    split_on};
use sitemirror::text::{bytes_eq, concat_bytes, ends_with, starts_with};

fn b(s: &str) -> Vec<u8> {
    s.as_bytes().to_vec()
}

fn bb(items: &[&str]) -> Vec<Vec<u8>> {
    items.iter().map(|s| b(s)).collect()
}

#[test]
fn starts_and_ends() {
    assert!(starts_with(&b("http://x/docs/a"), &b("http://x/docs/")));
    assert!(!starts_with(&b("http://x/other"), &b("http://x/docs/")));
    assert!(starts_with(&b("abc"), &b("")));
    assert!(!starts_with(&b("ab"), &b("abc")));
    assert!(ends_with(&b("a/b.html"), &b(".html")));
    assert!(!ends_with(&b("a/b.htm"), &b(".html")));
    assert!(bytes_eq(&b("same"), &b("same")));
    assert!(!bytes_eq(&b("same"), &b("same!")));
    assert_eq!(concat_bytes(&b("ab"), &b("cd")), b("abcd"));
}

#[test]
fn split_and_segments() {
    let parts = split_on(&b("/docs//a/"), b'/');
    let expect: Vec<Vec<u8>> = bb(&["", "docs", "", "a", ""]);
    assert_eq!(parts, expect);
    assert_eq!(segments_of(&b("/docs//a/")), bb(&["docs", "a"]));
    assert_eq!(segments_of(&b("/")), Vec::<Vec<u8>>::new());
}

#[test]
fn base_path_depths() {
    assert_eq!(compute_base_path(&b("/docs/page.html"), 0), Some(b("/")));
    assert_eq!(compute_base_path(&b("/docs/page.html"), 1), Some(b("/docs/")));
    assert_eq!(compute_base_path(&b("/docs/page.html"), 2), Some(b("/docs/page.html/")));
    assert_eq!(compute_base_path(&b("/docs/page.html"), 3), None);
}

#[test]
fn scope_base_from_seed() {
    assert_eq!(
        compute_scope_base(&b("http://x/docs/page.html"), 1),
        Some(b("http://x/docs/"))
    );
    assert_eq!(compute_scope_base(&b("http://x/docs/page.html"), 0), Some(b("http://x/")));
    assert_eq!(compute_scope_base(&b("http://x/docs/page.html"), 9), None);
}

#[test]
fn scope_and_ignore_filters() {
    let base = b("http://x/docs/");
    assert!(in_scope(&b("http://x/docs/a"), &base));
    assert!(!in_scope(&b("http://x/other"), &base));
    let ignore = bb(&["http://x/docs/private/", "http://x/docs/tmp"]);
    assert!(is_ignored(&b("http://x/docs/private/p1"), &ignore));
    assert!(is_ignored(&b("http://x/docs/tmp2"), &ignore));
    assert!(!is_ignored(&b("http://x/docs/a"), &ignore));
    assert!(!is_ignored(&b("http://x/docs/a"), &Vec::new()));
}

#[test]
fn mirror_path_mapping() {
    let plan = mirror_target(&b("out"), &b("/a/b"), true);
    assert_eq!(plan.file_path, b("out/a/b/index.html"));
    assert_eq!(plan.dir_path, b("out/a/b"));

    let plan = mirror_target(&b("out"), &b("/a/b.html"), true);
    assert_eq!(plan.file_path, b("out/a/b.html"));
    assert_eq!(plan.dir_path, b("out/a"));

    let plan = mirror_target(&b("out"), &b("/img/x.png"), false);
    assert_eq!(plan.file_path, b("out/img/x.png"));
    assert_eq!(plan.dir_path, b("out/img"));
}

#[test]
fn mirror_directory_style_edge() {
    let plan = mirror_target(&b("out"), &b("/docs/"), true);
    assert_eq!(plan.file_path, b("out/docs//index.html"));
    assert_eq!(plan.dir_path, b("out/docs"));
}

#[test]
fn numbers_parse() {
    assert_eq!(parse_u64(&b("0")), Some(0));
    assert_eq!(parse_u64(&b("1500")), Some(1500));
    assert_eq!(parse_u64(&b("+7")), Some(7));
    assert_eq!(parse_u64(&b("")), None);
    assert_eq!(parse_u64(&b("+")), None);
    assert_eq!(parse_u64(&b("12x")), None);
    assert_eq!(parse_u64(&b("18446744073709551615")), Some(u64::MAX));
    assert_eq!(parse_u64(&b("18446744073709551616")), None);
    assert_eq!(parse_usize(&b("3")), Some(3));
    assert_eq!(parse_usize(&b("-3")), None);
}

#[test]
fn args_fresh_full() {
    let args = bb(&["prog", "http://x/docs/", "out", "1", "250", "-i", "priv", "tmp"]);
    match parse_args(&args) {
        Ok(Command::Fresh { url, dir, base_index, freq, ignore }) => {
            assert_eq!(url, b("http://x/docs/"));
            assert_eq!(dir, b("out"));
            assert_eq!(base_index, 1);
            assert_eq!(freq, 250);
            assert_eq!(ignore, bb(&["priv", "tmp"]));
        }
        other => panic!("unexpected parse: {:?}", discriminant_name(&other)),
    }
}

#[test]
fn args_fresh_minimal() {
    let args = bb(&["prog", "http://x/docs/", "out", "0"]);
    match parse_args(&args) {
        Ok(Command::Fresh { base_index, freq, ignore, .. }) => {
            assert_eq!(base_index, 0);
            assert_eq!(freq, 0);
            assert!(ignore.is_empty());
        }
        other => panic!("unexpected parse: {:?}", discriminant_name(&other)),
    }
}

#[test]
fn args_resume() {
    match parse_args(&bb(&["prog", "-a"])) {
        Ok(Command::Resume { freq }) => assert_eq!(freq, 0),
        other => panic!("unexpected parse: {:?}", discriminant_name(&other)),
    }
    match parse_args(&bb(&["prog", "-a", "90"])) {
        Ok(Command::Resume { freq }) => assert_eq!(freq, 90),
        other => panic!("unexpected parse: {:?}", discriminant_name(&other)),
    }
}

#[test]
fn args_errors() {
    assert!(matches!(parse_args(&bb(&["prog"])), Err(ArgError::Usage)));
    assert!(matches!(parse_args(&bb(&["prog", "http://x/", "out"])), Err(ArgError::Usage)));
    assert!(matches!(
        parse_args(&bb(&["prog", "u", "d", "1", "2", "x", "y"])),
        Err(ArgError::Usage)
    ));
    match parse_args(&bb(&["prog", "-a", "soon"])) {
        Err(ArgError::BadFreq(s)) => assert_eq!(s, b("soon")),
        other => panic!("unexpected parse: {:?}", discriminant_name(&other)),
    }
    match parse_args(&bb(&["prog", "http://x/", "out", "deep"])) {
        Err(ArgError::BadBase(s)) => assert_eq!(s, b("deep")),
        other => panic!("unexpected parse: {:?}", discriminant_name(&other)),
    }
}

fn discriminant_name(r: &Result<Command, ArgError>) -> &'static str {
    match r {
        Ok(Command::Resume { .. }) => "resume",
        Ok(Command::Fresh { .. }) => "fresh",
        Err(ArgError::Usage) => "usage",
        Err(ArgError::BadFreq(_)) => "bad-freq",
        Err(ArgError::BadBase(_)) => "bad-base",
        Err(ArgError::BadUrl) => "bad-url",
        Err(ArgError::BadScope) => "bad-scope",
    }
}

#[test]
fn fresh_plan_prefixes_ignores() {
    let plan = plan_fresh(&b("http://x/docs/page.html"), 1, &bb(&["priv/", "tmp"])).unwrap();
    assert_eq!(plan.seed, b("http://x/docs/page.html"));
    assert_eq!(plan.scope_base, b("http://x/docs/"));
    assert_eq!(plan.ignore, bb(&["http://x/docs/priv/", "http://x/docs/tmp"]));
}

#[test]
fn fresh_plan_errors() {
    assert!(matches!(plan_fresh(&b("not a url"), 1, &Vec::new()), Err(ArgError::BadUrl)));
    assert!(matches!(
        plan_fresh(&b("http://x/docs/"), 5, &Vec::new()),
        Err(ArgError::BadScope)
    ));
}

#[test]
fn response_classification() {
    match classify_response(200, Some(b("text/html")), b("<p>hi</p>")) {
        FetchOutcome::Success { is_html, body } => {
            assert!(is_html);
            assert_eq!(body, b("<p>hi</p>"));
        }
        _ => panic!("expected success"),
    }
    match classify_response(200, Some(b("image/png")), b("png")) {
        FetchOutcome::Success { is_html, .. } => assert!(!is_html),
        _ => panic!("expected success"),
    }
    match classify_response(200, None, b("x")) {
        FetchOutcome::Success { is_html, .. } => assert!(!is_html),
        _ => panic!("expected success"),
    }
    assert!(matches!(
        classify_response(404, Some(b("text/html")), b("")),
        FetchOutcome::BadStatus(404)
    ));
}

#[test]
fn fetched_content_views() {
    let page = FetchedContent::StringContent((true, String::from("<html></html>")));
    assert!(page.is_html());
    assert_eq!(page.text_string(), String::from("<html></html>"));
    let blob = FetchedContent::VectContent(vec![1u8, 2, 3]);
    assert!(!blob.is_html());
}
