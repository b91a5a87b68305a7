use sitemirror::config::normalize_seeds;
use sitemirror::persist::{parse_failsafe, parse_lines, render_failsafe, render_url_lines,
    Snapshot};

fn b(s: &str) -> Vec<u8> {
    s.as_bytes().to_vec()
}

fn bb(items: &[&str]) -> Vec<Vec<u8>> {
    items.iter().map(|s| b(s)).collect()
}

#[test]
fn visited_log_round_trip() {
    let urls = bb(&["http://x/docs/", "http://x/docs/a", "http://x/img/1.png"]);
    let text = render_url_lines(&urls, Vec::new());
    assert_eq!(text, b("http://x/docs/\nhttp://x/docs/a\nhttp://x/img/1.png\n"));
    assert_eq!(parse_lines(&text), urls);
    assert_eq!(parse_lines(&b("")), Vec::<Vec<u8>>::new());
}

#[test]
fn failsafe_log_layout() {
    let snap = Snapshot {
        base: b("http://x/docs/"),
        ignore: bb(&["http://x/docs/priv/"]),
        pages: bb(&["http://x/docs/down"]),
        js_css: bb(&[]),
        imgs: bb(&["http://x/img/gone.png"]),
    };
    let text = render_failsafe(&snap);
    assert_eq!(
        text,
        b("BASE: http://x/docs/\n----ignored\nhttp://x/docs/priv/\n----failed\nhttp://x/docs/down\n----js_css\n----imgs\nhttp://x/img/gone.png\n")
    );
}

#[test]
fn failsafe_round_trip() {
    let snap = Snapshot {
        base: b("http://x/docs/"),
        ignore: bb(&["http://x/docs/priv/", "http://x/docs/tmp"]),
        pages: bb(&["http://x/docs/down", "http://x/docs/also-down"]),
        js_css: bb(&["http://x/js/app.js"]),
        imgs: bb(&["http://x/img/gone.png"]),
    };
    let text = render_failsafe(&snap);
    let back = parse_failsafe(&text).expect("rendered log must parse");
    assert_eq!(back.base, snap.base);
    assert_eq!(back.ignore, snap.ignore);
    assert_eq!(back.pages, snap.pages);
    assert_eq!(back.js_css, snap.js_css);
    assert_eq!(back.imgs, snap.imgs);
}

#[test]
fn failsafe_empty_blocks_round_trip() {
    let snap = Snapshot {
        base: b("http://x/"),
        ignore: bb(&[]),
        pages: bb(&[]),
        js_css: bb(&[]),
        imgs: bb(&[]),
    };
    let text = render_failsafe(&snap);
    assert_eq!(text, b("BASE: http://x/\n----ignored\n----failed\n----js_css\n----imgs\n"));
    let back = parse_failsafe(&text).expect("rendered log must parse");
    assert_eq!(back.base, snap.base);
    assert!(back.ignore.is_empty());
    assert!(back.pages.is_empty());
    assert!(back.js_css.is_empty());
    assert!(back.imgs.is_empty());
}

#[test]
fn unreadable_failsafe_rejected() {
    assert!(parse_failsafe(&b("")).is_none());
    assert!(parse_failsafe(&b("nonsense\n")).is_none());
    assert!(parse_failsafe(&b("BASE: http://x/\nno marker\n")).is_none());
    assert!(parse_failsafe(&b("BASE: http://x/\n----ignored\n")).is_none());
    assert!(parse_failsafe(&b("BASE: http://x/\n----ignored\n----failed\n")).is_none());
    assert!(
        parse_failsafe(&b("BASE: http://x/\n----ignored\n----failed\n----js_css\n")).is_none()
    );
}

#[test]
fn reseeding_parses_each_url() {
    let ok = normalize_seeds(&bb(&["http://x/docs/down", "http://x/img/gone.png"]));
    assert_eq!(ok, Some(bb(&["http://x/docs/down", "http://x/img/gone.png"])));
    assert_eq!(normalize_seeds(&bb(&["http://x/docs/down", "no url"])), None);
}
