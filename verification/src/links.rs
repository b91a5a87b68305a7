//! The link resolver: selector-based attribute extraction through the
//! `scraper` crate, and resolution of each extracted reference
//! against the document URL. References that do not resolve are
//! dropped silently and never reach the dedup gate or a queue.

use vstd::prelude::*;

use crate::text::copy_bytes;
use crate::urls::{url_join, url_path, join_url, path_of_url, spec_normalize_anchor};

verus! {

/// The value of attribute `attr` of each element of the document
/// matching the CSS selector `selector`, in document order, elements
/// without the attribute skipped. The result depends on the three
/// arguments alone.
pub uninterp spec fn selected_attrs(doc: Seq<u8>, selector: Seq<char>, attr: Seq<char>) -> Seq<
    Seq<u8>,
>;

/// Relies on `scraper::Html::parse_document`,
/// `scraper::Selector::parse`, `scraper::Html::select` and
/// `scraper::node::Element::attr`: parses the document bytes and
/// returns the given attribute of every element the selector matches,
/// in document order, skipping elements without the attribute.
#[verifier::external_body]
fn select_attrs(doc: &Vec<u8>, selector: &str, attr: &str) -> (r: Vec<Vec<u8>>)
    ensures
        r.deep_view() == selected_attrs(doc@, selector@, attr@),
{
    let text = String::from_utf8_lossy(doc);
    let html = scraper::Html::parse_document(&text);
    let sel = match scraper::Selector::parse(selector) {
        Ok(sel) => sel,
        Err(_) => return Vec::new(),
    };
    html.select(&sel).filter_map(|e| e.value().attr(attr)).map(|a| a.as_bytes().to_vec()).collect()
}

/// The attribute values resolved against the document URL, in order,
/// unresolvable references dropped.
pub open spec fn resolve_links(attrs: Seq<Seq<u8>>, base: Seq<u8>) -> Seq<Seq<u8>>
    decreases attrs.len(),
{
    if attrs.len() == 0 {
        Seq::empty()
    } else {
        let rest = resolve_links(attrs.drop_last(), base);
        match url_join(base, attrs.last()) {
            Some(l) => rest.push(l),
            None => rest,
        }
    }
}

/// The anchor links each re-joined against its own path, in order,
/// those that fail dropped.
pub open spec fn normalize_links(links: Seq<Seq<u8>>) -> Seq<Seq<u8>>
    decreases links.len(),
{
    if links.len() == 0 {
        Seq::empty()
    } else {
        let rest = normalize_links(links.drop_last());
        match spec_normalize_anchor(links.last()) {
            Some(l) => rest.push(l),
            None => rest,
        }
    }
}

/// Resolves every attribute value against `base`, dropping the ones
/// that do not resolve.
fn resolve_all(attrs: &Vec<Vec<u8>>, base: &Vec<u8>) -> (r: Vec<Vec<u8>>)
    ensures
        r.deep_view() == resolve_links(attrs.deep_view(), base@),
{
    let mut out: Vec<Vec<u8>> = Vec::new();
    let mut i: usize = 0;
    proof {
        assert(out.deep_view() =~= Seq::<Seq<u8>>::empty());
        assert(attrs.deep_view().take(0) =~= Seq::<Seq<u8>>::empty());
    }
    while i < attrs.len()
        invariant
            i <= attrs.len(),
            out.deep_view() == resolve_links(attrs.deep_view().take(i as int), base@),
        decreases attrs.len() - i,
    {
        proof {
            crate::text::lemma_deep_view_index(*attrs, i as int);
            assert(attrs.deep_view().take(i + 1).drop_last() =~= attrs.deep_view().take(i as int));
            assert(attrs.deep_view().take(i + 1).last() == attrs.deep_view()[i as int]);
        }
        match join_url(base, &attrs[i]) {
            Some(l) => {
                let ghost pre_out = out;
                let ghost l_v = l;
                out.push(l);
                proof {
                    crate::text::lemma_deep_view_push(pre_out, out, l_v);
                }
            },
            None => {},
        }
        i += 1;
    }
    proof {
        assert(attrs.deep_view().take(attrs.deep_view().len() as int) =~= attrs.deep_view());
    }
    out
}

/// Normalizes every anchor link, dropping the ones that fail.
fn normalize_all(links: &Vec<Vec<u8>>) -> (r: Vec<Vec<u8>>)
    ensures
        r.deep_view() == normalize_links(links.deep_view()),
{
    let mut out: Vec<Vec<u8>> = Vec::new();
    let mut i: usize = 0;
    proof {
        assert(out.deep_view() =~= Seq::<Seq<u8>>::empty());
        assert(links.deep_view().take(0) =~= Seq::<Seq<u8>>::empty());
    }
    while i < links.len()
        invariant
            i <= links.len(),
            out.deep_view() == normalize_links(links.deep_view().take(i as int)),
        decreases links.len() - i,
    {
        proof {
            crate::text::lemma_deep_view_index(*links, i as int);
            assert(links.deep_view().take(i + 1).drop_last() =~= links.deep_view().take(i as int));
            assert(links.deep_view().take(i + 1).last() == links.deep_view()[i as int]);
        }
        match crate::urls::normalize_anchor(&links[i]) {
            Some(l) => {
                let ghost pre_out = out;
                let ghost l_v = l;
                out.push(l);
                proof {
                    crate::text::lemma_deep_view_push(pre_out, out, l_v);
                }
            },
            None => {},
        }
        i += 1;
    }
    proof {
        assert(links.deep_view().take(links.deep_view().len() as int) =~= links.deep_view());
    }
    out
}

/// The image links of a page: the `src` of every `img[src]` element,
/// resolved against the page URL.
pub open spec fn page_imgs(body: Seq<u8>, page: Seq<u8>) -> Seq<Seq<u8>> {
    resolve_links(selected_attrs(body, "img[src]"@, "src"@), page)
}

/// The script and stylesheet links of a page: the `src` of every
/// `script[src]` element, then the `href` of every
/// `link[rel="stylesheet"]` element, each resolved against the page
/// URL.
pub open spec fn page_js_css(body: Seq<u8>, page: Seq<u8>) -> Seq<Seq<u8>> {
    resolve_links(selected_attrs(body, "script[src]"@, "src"@), page) + resolve_links(
        selected_attrs(body, "link[rel=\"stylesheet\"]"@, "href"@),
        page,
    )
}

/// The anchor links of a page: the `href` of every `a[href]` element,
/// resolved against the page URL and then re-joined against its own
/// path, which strips queries and fragments.
pub open spec fn page_anchors(body: Seq<u8>, page: Seq<u8>) -> Seq<Seq<u8>> {
    normalize_links(resolve_links(selected_attrs(body, "a[href]"@, "href"@), page))
}

/// The links a page contributes to the crawl, by class.
pub struct PageLinks {
    /// Image links, in document order.
    pub imgs: Vec<Vec<u8>>,
    /// Script links, then stylesheet links, in document order.
    pub js_css: Vec<Vec<u8>>,
    /// Normalized anchor links, in document order.
    pub anchors: Vec<Vec<u8>>,
}

/// Extracts and resolves every image, script, stylesheet and anchor
/// link of the page.
pub fn extract_page_links(body: &Vec<u8>, page: &Vec<u8>) -> (r: PageLinks)
    ensures
        r.imgs.deep_view() == page_imgs(body@, page@),
        r.js_css.deep_view() == page_js_css(body@, page@),
        r.anchors.deep_view() == page_anchors(body@, page@),
{
    let img_attrs = select_attrs(body, "img[src]", "src");
    let js_attrs = select_attrs(body, "script[src]", "src");
    let css_attrs = select_attrs(body, "link[rel=\"stylesheet\"]", "href");
    let a_attrs = select_attrs(body, "a[href]", "href");
    let imgs = resolve_all(&img_attrs, page);
    let mut js_css = resolve_all(&js_attrs, page);
    let css = resolve_all(&css_attrs, page);
    let ghost pre = js_css.deep_view();
    let mut k: usize = 0;
    proof {
        assert(pre + css.deep_view().take(0) =~= pre);
    }
    while k < css.len()
        invariant
            k <= css.len(),
            js_css.deep_view() == pre + css.deep_view().take(k as int),
        decreases css.len() - k,
    {
        proof {
            crate::text::lemma_deep_view_index(css, k as int);
        }
        let c = copy_bytes(&css[k]);
        let ghost pre_out = js_css;
        let ghost c_v = c;
        js_css.push(c);
        proof {
            crate::text::lemma_deep_view_push(pre_out, js_css, c_v);
            assert((pre + css.deep_view().take(k as int)).push(css.deep_view()[k as int]) =~= pre
                + css.deep_view().take(k + 1));
        }
        k += 1;
    }
    proof {
        assert(css.deep_view().take(css.deep_view().len() as int) =~= css.deep_view());
    }
    let raw_anchors = resolve_all(&a_attrs, page);
    let anchors = normalize_all(&raw_anchors);
    PageLinks { imgs, js_css, anchors }
}

} // verus!
