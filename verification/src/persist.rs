//! Crawl state persistence: at shutdown the visited registry goes to
//! one log, URL per line, and the failure ledger to another with a
//! header (scope base, ignore list) and one tagged block per
//! category; on resume both are read back and the failed URLs re-seed
//! the queues, routed by tag.

use vstd::prelude::*;

use crate::scope::{split_bytes, split_acc, split_on};
use crate::text::{is_prefix_of, starts_with, append_bytes, copy_bytes, append_all,
    lemma_deep_view_index, lemma_deep_view_push, NEWLINE, DASH};

verus! {

/// The given lines as text, each line closed by a newline.
pub open spec fn lines_of(us: Seq<Seq<u8>>) -> Seq<u8>
    decreases us.len(),
{
    if us.len() == 0 {
        Seq::empty()
    } else {
        lines_of(us.drop_last()) + us.last() + seq![NEWLINE]
    }
}

/// The lines of a text: split on newlines, a trailing empty rest
/// dropped.
pub open spec fn parse_lines_spec(t: Seq<u8>) -> Seq<Seq<u8>> {
    let parts = split_bytes(t, NEWLINE);
    if parts.len() > 0 && parts.last().len() == 0 {
        parts.drop_last()
    } else {
        parts
    }
}

/// Renders the URLs one per line after `init`.
pub fn render_url_lines(urls: &Vec<Vec<u8>>, init: Vec<u8>) -> (r: Vec<u8>)
    ensures
        r@ == init@ + lines_of(urls.deep_view()),
{
    let ghost init_v = init@;
    let mut r = init;
    let mut i: usize = 0;
    proof {
        assert(init_v + lines_of(urls.deep_view().take(0)) =~= init_v);
    }
    while i < urls.len()
        invariant
            i <= urls.len(),
            r@ == init_v + lines_of(urls.deep_view().take(i as int)),
        decreases urls.len() - i,
    {
        proof {
            lemma_deep_view_index(*urls, i as int);
            assert(urls.deep_view().take(i + 1).drop_last() =~= urls.deep_view().take(i as int));
            assert(urls.deep_view().take(i + 1).last() == urls.deep_view()[i as int]);
        }
        append_bytes(&mut r, &urls[i]);
        r.push(NEWLINE);
        proof {
            assert(lines_of(urls.deep_view().take(i + 1)) == lines_of(
                urls.deep_view().take(i as int),
            ) + urls.deep_view()[i as int] + seq![NEWLINE]);
            assert(r@ =~= init_v + lines_of(urls.deep_view().take(i + 1)));
        }
        i += 1;
    }
    proof {
        assert(urls.deep_view().take(urls.deep_view().len() as int) =~= urls.deep_view());
    }
    r
}

/// Splits a log text into its lines.
pub fn parse_lines(t: &Vec<u8>) -> (r: Vec<Vec<u8>>)
    ensures
        r.deep_view() == parse_lines_spec(t@),
{
    let mut parts = split_on(t, NEWLINE);
    if parts.len() > 0 && parts[parts.len() - 1].len() == 0 {
        proof {
            lemma_deep_view_index(parts, parts@.len() - 1);
        }
        let ghost pre = parts.deep_view();
        parts.pop();
        proof {
            assert(parts.deep_view() =~= pre.drop_last());
        }
    } else {
        proof {
            if parts@.len() > 0 {
                lemma_deep_view_index(parts, parts@.len() - 1);
            }
        }
    }
    parts
}

/// Every part a split yields holds no separator... the accumulated
/// lines law needs only that a rendered line has none.
proof fn lemma_split_acc_nonempty(s: Seq<u8>, sep: u8, cur: Seq<u8>)
    ensures
        split_acc(s, sep, cur).len() >= 1,
    decreases s.len(),
{
    if s.len() > 0 {
        if s[0] == sep {
            lemma_split_acc_nonempty(s.skip(1), sep, Seq::empty());
        } else {
            lemma_split_acc_nonempty(s.skip(1), sep, cur.push(s[0]));
        }
    }
}

/// Splitting a concatenation: the accumulator threads through the
/// boundary.
proof fn lemma_split_acc_concat(a: Seq<u8>, b: Seq<u8>, sep: u8, cur: Seq<u8>)
    ensures
        split_acc(a + b, sep, cur) == split_acc(a, sep, cur).drop_last() + split_acc(
            b,
            sep,
            split_acc(a, sep, cur).last(),
        ),
    decreases a.len(),
{
    if a.len() == 0 {
        assert(a + b =~= b);
        assert(split_acc(a, sep, cur) == seq![cur]);
        assert(seq![cur].drop_last() =~= Seq::<Seq<u8>>::empty());
        assert(Seq::<Seq<u8>>::empty() + split_acc(b, sep, cur) =~= split_acc(b, sep, cur));
    } else {
        assert((a + b).len() > 0);
        assert((a + b)[0] == a[0]);
        assert((a + b).skip(1) =~= a.skip(1) + b);
        if a[0] == sep {
            lemma_split_acc_concat(a.skip(1), b, sep, Seq::empty());
            lemma_split_acc_nonempty(a.skip(1), sep, Seq::empty());
            let inner = split_acc(a.skip(1), sep, Seq::empty());
            assert(split_acc(a, sep, cur) == seq![cur] + inner);
            assert((seq![cur] + inner).drop_last() =~= seq![cur] + inner.drop_last());
            assert((seq![cur] + inner).last() == inner.last());
            assert(seq![cur] + (inner.drop_last() + split_acc(b, sep, inner.last())) =~= (seq![cur]
                + inner.drop_last()) + split_acc(b, sep, inner.last()));
        } else {
            lemma_split_acc_concat(a.skip(1), b, sep, cur.push(a[0]));
        }
    }
}

/// Splitting one separator-free line closed by a separator.
proof fn lemma_split_line(u: Seq<u8>, sep: u8, cur: Seq<u8>)
    requires
        !u.contains(sep),
    ensures
        split_acc(u + seq![sep], sep, cur) == seq![cur + u, Seq::<u8>::empty()],
    decreases u.len(),
{
    if u.len() == 0 {
        assert(u + seq![sep] =~= seq![sep]);
        assert(seq![sep].skip(1) =~= Seq::<u8>::empty());
        assert(split_acc(Seq::<u8>::empty(), sep, Seq::<u8>::empty()) == seq![Seq::<u8>::empty()]);
        assert(split_acc(seq![sep], sep, cur) == seq![cur] + seq![Seq::<u8>::empty()]);
        assert(cur + u =~= cur);
        assert(seq![cur] + seq![Seq::<u8>::empty()] =~= seq![cur + u, Seq::<u8>::empty()]);
    } else {
        assert(u[0] != sep) by {
            if u[0] == sep {
                assert(u.contains(sep));
            }
        }
        assert((u + seq![sep])[0] == u[0]);
        assert((u + seq![sep]).skip(1) =~= u.skip(1) + seq![sep]);
        assert(!u.skip(1).contains(sep)) by {
            if u.skip(1).contains(sep) {
                let j = choose|j: int| 0 <= j < u.skip(1).len() && u.skip(1)[j] == sep;
                assert(u[j + 1] == sep);
                assert(u.contains(sep));
            }
        }
        lemma_split_line(u.skip(1), sep, cur.push(u[0]));
        assert(cur.push(u[0]) + u.skip(1) =~= cur + u);
    }
}

/// Splitting a rendered line list gives the lines back, with one
/// empty rest behind the final newline.
proof fn lemma_split_lines(urls: Seq<Seq<u8>>)
    requires
        forall|i: int| 0 <= i < urls.len() ==> !(#[trigger] urls[i]).contains(NEWLINE),
    ensures
        split_bytes(lines_of(urls), NEWLINE) == urls + seq![Seq::<u8>::empty()],
    decreases urls.len(),
{
    if urls.len() == 0 {
        assert(split_acc(Seq::<u8>::empty(), NEWLINE, Seq::<u8>::empty()) == seq![
            Seq::<u8>::empty(),
        ]);
        assert(urls + seq![Seq::<u8>::empty()] =~= seq![Seq::<u8>::empty()]);
    } else {
        let front = urls.drop_last();
        let u = urls.last();
        assert(forall|i: int| 0 <= i < front.len() ==> !(#[trigger] front[i]).contains(NEWLINE));
        lemma_split_lines(front);
        let l = lines_of(front);
        assert(lines_of(urls) =~= l + (u + seq![NEWLINE]));
        lemma_split_acc_concat(l, u + seq![NEWLINE], NEWLINE, Seq::empty());
        let parts = split_bytes(l, NEWLINE);
        assert(parts == front + seq![Seq::<u8>::empty()]);
        assert(parts.last() == Seq::<u8>::empty());
        assert(parts.drop_last() =~= front);
        lemma_split_line(u, NEWLINE, Seq::<u8>::empty());
        assert(Seq::<u8>::empty() + u =~= u);
        assert(front + seq![u, Seq::<u8>::empty()] =~= urls + seq![Seq::<u8>::empty()]);
    }
}

/// Round-trip law: rendering lines and splitting the text back gives
/// exactly the lines, for lines that hold no newline themselves.
pub proof fn lemma_lines_round_trip(urls: Seq<Seq<u8>>)
    requires
        forall|i: int| 0 <= i < urls.len() ==> !(#[trigger] urls[i]).contains(NEWLINE),
    ensures
        parse_lines_spec(lines_of(urls)) == urls,
{
    lemma_split_lines(urls);
    let parts = split_bytes(lines_of(urls), NEWLINE);
    assert(parts.len() == urls.len() + 1);
    assert(parts.last() == Seq::<u8>::empty());
    assert(parts.drop_last() =~= urls);
}

/// The header tag `"BASE: "` that carries the scope base.
pub open spec fn base_tag() -> Seq<u8> {
    seq![66u8, 65u8, 83u8, 69u8, 58u8, 32u8]
}

/// The marker line opening the ignore-prefix block: `"----ignored"`.
pub open spec fn marker_ignored() -> Seq<u8> {
    seq![DASH, DASH, DASH, DASH, 105u8, 103u8, 110u8, 111u8, 114u8, 101u8, 100u8]
}

/// The marker line opening the failed-page block: `"----failed"`.
pub open spec fn marker_failed() -> Seq<u8> {
    seq![DASH, DASH, DASH, DASH, 102u8, 97u8, 105u8, 108u8, 101u8, 100u8]
}

/// The marker line opening the script and stylesheet block:
/// `"----js_css"`.
pub open spec fn marker_js_css() -> Seq<u8> {
    seq![DASH, DASH, DASH, DASH, 106u8, 115u8, 95u8, 99u8, 115u8, 115u8]
}

/// The marker line opening the image block: `"----imgs"`.
pub open spec fn marker_imgs() -> Seq<u8> {
    seq![DASH, DASH, DASH, DASH, 105u8, 109u8, 103u8, 115u8]
}

/// The bytes of `"BASE: "`.
pub fn base_tag_vec() -> (r: Vec<u8>)
    ensures
        r@ == base_tag(),
{
    let mut v: Vec<u8> = Vec::new();
    v.push(66u8);
    v.push(65u8);
    v.push(83u8);
    v.push(69u8);
    v.push(58u8);
    v.push(32u8);
    assert(v@ =~= base_tag());
    v
}

/// The bytes of `"----ignored"`.
pub fn marker_ignored_vec() -> (r: Vec<u8>)
    ensures
        r@ == marker_ignored(),
{
    let mut v: Vec<u8> = Vec::new();
    v.push(DASH);
    v.push(DASH);
    v.push(DASH);
    v.push(DASH);
    v.push(105u8);
    v.push(103u8);
    v.push(110u8);
    v.push(111u8);
    v.push(114u8);
    v.push(101u8);
    v.push(100u8);
    assert(v@ =~= marker_ignored());
    v
}

/// The bytes of `"----failed"`.
pub fn marker_failed_vec() -> (r: Vec<u8>)
    ensures
        r@ == marker_failed(),
{
    let mut v: Vec<u8> = Vec::new();
    v.push(DASH);
    v.push(DASH);
    v.push(DASH);
    v.push(DASH);
    v.push(102u8);
    v.push(97u8);
    v.push(105u8);
    v.push(108u8);
    v.push(101u8);
    v.push(100u8);
    assert(v@ =~= marker_failed());
    v
}

/// The bytes of `"----js_css"`.
pub fn marker_js_css_vec() -> (r: Vec<u8>)
    ensures
        r@ == marker_js_css(),
{
    let mut v: Vec<u8> = Vec::new();
    v.push(DASH);
    v.push(DASH);
    v.push(DASH);
    v.push(DASH);
    v.push(106u8);
    v.push(115u8);
    v.push(95u8);
    v.push(99u8);
    v.push(115u8);
    v.push(115u8);
    assert(v@ =~= marker_js_css());
    v
}

/// The bytes of `"----imgs"`.
pub fn marker_imgs_vec() -> (r: Vec<u8>)
    ensures
        r@ == marker_imgs(),
{
    let mut v: Vec<u8> = Vec::new();
    v.push(DASH);
    v.push(DASH);
    v.push(DASH);
    v.push(DASH);
    v.push(105u8);
    v.push(109u8);
    v.push(103u8);
    v.push(115u8);
    assert(v@ =~= marker_imgs());
    v
}

/// What the failure log holds besides the failed URLs: the crawl's
/// configuration, so a resume needs no fresh seed.
pub struct Snapshot {
    /// The scope base of the interrupted crawl.
    pub base: Vec<u8>,
    /// Its ignore prefixes.
    pub ignore: Vec<Vec<u8>>,
    /// The failed page URLs.
    pub pages: Vec<Vec<u8>>,
    /// The failed script and stylesheet URLs.
    pub js_css: Vec<Vec<u8>>,
    /// The failed image URLs.
    pub imgs: Vec<Vec<u8>>,
}

/// The lines of a rendered failure log: the header, then each block
/// behind its marker.
pub open spec fn snapshot_lines(
    base: Seq<u8>,
    ignore: Seq<Seq<u8>>,
    pages: Seq<Seq<u8>>,
    js_css: Seq<Seq<u8>>,
    imgs: Seq<Seq<u8>>,
) -> Seq<Seq<u8>> {
    seq![base_tag() + base, marker_ignored()] + ignore + seq![marker_failed()] + pages + seq![
        marker_js_css(),
    ] + js_css + seq![marker_imgs()] + imgs
}

/// Renders the failure log: the scope base and ignore list as
/// header, then one tagged block per category, one URL per line.
pub fn render_failsafe(snap: &Snapshot) -> (r: Vec<u8>)
    ensures
        r@ == lines_of(
            snapshot_lines(
                snap.base@,
                snap.ignore.deep_view(),
                snap.pages.deep_view(),
                snap.js_css.deep_view(),
                snap.imgs.deep_view(),
            ),
        ),
{
    let mut lines: Vec<Vec<u8>> = Vec::new();
    let mut header = base_tag_vec();
    append_bytes(&mut header, &snap.base);
    let ghost h_v = header;
    let ghost pre0 = lines;
    lines.push(header);
    proof {
        lemma_deep_view_push(pre0, lines, h_v);
    }
    let m1 = marker_ignored_vec();
    let ghost m1_v = m1;
    let ghost pre1 = lines;
    lines.push(m1);
    proof {
        lemma_deep_view_push(pre1, lines, m1_v);
    }
    append_all(&mut lines, &snap.ignore);
    let m2 = marker_failed_vec();
    let ghost m2_v = m2;
    let ghost pre2 = lines;
    lines.push(m2);
    proof {
        lemma_deep_view_push(pre2, lines, m2_v);
    }
    append_all(&mut lines, &snap.pages);
    let m3 = marker_js_css_vec();
    let ghost m3_v = m3;
    let ghost pre3 = lines;
    lines.push(m3);
    proof {
        lemma_deep_view_push(pre3, lines, m3_v);
    }
    append_all(&mut lines, &snap.js_css);
    let m4 = marker_imgs_vec();
    let ghost m4_v = m4;
    let ghost pre4 = lines;
    lines.push(m4);
    proof {
        lemma_deep_view_push(pre4, lines, m4_v);
    }
    append_all(&mut lines, &snap.imgs);
    proof {
        assert(lines.deep_view() =~= snapshot_lines(
            snap.base@,
            snap.ignore.deep_view(),
            snap.pages.deep_view(),
            snap.js_css.deep_view(),
            snap.imgs.deep_view(),
        ));
    }
    render_url_lines(&lines, Vec::new())
}

/// The lines from `from` up to the first line equal to `stop`.
pub open spec fn take_until(lines: Seq<Seq<u8>>, from: int, stop: Seq<u8>) -> Seq<Seq<u8>>
    decreases lines.len() - from,
{
    if from < 0 || from >= lines.len() {
        Seq::empty()
    } else if lines[from] == stop {
        Seq::empty()
    } else {
        seq![lines[from]] + take_until(lines, from + 1, stop)
    }
}

/// Where the first line equal to `stop` stands, the line count when
/// there is none.
pub open spec fn stop_index(lines: Seq<Seq<u8>>, from: int, stop: Seq<u8>) -> int
    decreases lines.len() - from,
{
    if from < 0 || from >= lines.len() {
        lines.len() as int
    } else if lines[from] == stop {
        from
    } else {
        stop_index(lines, from + 1, stop)
    }
}

/// Collects the lines from `from` up to the first line equal to
/// `stop`, and where that line stands.
fn collect_until(lines: &Vec<Vec<u8>>, from: usize, stop: &Vec<u8>) -> (r: (Vec<Vec<u8>>, usize))
    requires
        from <= lines@.len(),
    ensures
        r.0.deep_view() == take_until(lines.deep_view(), from as int, stop@),
        r.1 == stop_index(lines.deep_view(), from as int, stop@),
        from <= r.1 <= lines@.len(),
        r.1 < lines@.len() ==> lines.deep_view()[r.1 as int] == stop@,
{
    let mut out: Vec<Vec<u8>> = Vec::new();
    let mut i: usize = from;
    proof {
        assert(out.deep_view() =~= Seq::<Seq<u8>>::empty());
    }
    while i < lines.len()
        invariant
            from <= i <= lines@.len(),
            take_until(lines.deep_view(), from as int, stop@) == out.deep_view() + take_until(
                lines.deep_view(),
                i as int,
                stop@,
            ),
            stop_index(lines.deep_view(), from as int, stop@) == stop_index(
                lines.deep_view(),
                i as int,
                stop@,
            ),
        decreases lines@.len() - i,
    {
        proof {
            lemma_deep_view_index(*lines, i as int);
        }
        if crate::text::bytes_eq(&lines[i], stop) {
            proof {
                assert(take_until(lines.deep_view(), i as int, stop@) =~= Seq::<Seq<u8>>::empty());
                assert(out.deep_view() + Seq::<Seq<u8>>::empty() =~= out.deep_view());
            }
            return (out, i);
        }
        let c = copy_bytes(&lines[i]);
        let ghost pre = out;
        let ghost c_v = c;
        out.push(c);
        proof {
            lemma_deep_view_push(pre, out, c_v);
            assert(pre.deep_view() + (seq![lines.deep_view()[i as int]] + take_until(
                lines.deep_view(),
                i + 1,
                stop@,
            )) =~= out.deep_view() + take_until(lines.deep_view(), i + 1, stop@));
        }
        i += 1;
    }
    proof {
        assert(take_until(lines.deep_view(), lines.deep_view().len() as int, stop@)
            =~= Seq::<Seq<u8>>::empty());
        assert(out.deep_view() + Seq::<Seq<u8>>::empty() =~= out.deep_view());
    }
    (out, i)
}

/// What a failure log's lines mean: `None` when the header or a
/// marker is missing, else the scope base, the ignore prefixes and
/// the three failed-URL blocks in their written order.
pub open spec fn parse_snapshot_lines(lines: Seq<Seq<u8>>) -> Option<
    (Seq<u8>, Seq<Seq<u8>>, Seq<Seq<u8>>, Seq<Seq<u8>>, Seq<Seq<u8>>),
> {
    if lines.len() < 2 {
        None
    } else if !is_prefix_of(base_tag(), lines[0]) {
        None
    } else if lines[1] != marker_ignored() {
        None
    } else {
        let base = lines[0].skip(base_tag().len() as int);
        let i1 = stop_index(lines, 2, marker_failed());
        let i2 = stop_index(lines, i1 + 1, marker_js_css());
        let i3 = stop_index(lines, i2 + 1, marker_imgs());
        if i1 >= lines.len() || i2 >= lines.len() || i3 >= lines.len() {
            None
        } else {
            Some(
                (
                    base,
                    take_until(lines, 2, marker_failed()),
                    take_until(lines, i1 + 1, marker_js_css()),
                    take_until(lines, i2 + 1, marker_imgs()),
                    lines.skip(i3 + 1),
                ),
            )
        }
    }
}

/// Where a block of entries ends at its stop line, the collection
/// gives exactly the entries and stops exactly there.
proof fn lemma_take_until_exact(
    lines: Seq<Seq<u8>>,
    from: int,
    entries: Seq<Seq<u8>>,
    stop: Seq<u8>,
)
    requires
        0 <= from,
        from + entries.len() < lines.len(),
        forall|i: int| 0 <= i < entries.len() ==> lines[from + i] == #[trigger] entries[i],
        lines[from + entries.len()] == stop,
        forall|i: int| 0 <= i < entries.len() ==> #[trigger] entries[i] != stop,
    ensures
        take_until(lines, from, stop) == entries,
        stop_index(lines, from, stop) == from + entries.len(),
    decreases entries.len(),
{
    if entries.len() == 0 {
        assert(lines[from] == stop);
    } else {
        assert(lines[from] == entries[0]);
        assert(forall|i: int|
            0 <= i < entries.skip(1).len() ==> lines[from + 1 + i] == #[trigger] entries.skip(
                1,
            )[i]);
        assert(forall|i: int|
            0 <= i < entries.skip(1).len() ==> #[trigger] entries.skip(1)[i] != stop);
        lemma_take_until_exact(lines, from + 1, entries.skip(1), stop);
        assert(seq![entries[0]] + entries.skip(1) =~= entries);
    }
}

/// No marker line and no header line holds a newline.
proof fn lemma_markers_plain()
    ensures
        !base_tag().contains(NEWLINE),
        !marker_ignored().contains(NEWLINE),
        !marker_failed().contains(NEWLINE),
        !marker_js_css().contains(NEWLINE),
        !marker_imgs().contains(NEWLINE),
{
    assert(!base_tag().contains(NEWLINE)) by {
        if base_tag().contains(NEWLINE) {
            let j = choose|j: int| 0 <= j < base_tag().len() && base_tag()[j] == NEWLINE;
        }
    }
    assert(!marker_ignored().contains(NEWLINE)) by {
        if marker_ignored().contains(NEWLINE) {
            let j = choose|j: int|
                0 <= j < marker_ignored().len() && marker_ignored()[j] == NEWLINE;
        }
    }
    assert(!marker_failed().contains(NEWLINE)) by {
        if marker_failed().contains(NEWLINE) {
            let j = choose|j: int| 0 <= j < marker_failed().len() && marker_failed()[j] == NEWLINE;
        }
    }
    assert(!marker_js_css().contains(NEWLINE)) by {
        if marker_js_css().contains(NEWLINE) {
            let j = choose|j: int| 0 <= j < marker_js_css().len() && marker_js_css()[j] == NEWLINE;
        }
    }
    assert(!marker_imgs().contains(NEWLINE)) by {
        if marker_imgs().contains(NEWLINE) {
            let j = choose|j: int| 0 <= j < marker_imgs().len() && marker_imgs()[j] == NEWLINE;
        }
    }
}

/// Round-trip law for the resumable state: the failure log written at
/// shutdown parses back to exactly the snapshot it was written from.
/// It holds whenever no entry and no scope base holds a newline and
/// no entry equals the marker line that closes its own block.
pub proof fn lemma_failsafe_round_trip(
    base: Seq<u8>,
    ignore: Seq<Seq<u8>>,
    pages: Seq<Seq<u8>>,
    js_css: Seq<Seq<u8>>,
    imgs: Seq<Seq<u8>>,
)
    requires
        !base.contains(NEWLINE),
        forall|i: int| 0 <= i < ignore.len() ==> !(#[trigger] ignore[i]).contains(NEWLINE),
        forall|i: int| 0 <= i < pages.len() ==> !(#[trigger] pages[i]).contains(NEWLINE),
        forall|i: int| 0 <= i < js_css.len() ==> !(#[trigger] js_css[i]).contains(NEWLINE),
        forall|i: int| 0 <= i < imgs.len() ==> !(#[trigger] imgs[i]).contains(NEWLINE),
        forall|i: int| 0 <= i < ignore.len() ==> #[trigger] ignore[i] != marker_failed(),
        forall|i: int| 0 <= i < pages.len() ==> #[trigger] pages[i] != marker_js_css(),
        forall|i: int| 0 <= i < js_css.len() ==> #[trigger] js_css[i] != marker_imgs(),
    ensures
        parse_snapshot_lines(
            parse_lines_spec(lines_of(snapshot_lines(base, ignore, pages, js_css, imgs))),
        ) == Some((base, ignore, pages, js_css, imgs)),
{
    let lines = snapshot_lines(base, ignore, pages, js_css, imgs);
    let n_ig = ignore.len() as int;
    let n_p = pages.len() as int;
    let n_j = js_css.len() as int;
    let n_im = imgs.len() as int;
    lemma_markers_plain();
    assert(lines.len() == 5 + n_ig + n_p + n_j + n_im);
    assert(lines[0] == base_tag() + base);
    assert(lines[1] == marker_ignored());
    assert(forall|i: int| 0 <= i < n_ig ==> lines[2 + i] == #[trigger] ignore[i]);
    assert(lines[2 + n_ig] == marker_failed());
    assert(forall|i: int| 0 <= i < n_p ==> lines[3 + n_ig + i] == #[trigger] pages[i]);
    assert(lines[3 + n_ig + n_p] == marker_js_css());
    assert(forall|i: int| 0 <= i < n_j ==> lines[4 + n_ig + n_p + i] == #[trigger] js_css[i]);
    assert(lines[4 + n_ig + n_p + n_j] == marker_imgs());
    assert(forall|i: int| 0 <= i < n_im ==> lines[5 + n_ig + n_p + n_j + i] == #[trigger] imgs[i]);
    assert(!(base_tag() + base).contains(NEWLINE)) by {
        if (base_tag() + base).contains(NEWLINE) {
            let j = choose|j: int|
                0 <= j < (base_tag() + base).len() && (base_tag() + base)[j] == NEWLINE;
            if j < base_tag().len() {
                assert(base_tag().contains(NEWLINE));
            } else {
                assert(base[j - base_tag().len()] == NEWLINE);
                assert(base.contains(NEWLINE));
            }
        }
    }
    assert(forall|i: int| 0 <= i < lines.len() ==> !(#[trigger] lines[i]).contains(NEWLINE)) by {
        assert forall|i: int| 0 <= i < lines.len() implies !(#[trigger] lines[i]).contains(
            NEWLINE,
        ) by {
            if i == 0 {
            } else if i == 1 {
            } else if i < 2 + n_ig {
                assert(lines[i] == ignore[i - 2]);
            } else if i == 2 + n_ig {
            } else if i < 3 + n_ig + n_p {
                assert(lines[i] == pages[i - 3 - n_ig]);
            } else if i == 3 + n_ig + n_p {
            } else if i < 4 + n_ig + n_p + n_j {
                assert(lines[i] == js_css[i - 4 - n_ig - n_p]);
            } else if i == 4 + n_ig + n_p + n_j {
            } else {
                assert(lines[i] == imgs[i - 5 - n_ig - n_p - n_j]);
            }
        }
    }
    lemma_lines_round_trip(lines);
    assert(is_prefix_of(base_tag(), lines[0])) by {
        assert((base_tag() + base).take(base_tag().len() as int) =~= base_tag());
    }
    assert(lines[0].skip(base_tag().len() as int) =~= base);
    lemma_take_until_exact(lines, 2, ignore, marker_failed());
    lemma_take_until_exact(lines, 3 + n_ig, pages, marker_js_css());
    lemma_take_until_exact(lines, 4 + n_ig + n_p, js_css, marker_imgs());
    assert(lines.skip(5 + n_ig + n_p + n_j) =~= imgs);
}

/// Reads a failure log back: the header gives the scope base and the
/// ignore prefixes, and the tagged blocks give the failed URLs per
/// category. `None` exactly when the header or a marker is missing.
pub fn parse_failsafe(text: &Vec<u8>) -> (r: Option<Snapshot>)
    ensures
        r is Some <==> parse_snapshot_lines(parse_lines_spec(text@)) is Some,
        r matches Some(snap) ==> Some(
            (
                snap.base@,
                snap.ignore.deep_view(),
                snap.pages.deep_view(),
                snap.js_css.deep_view(),
                snap.imgs.deep_view(),
            ),
        ) == parse_snapshot_lines(parse_lines_spec(text@)),
{
    let lines = parse_lines(text);
    let ghost ls = lines.deep_view();
    if lines.len() < 2 {
        return None;
    }
    let tag = base_tag_vec();
    proof {
        lemma_deep_view_index(lines, 0);
        lemma_deep_view_index(lines, 1);
    }
    if !starts_with(&lines[0], &tag) {
        return None;
    }
    let ignored_marker = marker_ignored_vec();
    if !crate::text::bytes_eq(&lines[1], &ignored_marker) {
        return None;
    }
    let mut base: Vec<u8> = Vec::new();
    let mut bi: usize = tag.len();
    while bi < lines[0].len()
        invariant
            base_tag().len() <= bi <= ls[0].len(),
            0 < ls.len(),
            ls == lines.deep_view(),
            lines@[0]@ == ls[0],
            base@ == ls[0].subrange(base_tag().len() as int, bi as int),
        decreases lines[0]@.len() - bi,
    {
        base.push(lines[0][bi]);
        proof {
            assert(ls[0].subrange(base_tag().len() as int, bi + 1) =~= ls[0].subrange(
                base_tag().len() as int,
                bi as int,
            ).push(ls[0][bi as int]));
        }
        bi += 1;
    }
    proof {
        assert(base@ =~= ls[0].skip(base_tag().len() as int));
    }
    let failed_marker = marker_failed_vec();
    let js_marker = marker_js_css_vec();
    let imgs_marker = marker_imgs_vec();
    let (ignore, i1) = collect_until(&lines, 2, &failed_marker);
    if i1 >= lines.len() {
        return None;
    }
    let (pages, i2) = collect_until(&lines, i1 + 1, &js_marker);
    if i2 >= lines.len() {
        return None;
    }
    let (js_css, i3) = collect_until(&lines, i2 + 1, &imgs_marker);
    if i3 >= lines.len() {
        return None;
    }
    let mut imgs: Vec<Vec<u8>> = Vec::new();
    let mut k: usize = i3 + 1;
    proof {
        assert(imgs.deep_view() =~= ls.skip(i3 + 1).take(0));
    }
    while k < lines.len()
        invariant
            i3 + 1 <= k <= lines@.len(),
            ls == lines.deep_view(),
            imgs.deep_view() == ls.skip(i3 + 1).take(k - i3 - 1),
        decreases lines@.len() - k,
    {
        proof {
            lemma_deep_view_index(lines, k as int);
        }
        let c = copy_bytes(&lines[k]);
        let ghost pre = imgs;
        let ghost c_v = c;
        imgs.push(c);
        proof {
            lemma_deep_view_push(pre, imgs, c_v);
            assert(ls.skip(i3 + 1).take(k - i3 - 1).push(ls[k as int]) =~= ls.skip(i3 + 1).take(k
                - i3));
        }
        k += 1;
    }
    proof {
        assert(imgs.deep_view() =~= ls.skip(i3 + 1));
    }
    Some(Snapshot { base, ignore, pages, js_css, imgs })
}

} // verus!
