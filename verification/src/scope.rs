//! The scope filter: the scope base is a URL prefix computed once
//! from the seed by truncating its path to a configured segment
//! depth; a link is crawled recursively only when it starts with that
//! prefix and matches no ignore prefix.

use vstd::prelude::*;

use crate::text::{is_prefix_of, starts_with, append_bytes, copy_bytes, lemma_deep_view_index, lemma_deep_view_push, SLASH};
use crate::urls::{url_join, url_path, join_url, path_of_url};

verus! {

/// `s` split on the separator, the part gathered so far in `cur`:
/// every separator byte ends a part, and the remainder after the last
/// separator is a part, so the result never is empty.
pub open spec fn split_acc(s: Seq<u8>, sep: u8, cur: Seq<u8>) -> Seq<Seq<u8>>
    decreases s.len(),
{
    if s.len() == 0 {
        seq![cur]
    } else if s[0] == sep {
        seq![cur] + split_acc(s.skip(1), sep, Seq::empty())
    } else {
        split_acc(s.skip(1), sep, cur.push(s[0]))
    }
}

/// `s` split on the separator byte.
pub open spec fn split_bytes(s: Seq<u8>, sep: u8) -> Seq<Seq<u8>> {
    split_acc(s, sep, Seq::empty())
}

/// Splits `s` on the separator byte.
pub fn split_on(s: &Vec<u8>, sep: u8) -> (r: Vec<Vec<u8>>)
    ensures
        r.deep_view() == split_bytes(s@, sep),
{
    let mut out: Vec<Vec<u8>> = Vec::new();
    let mut cur: Vec<u8> = Vec::new();
    let mut i: usize = 0;
    proof {
        assert(out.deep_view() =~= Seq::<Seq<u8>>::empty());
        assert(Seq::<Seq<u8>>::empty() + split_acc(s@, sep, Seq::empty()) =~= split_bytes(s@, sep));
        assert(s@.skip(0) =~= s@);
    }
    while i < s.len()
        invariant
            i <= s.len(),
            split_bytes(s@, sep) == out.deep_view() + split_acc(s@.skip(i as int), sep, cur@),
        decreases s.len() - i,
    {
        proof {
            assert(s@.skip(i as int).skip(1) =~= s@.skip(i + 1));
            assert(s@.skip(i as int)[0] == s@[i as int]);
        }
        if s[i] == sep {
            let ghost pre_out = out;
            let ghost pre_cur = cur;
            out.push(cur);
            cur = Vec::new();
            proof {
                lemma_deep_view_push(pre_out, out, pre_cur);
                assert(split_acc(s@.skip(i as int), sep, pre_cur@) == seq![pre_cur@] + split_acc(
                    s@.skip(i + 1),
                    sep,
                    Seq::empty(),
                ));
                assert(pre_out.deep_view() + (seq![pre_cur@] + split_acc(
                    s@.skip(i + 1),
                    sep,
                    Seq::empty(),
                )) =~= out.deep_view() + split_acc(s@.skip(i + 1), sep, cur@));
            }
        } else {
            let b = s[i];
            cur.push(b);
        }
        i += 1;
    }
    proof {
        assert(s@.skip(s@.len() as int) =~= Seq::<u8>::empty());
    }
    let ghost pre_out = out;
    let ghost pre_cur = cur;
    out.push(cur);
    proof {
        lemma_deep_view_push(pre_out, out, pre_cur);
        assert(pre_out.deep_view() + seq![pre_cur@] =~= pre_out.deep_view().push(pre_cur@));
    }
    out
}

/// The parts of `parts` that are not empty, in order.
pub open spec fn drop_empty(parts: Seq<Seq<u8>>) -> Seq<Seq<u8>>
    decreases parts.len(),
{
    if parts.len() == 0 {
        Seq::empty()
    } else if parts.last().len() > 0 {
        drop_empty(parts.drop_last()).push(parts.last())
    } else {
        drop_empty(parts.drop_last())
    }
}

/// The non-empty segments of a URL path: what stands between the
/// slashes.
pub open spec fn path_segments(path: Seq<u8>) -> Seq<Seq<u8>> {
    drop_empty(split_bytes(path, SLASH))
}

/// Computes the non-empty segments of `path`.
pub fn segments_of(path: &Vec<u8>) -> (r: Vec<Vec<u8>>)
    ensures
        r.deep_view() == path_segments(path@),
{
    let parts = split_on(path, SLASH);
    let mut out: Vec<Vec<u8>> = Vec::new();
    let mut i: usize = 0;
    while i < parts.len()
        invariant
            i <= parts.len(),
            parts.deep_view() == split_bytes(path@, SLASH),
            out.deep_view() == drop_empty(parts.deep_view().take(i as int)),
        decreases parts.len() - i,
    {
        proof {
            lemma_deep_view_index(parts, i as int);
            assert(parts.deep_view().take(i + 1).drop_last() =~= parts.deep_view().take(i as int));
            assert(parts.deep_view().take(i + 1).last() == parts.deep_view()[i as int]);
        }
        if parts[i].len() > 0 {
            let p = copy_bytes(&parts[i]);
            let ghost pre_out = out;
            let ghost p_v = p;
            out.push(p);
            proof {
                lemma_deep_view_push(pre_out, out, p_v);
            }
        }
        i += 1;
    }
    proof {
        assert(parts.deep_view().take(parts.deep_view().len() as int) =~= parts.deep_view());
    }
    out
}

/// The path made of the given segments, each preceded by a slash.
pub open spec fn path_of_segments(segs: Seq<Seq<u8>>) -> Seq<u8>
    decreases segs.len(),
{
    if segs.len() == 0 {
        Seq::empty()
    } else {
        path_of_segments(segs.drop_last()) + seq![SLASH] + segs.last()
    }
}

/// The scope base path for segment depth `k`: the first `k` segments
/// of the seed's path, with a trailing slash.
pub open spec fn base_path_spec(segs: Seq<Seq<u8>>, k: int) -> Seq<u8> {
    path_of_segments(segs.take(k)) + seq![SLASH]
}

/// Truncates the seed's path to `k` segments. Fails exactly when the
/// path has fewer than `k` segments.
pub fn compute_base_path(path: &Vec<u8>, k: usize) -> (r: Option<Vec<u8>>)
    ensures
        r is Some <==> k <= path_segments(path@).len(),
        r matches Some(b) ==> b@ == base_path_spec(path_segments(path@), k as int),
{
    let segs = segments_of(path);
    if k > segs.len() {
        return None;
    }
    let mut out: Vec<u8> = Vec::new();
    let mut i: usize = 0;
    while i < k
        invariant
            i <= k <= segs.deep_view().len(),
            segs.deep_view() == path_segments(path@),
            out@ == path_of_segments(segs.deep_view().take(i as int)),
        decreases k - i,
    {
        proof {
            lemma_deep_view_index(segs, i as int);
            assert(segs.deep_view().take(i + 1).drop_last() =~= segs.deep_view().take(i as int));
            assert(segs.deep_view().take(i + 1).last() == segs.deep_view()[i as int]);
        }
        out.push(SLASH);
        let seg = copy_bytes(&segs[i]);
        assert(seg@ == segs.deep_view()[i as int]);
        append_bytes(&mut out, &seg);
        proof {
            assert(out@ =~= path_of_segments(segs.deep_view().take(i as int)) + seq![SLASH]
                + segs.deep_view()[i as int]);
        }
        i += 1;
    }
    out.push(SLASH);
    Some(out)
}

/// The scope base of a crawl: the seed truncated to its first `k`
/// path segments, resolved back against the seed. `None` exactly when
/// the seed's path has fewer than `k` segments or the resolution
/// fails.
pub open spec fn scope_base_spec(seed: Seq<u8>, k: int) -> Option<Seq<u8>> {
    if k <= path_segments(url_path(seed)).len() {
        url_join(seed, base_path_spec(path_segments(url_path(seed)), k))
    } else {
        None
    }
}

/// Computes the scope base from the seed URL and the segment depth.
pub fn compute_scope_base(seed: &Vec<u8>, k: usize) -> (r: Option<Vec<u8>>)
    ensures
        r is Some <==> scope_base_spec(seed@, k as int) is Some,
        r matches Some(b) ==> Some(b@) == scope_base_spec(seed@, k as int),
{
    let path = path_of_url(seed);
    match compute_base_path(&path, k) {
        Some(bp) => join_url(seed, &bp),
        None => None,
    }
}

/// A URL is in scope when it starts with the scope base.
pub open spec fn spec_in_scope(u: Seq<u8>, base: Seq<u8>) -> bool {
    is_prefix_of(base, u)
}

/// Whether `u` is inside the crawl scope.
pub fn in_scope(u: &Vec<u8>, base: &Vec<u8>) -> (r: bool)
    ensures
        r == spec_in_scope(u@, base@),
{
    starts_with(u, base)
}

/// A URL is ignored when it starts with one of the ignore prefixes.
pub open spec fn spec_ignored(u: Seq<u8>, ignore: Seq<Seq<u8>>) -> bool {
    exists|i: int| 0 <= i < ignore.len() && is_prefix_of(#[trigger] ignore[i], u)
}

/// Whether `u` matches an ignore prefix.
pub fn is_ignored(u: &Vec<u8>, ignore: &Vec<Vec<u8>>) -> (r: bool)
    ensures
        r == spec_ignored(u@, ignore.deep_view()),
{
    let mut i: usize = 0;
    while i < ignore.len()
        invariant
            i <= ignore.len(),
            forall|j: int| 0 <= j < i ==> !is_prefix_of(#[trigger] ignore.deep_view()[j], u@),
        decreases ignore.len() - i,
    {
        if starts_with(u, &ignore[i]) {
            proof {
                lemma_deep_view_index(*ignore, i as int);
            }
            assert(is_prefix_of(ignore.deep_view()[i as int], u@));
            return true;
        }
        proof {
            lemma_deep_view_index(*ignore, i as int);
        }
        i += 1;
    }
    false
}

} // verus!
