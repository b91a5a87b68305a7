//! The mirror writer's path mapping: a URL path becomes a local file
//! path under the output directory, with `index.html` synthesized for
//! directory-style HTML URLs. The filesystem work itself is left to
//! the caller; this module only computes the paths.

use vstd::prelude::*;

use crate::text::{is_suffix_of, ends_with, concat_bytes, append_bytes, SLASH};

verus! {

/// The suffix `".html"`.
pub open spec fn html_suffix() -> Seq<u8> {
    seq![46u8, 104u8, 116u8, 109u8, 108u8]
}

/// `path` with its trailing slashes removed.
pub open spec fn trim_trailing_slashes(path: Seq<u8>) -> Seq<u8>
    decreases path.len(),
{
    if path.len() > 0 && path.last() == SLASH {
        trim_trailing_slashes(path.drop_last())
    } else {
        path
    }
}

/// `path` up to, and not including, its last slash; all of `path`
/// has a slash-free tail cut off, so a path without a slash gives the
/// empty sequence.
pub open spec fn parent_of(path: Seq<u8>) -> Seq<u8>
    decreases path.len(),
{
    if path.len() == 0 {
        path
    } else if path.last() == SLASH {
        path.drop_last()
    } else {
        parent_of(path.drop_last())
    }
}

/// A directory-style HTML URL is one whose path does not already end
/// in `".html"`; its mirror file is an `index.html` below the path.
pub open spec fn dir_style(path: Seq<u8>, is_html: bool) -> bool {
    is_html && !is_suffix_of(html_suffix(), path)
}

/// The local file the content of `path` is written to.
pub open spec fn mirror_file_spec(out_dir: Seq<u8>, path: Seq<u8>, is_html: bool) -> Seq<u8> {
    if dir_style(path, is_html) {
        out_dir + path + seq![SLASH] + index_html()
    } else {
        out_dir + path
    }
}

/// The file name `"index.html"`.
pub open spec fn index_html() -> Seq<u8> {
    seq![105u8, 110u8, 100u8, 101u8, 120u8] + html_suffix()
}

/// The directory that must exist before the file is written.
pub open spec fn mirror_dir_spec(out_dir: Seq<u8>, path: Seq<u8>, is_html: bool) -> Seq<u8> {
    if dir_style(path, is_html) {
        out_dir + trim_trailing_slashes(path)
    } else {
        out_dir + parent_of(path)
    }
}

/// Where a fetched resource is written: the directory to create and
/// the file to write.
pub struct WritePlan {
    /// The directory to create, parents included.
    pub dir_path: Vec<u8>,
    /// The file to write the content to.
    pub file_path: Vec<u8>,
}

/// The bytes of `".html"`.
fn html_suffix_vec() -> (r: Vec<u8>)
    ensures
        r@ == html_suffix(),
{
    let mut v: Vec<u8> = Vec::new();
    v.push(46u8);
    v.push(104u8);
    v.push(116u8);
    v.push(109u8);
    v.push(108u8);
    assert(v@ =~= html_suffix());
    v
}

/// The bytes of `"index.html"`.
fn index_html_vec() -> (r: Vec<u8>)
    ensures
        r@ == index_html(),
{
    let mut v: Vec<u8> = Vec::new();
    v.push(105u8);
    v.push(110u8);
    v.push(100u8);
    v.push(101u8);
    v.push(120u8);
    let suffix = html_suffix_vec();
    append_bytes(&mut v, &suffix);
    assert(v@ =~= index_html());
    v
}

/// Computes `path` with its trailing slashes removed.
fn trim_slashes_exec(path: &Vec<u8>) -> (r: Vec<u8>)
    ensures
        r@ == trim_trailing_slashes(path@),
{
    let mut n: usize = path.len();
    proof {
        assert(path@.take(path@.len() as int) =~= path@);
    }
    while n > 0 && path[n - 1] == SLASH
        invariant
            n <= path.len(),
            trim_trailing_slashes(path@) == trim_trailing_slashes(path@.take(n as int)),
        decreases n,
    {
        proof {
            assert(path@.take(n as int).drop_last() =~= path@.take(n - 1));
        }
        n -= 1;
    }
    let mut r: Vec<u8> = Vec::new();
    let mut i: usize = 0;
    while i < n
        invariant
            i <= n <= path.len(),
            r@ == path@.take(n as int).take(i as int),
        decreases n - i,
    {
        proof {
            assert(path@.take(n as int).take(i + 1) =~= path@.take(n as int).take(i as int).push(
                path@[i as int],
            ));
        }
        r.push(path[i]);
        i += 1;
    }
    proof {
        assert(path@.take(n as int).take(n as int) =~= path@.take(n as int));
        if n == path@.len() {
            assert(path@.take(n as int) =~= path@);
        }
    }
    r
}

/// Computes the parent directory part of `path`.
fn parent_exec(path: &Vec<u8>) -> (r: Vec<u8>)
    ensures
        r@ == parent_of(path@),
{
    let mut n: usize = path.len();
    proof {
        assert(path@.take(path@.len() as int) =~= path@);
    }
    while n > 0 && path[n - 1] != SLASH
        invariant
            n <= path.len(),
            parent_of(path@) == parent_of(path@.take(n as int)),
        decreases n,
    {
        proof {
            assert(path@.take(n as int).drop_last() =~= path@.take(n - 1));
        }
        n -= 1;
    }
    let mut r: Vec<u8> = Vec::new();
    if n == 0 {
        assert(parent_of(path@.take(0)) =~= Seq::<u8>::empty());
        return r;
    }
    proof {
        assert(path@.take(n as int).drop_last() =~= path@.take(n - 1));
    }
    let mut i: usize = 0;
    while i < n - 1
        invariant
            1 <= n <= path.len(),
            i <= n - 1,
            r@ == path@.take(n - 1).take(i as int),
        decreases n - i,
    {
        proof {
            assert(path@.take(n - 1).take(i + 1) =~= path@.take(n - 1).take(i as int).push(
                path@[i as int],
            ));
        }
        r.push(path[i]);
        i += 1;
    }
    proof {
        assert(path@.take(n - 1).take(n - 1) =~= path@.take(n - 1));
    }
    r
}

/// Maps a URL path to its mirror write plan: the file is
/// `<out_dir><path>`, except that HTML content whose path does not
/// end in `".html"` goes to `<out_dir><path>/index.html`; the
/// directory to create is the one holding that file.
pub fn mirror_target(out_dir: &Vec<u8>, path: &Vec<u8>, is_html: bool) -> (r: WritePlan)
    ensures
        r.file_path@ == mirror_file_spec(out_dir@, path@, is_html),
        r.dir_path@ == mirror_dir_spec(out_dir@, path@, is_html),
{
    let suffix = html_suffix_vec();
    if is_html && !ends_with(path, &suffix) {
        let mut file = concat_bytes(out_dir, path);
        file.push(SLASH);
        let idx = index_html_vec();
        append_bytes(&mut file, &idx);
        let trimmed = trim_slashes_exec(path);
        let dir = concat_bytes(out_dir, &trimmed);
        assert(file@ =~= out_dir@ + path@ + seq![SLASH] + index_html());
        WritePlan { dir_path: dir, file_path: file }
    } else {
        let file = concat_bytes(out_dir, path);
        let parent = parent_exec(path);
        let dir = concat_bytes(out_dir, &parent);
        WritePlan { dir_path: dir, file_path: file }
    }
}

} // verus!
