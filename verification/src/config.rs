//! What the command line decides: a fresh crawl takes a seed URL, an
//! output directory, a scope depth, an optional dispatch delay and
//! optional ignore prefixes; `-a` resumes from persisted state.
//! Invalid arguments are fatal before any work begins.

use vstd::prelude::*;

use crate::scope::{scope_base_spec, compute_scope_base};
use crate::text::{bytes_eq, copy_bytes, copy_vecs, append_bytes, lemma_deep_view_index,
    lemma_deep_view_push, lemma_deep_view_remove};
use crate::urls::{url_parse_norm, normalize_url};

verus! {

/// The byte `'+'`, which a number may carry as sign.
pub const PLUS: u8 = 43;

/// A decimal digit.
pub open spec fn is_digit(b: u8) -> bool {
    48 <= b <= 57
}

/// The value of a decimal digit.
pub open spec fn digit_val(b: u8) -> nat {
    (b - 48) as nat
}

/// The value of a digit string.
pub open spec fn dec_value(s: Seq<u8>) -> nat
    decreases s.len(),
{
    if s.len() == 0 {
        0
    } else {
        dec_value(s.drop_last()) * 10 + digit_val(s.last())
    }
}

/// Every byte is a decimal digit.
pub open spec fn all_digits(s: Seq<u8>) -> bool {
    forall|i: int| 0 <= i < s.len() ==> is_digit(#[trigger] s[i])
}

/// The digits of a number: everything behind an optional leading
/// plus sign.
pub open spec fn digits_part(s: Seq<u8>) -> Seq<u8> {
    if s.len() > 0 && s[0] == PLUS {
        s.skip(1)
    } else {
        s
    }
}

/// A string a 64-bit unsigned parse accepts.
pub open spec fn valid_u64(s: Seq<u8>) -> bool {
    digits_part(s).len() > 0 && all_digits(digits_part(s)) && dec_value(digits_part(s))
        <= u64::MAX
}

/// A string a word-size unsigned parse accepts.
pub open spec fn valid_usize(s: Seq<u8>) -> bool {
    digits_part(s).len() > 0 && all_digits(digits_part(s)) && dec_value(digits_part(s))
        <= usize::MAX
}

/// A longer digit prefix never has a smaller value.
proof fn lemma_dec_value_mono(s: Seq<u8>, k: int)
    requires
        0 <= k <= s.len(),
    ensures
        dec_value(s.take(k)) <= dec_value(s),
    decreases s.len() - k,
{
    if k == s.len() {
        assert(s.take(k) =~= s);
    } else {
        assert(s.take(k + 1).drop_last() =~= s.take(k));
        assert(s.take(k + 1).last() == s[k]);
        assert(dec_value(s.take(k)) <= dec_value(s.take(k)) * 10 + digit_val(s[k]))
            by (nonlinear_arith);
        lemma_dec_value_mono(s, k + 1);
    }
}

/// Parses a decimal 64-bit unsigned number, with an optional leading
/// plus sign: `None` exactly on an empty digit part, a non-digit, or
/// overflow.
pub fn parse_u64(s: &Vec<u8>) -> (r: Option<u64>)
    ensures
        r is Some <==> valid_u64(s@),
        r matches Some(v) ==> v as nat == dec_value(digits_part(s@)),
{
    let start: usize = if s.len() > 0 && s[0] == PLUS {
        1
    } else {
        0
    };
    let ghost d = digits_part(s@);
    proof {
        assert(d =~= s@.skip(start as int));
    }
    if s.len() == start {
        return None;
    }
    let mut acc: u64 = 0;
    let mut j: usize = start;
    proof {
        assert(d.take(0) =~= Seq::<u8>::empty());
    }
    while j < s.len()
        invariant
            start <= j <= s@.len(),
            d == digits_part(s@),
            d == s@.skip(start as int),
            forall|k: int| 0 <= k < j - start ==> is_digit(#[trigger] d[k]),
            acc as nat == dec_value(d.take(j - start)),
        decreases s@.len() - j,
    {
        let b = s[j];
        proof {
            assert(d[j - start] == s@[j as int]);
        }
        if b < 48 || b > 57 {
            proof {
                assert(!is_digit(d[j - start]));
            }
            return None;
        }
        let v: u64 = (b - 48) as u64;
        proof {
            assert(d.take(j - start + 1).drop_last() =~= d.take(j - start));
            assert(d.take(j - start + 1).last() == d[j - start]);
            assert(dec_value(d.take(j - start + 1)) == acc as nat * 10 + v as nat);
        }
        if acc > (u64::MAX - v) / 10 {
            proof {
                assert(acc as nat * 10 + v as nat > u64::MAX as nat) by (nonlinear_arith)
                    requires
                        acc as nat > ((u64::MAX - v) as nat) / 10,
                        v as nat <= 9,
                ;
                lemma_dec_value_mono(d, j - start + 1);
            }
            return None;
        }
        proof {
            assert(acc as nat * 10 + v as nat <= u64::MAX as nat) by (nonlinear_arith)
                requires
                    acc as nat <= ((u64::MAX - v) as nat) / 10,
                    v as nat <= u64::MAX as nat,
            ;
        }
        acc = acc * 10 + v;
        j += 1;
    }
    proof {
        assert(d.take(d.len() as int) =~= d);
    }
    Some(acc)
}

/// Parses a decimal word-size unsigned number, with an optional
/// leading plus sign.
pub fn parse_usize(s: &Vec<u8>) -> (r: Option<usize>)
    ensures
        r is Some <==> valid_usize(s@),
        r matches Some(v) ==> v as nat == dec_value(digits_part(s@)),
{
    match parse_u64(s) {
        Some(v) => {
            if v <= usize::MAX as u64 {
                Some(v as usize)
            } else {
                None
            }
        },
        None => {
            proof {
                assert(usize::MAX as nat <= u64::MAX as nat);
            }
            None
        },
    }
}

/// The flag `"-a"` that asks for a resume.
pub open spec fn dash_a() -> Seq<u8> {
    seq![45u8, 97u8]
}

/// The flag `"-i"` that opens the ignore-prefix list.
pub open spec fn dash_i() -> Seq<u8> {
    seq![45u8, 105u8]
}

/// The bytes of `"-a"`.
pub fn dash_a_vec() -> (r: Vec<u8>)
    ensures
        r@ == dash_a(),
{
    let mut v: Vec<u8> = Vec::new();
    v.push(45u8);
    v.push(97u8);
    assert(v@ =~= dash_a());
    v
}

/// The bytes of `"-i"`.
pub fn dash_i_vec() -> (r: Vec<u8>)
    ensures
        r@ == dash_i(),
{
    let mut v: Vec<u8> = Vec::new();
    v.push(45u8);
    v.push(105u8);
    assert(v@ =~= dash_i());
    v
}

/// A resume invocation: program name, `-a` and a dispatch delay.
pub open spec fn retrying_shape(a: Seq<Seq<u8>>) -> bool {
    a.len() == 3 && a[1] == dash_a()
}

/// Whether a dispatch delay argument is present.
pub open spec fn has_freq_arg(a: Seq<Seq<u8>>) -> bool {
    (a.len() >= 5 && a[4] != dash_i()) || retrying_shape(a)
}

/// Where the dispatch delay argument stands.
pub open spec fn freq_idx(a: Seq<Seq<u8>>) -> int {
    if retrying_shape(a) {
        2
    } else {
        4
    }
}

/// The arguments with the dispatch delay taken out.
pub open spec fn after_freq(a: Seq<Seq<u8>>) -> Seq<Seq<u8>> {
    if has_freq_arg(a) {
        a.remove(freq_idx(a))
    } else {
        a
    }
}

/// A resume command: what is left is the program name and `-a`.
pub open spec fn resume_shape(a: Seq<Seq<u8>>) -> bool {
    after_freq(a).len() == 2 && after_freq(a)[1] == dash_a()
}

/// A fresh command's shape holds when seed, directory and depth are
/// there, and anything more stands behind `-i`.
pub open spec fn fresh_shape(a: Seq<Seq<u8>>) -> bool {
    after_freq(a).len() >= 4 && (after_freq(a).len() > 5 ==> after_freq(a)[4] == dash_i())
}

/// The ignore prefixes given behind `-i`.
pub open spec fn ignore_args(a: Seq<Seq<u8>>) -> Seq<Seq<u8>> {
    if after_freq(a).len() > 5 {
        after_freq(a).skip(5)
    } else {
        Seq::empty()
    }
}

/// What the command line asked for.
#[derive(Debug)]
pub enum Command {
    /// Resume from persisted state, with a dispatch delay in
    /// milliseconds.
    Resume {
        /// The per-dispatch delay in milliseconds.
        freq: u64,
    },
    /// Start a fresh crawl.
    Fresh {
        /// The seed URL, as given.
        url: Vec<u8>,
        /// The output directory.
        dir: Vec<u8>,
        /// The scope path-depth.
        base_index: usize,
        /// The per-dispatch delay in milliseconds.
        freq: u64,
        /// The ignore prefixes, relative to the scope base.
        ignore: Vec<Vec<u8>>,
    },
}

/// Why an invocation was rejected before any work began.
#[derive(Debug)]
pub enum ArgError {
    /// The argument shape fits no command.
    Usage,
    /// The dispatch delay is not a number.
    BadFreq(Vec<u8>),
    /// The scope depth is not a number.
    BadBase(Vec<u8>),
    /// The seed does not parse as an absolute URL.
    BadUrl,
    /// The seed's path has fewer segments than the scope depth asks.
    BadScope,
}

/// Reads the command line: the dispatch delay is parsed first and a
/// bad one is fatal on its own; then `-a` selects a resume, and
/// anything else must be seed, directory and depth, with ignore
/// prefixes behind `-i`.
pub fn parse_args(args: &Vec<Vec<u8>>) -> (r: Result<Command, ArgError>)
    ensures
        ({
            let a = args.deep_view();
            has_freq_arg(a) && !valid_u64(a[freq_idx(a)]) ==> (r matches Err(e) && e matches
                ArgError::BadFreq(b) && b@ == a[freq_idx(a)])
        }),
        (has_freq_arg(args.deep_view()) ==> valid_u64(args.deep_view()[freq_idx(args.deep_view())]))
            ==> {
            let a = args.deep_view();
            let freq_val = if has_freq_arg(a) {
                dec_value(digits_part(a[freq_idx(a)]))
            } else {
                0
            };
            if resume_shape(a) {
                r matches Ok(c) && c matches Command::Resume { freq } && freq as nat == freq_val
            } else if !fresh_shape(a) {
                r matches Err(e) && e is Usage
            } else if !valid_usize(after_freq(a)[3]) {
                r matches Err(e) && e matches ArgError::BadBase(b) && b@ == after_freq(a)[3]
            } else {
                r matches Ok(c) && c matches Command::Fresh { url, dir, base_index, freq, ignore }
                    && url@ == after_freq(a)[1] && dir@ == after_freq(a)[2] && base_index as nat
                    == dec_value(digits_part(after_freq(a)[3])) && freq as nat == freq_val
                    && ignore.deep_view() == ignore_args(a)
            }
        },
{
    let ghost a = args.deep_view();
    let a_flag = dash_a_vec();
    let i_flag = dash_i_vec();
    proof {
        if args@.len() > 1 {
            lemma_deep_view_index(*args, 1);
        }
        if args@.len() > 4 {
            lemma_deep_view_index(*args, 4);
        }
    }
    let retrying = args.len() == 3 && bytes_eq(&args[1], &a_flag);
    let has_freq = (args.len() >= 5 && !bytes_eq(&args[4], &i_flag)) || retrying;
    let fidx: usize = if retrying {
        2
    } else {
        4
    };
    proof {
        assert(retrying == retrying_shape(a));
        assert(has_freq == has_freq_arg(a));
        assert(has_freq ==> fidx as int == freq_idx(a));
    }
    let freq: u64 = if has_freq {
        proof {
            lemma_deep_view_index(*args, fidx as int);
        }
        match parse_u64(&args[fidx]) {
            Some(f) => f,
            None => {
                return Err(ArgError::BadFreq(copy_bytes(&args[fidx])));
            },
        }
    } else {
        0
    };
    let mut rest = copy_vecs(args);
    if has_freq {
        let ghost pre = rest;
        let _ = rest.remove(fidx);
        proof {
            lemma_deep_view_remove(pre, rest, fidx as int);
        }
    }
    proof {
        assert(rest.deep_view() == after_freq(a));
        if rest@.len() > 1 {
            lemma_deep_view_index(rest, 1);
        }
        if rest@.len() > 4 {
            lemma_deep_view_index(rest, 4);
        }
    }
    if rest.len() == 2 && bytes_eq(&rest[1], &a_flag) {
        return Ok(Command::Resume { freq });
    }
    if rest.len() < 4 {
        return Err(ArgError::Usage);
    }
    if rest.len() > 5 && !bytes_eq(&rest[4], &i_flag) {
        return Err(ArgError::Usage);
    }
    proof {
        lemma_deep_view_index(rest, 3);
    }
    let base_index = match parse_usize(&rest[3]) {
        Some(v) => v,
        None => {
            return Err(ArgError::BadBase(copy_bytes(&rest[3])));
        },
    };
    proof {
        lemma_deep_view_index(rest, 1);
        lemma_deep_view_index(rest, 2);
    }
    let url = copy_bytes(&rest[1]);
    let dir = copy_bytes(&rest[2]);
    let mut ignore: Vec<Vec<u8>> = Vec::new();
    proof {
        assert(ignore.deep_view() =~= Seq::<Seq<u8>>::empty());
    }
    if rest.len() > 5 {
        let mut j: usize = 5;
        proof {
            assert(ignore.deep_view() =~= rest.deep_view().skip(5).take(0));
        }
        while j < rest.len()
            invariant
                5 <= j <= rest@.len(),
                5 < rest@.len(),
                rest.deep_view() == after_freq(a),
                ignore.deep_view() == rest.deep_view().skip(5).take(j - 5),
            decreases rest@.len() - j,
        {
            proof {
                lemma_deep_view_index(rest, j as int);
            }
            let c = copy_bytes(&rest[j]);
            let ghost pre = ignore;
            let ghost c_v = c;
            ignore.push(c);
            proof {
                lemma_deep_view_push(pre, ignore, c_v);
                assert(rest.deep_view().skip(5).take(j - 5).push(rest.deep_view()[j as int])
                    =~= rest.deep_view().skip(5).take(j - 4));
            }
            j += 1;
        }
        proof {
            assert(ignore.deep_view() =~= rest.deep_view().skip(5));
        }
    }
    proof {
        assert(ignore.deep_view() == ignore_args(a));
    }
    Ok(Command::Fresh { url, dir, base_index, freq, ignore })
}

/// The ignore prefixes each put behind the scope base.
pub open spec fn prefixed_ignores(base: Seq<u8>, igs: Seq<Seq<u8>>) -> Seq<Seq<u8>> {
    igs.map_values(|g: Seq<u8>| base + g)
}

/// Everything a fresh crawl starts from: the normalized seed, the
/// scope base, and the absolute ignore prefixes.
pub struct FreshPlan {
    /// The canonical seed URL.
    pub seed: Vec<u8>,
    /// The scope base computed from the seed and the depth.
    pub scope_base: Vec<u8>,
    /// The ignore prefixes, each put behind the scope base.
    pub ignore: Vec<Vec<u8>>,
}

/// Prepares a fresh crawl: normalizes the seed, computes the scope
/// base at the given depth, and puts each ignore prefix behind it.
/// An unparseable seed and a depth deeper than the seed's path are
/// each fatal.
pub fn plan_fresh(url: &Vec<u8>, base_index: usize, ignore: &Vec<Vec<u8>>) -> (r: Result<
    FreshPlan,
    ArgError,
>)
    ensures
        url_parse_norm(url@) is None ==> (r matches Err(e) && e is BadUrl),
        url_parse_norm(url@) matches Some(seed) ==> match scope_base_spec(
            seed,
            base_index as int,
        ) {
            Option::None => r matches Err(e) && e is BadScope,
            Option::Some(sb) => r matches Ok(plan) && plan.seed@ == seed && plan.scope_base@ == sb
                && plan.ignore.deep_view() == prefixed_ignores(sb, ignore.deep_view()),
        },
{
    let seed = match normalize_url(url) {
        Some(seed) => seed,
        None => {
            return Err(ArgError::BadUrl);
        },
    };
    let scope_base = match compute_scope_base(&seed, base_index) {
        Some(sb) => sb,
        None => {
            return Err(ArgError::BadScope);
        },
    };
    let mut out: Vec<Vec<u8>> = Vec::new();
    let mut j: usize = 0;
    proof {
        assert(out.deep_view() =~= prefixed_ignores(scope_base@, ignore.deep_view().take(0)));
    }
    while j < ignore.len()
        invariant
            j <= ignore@.len(),
            out.deep_view() == prefixed_ignores(scope_base@, ignore.deep_view().take(j as int)),
        decreases ignore@.len() - j,
    {
        proof {
            lemma_deep_view_index(*ignore, j as int);
        }
        let mut p = copy_bytes(&scope_base);
        append_bytes(&mut p, &ignore[j]);
        let ghost pre = out;
        let ghost p_v = p;
        out.push(p);
        proof {
            lemma_deep_view_push(pre, out, p_v);
            assert(prefixed_ignores(scope_base@, ignore.deep_view().take(j as int)).push(
                scope_base@ + ignore.deep_view()[j as int],
            ) =~= prefixed_ignores(scope_base@, ignore.deep_view().take(j + 1)));
        }
        j += 1;
    }
    proof {
        assert(ignore.deep_view().take(ignore.deep_view().len() as int) =~= ignore.deep_view());
    }
    Ok(FreshPlan { seed, scope_base, ignore: out })
}

/// Each URL normalized, an unparseable one standing as empty.
pub open spec fn normalized_urls(us: Seq<Seq<u8>>) -> Seq<Seq<u8>> {
    us.map_values(
        |u: Seq<u8>|
            match url_parse_norm(u) {
                Option::Some(c) => c,
                Option::None => Seq::<u8>::empty(),
            },
    )
}

/// Every URL parses.
pub open spec fn all_urls_parse(us: Seq<Seq<u8>>) -> bool {
    forall|i: int| 0 <= i < us.len() ==> url_parse_norm(#[trigger] us[i]) is Some
}

/// Re-parses a block of persisted URLs for re-seeding a queue:
/// `None` exactly when one of them no longer parses, which makes the
/// resume state unreadable.
pub fn normalize_seeds(urls: &Vec<Vec<u8>>) -> (r: Option<Vec<Vec<u8>>>)
    ensures
        r is Some <==> all_urls_parse(urls.deep_view()),
        r matches Some(out) ==> out.deep_view() == normalized_urls(urls.deep_view()),
{
    let mut out: Vec<Vec<u8>> = Vec::new();
    let mut j: usize = 0;
    proof {
        assert(out.deep_view() =~= normalized_urls(urls.deep_view().take(0)));
    }
    while j < urls.len()
        invariant
            j <= urls@.len(),
            forall|k: int| 0 <= k < j ==> url_parse_norm(#[trigger] urls.deep_view()[k]) is Some,
            out.deep_view() == normalized_urls(urls.deep_view().take(j as int)),
        decreases urls@.len() - j,
    {
        proof {
            lemma_deep_view_index(*urls, j as int);
        }
        match normalize_url(&urls[j]) {
            Some(c) => {
                let ghost pre = out;
                let ghost c_v = c;
                out.push(c);
                proof {
                    lemma_deep_view_push(pre, out, c_v);
                    assert(normalized_urls(urls.deep_view().take(j as int)).push(
                        normalized_urls(urls.deep_view().take(j + 1)).last(),
                    ) =~= normalized_urls(urls.deep_view().take(j + 1)));
                }
            },
            None => {
                return None;
            },
        }
        j += 1;
    }
    proof {
        assert(urls.deep_view().take(urls.deep_view().len() as int) =~= urls.deep_view());
    }
    Some(out)
}

} // verus!
