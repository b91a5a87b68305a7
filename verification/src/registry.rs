//! The visited/dedup registry and the failure ledgers: sets of URL
//! strings backed by `dashmap::DashSet`, the crate that makes them
//! safe to share between concurrent tasks. The sole mutating
//! operation is the atomic check-and-insert claim.

use vstd::prelude::*;

verus! {

#[verifier::external_type_specification]
#[verifier::external_body]
#[verifier::reject_recursive_types(K)]
#[verifier::reject_recursive_types(S)]
pub struct ExDashSet<K, S>(dashmap::DashSet<K, S>);

/// The set of byte strings a `DashSet` holds.
pub uninterp spec fn dash_elems(s: dashmap::DashSet<Vec<u8>>) -> Set<Seq<u8>>;

/// Relies on `dashmap::DashSet::new`: the new set is empty.
#[verifier::external_body]
fn dash_new() -> (r: dashmap::DashSet<Vec<u8>>)
    ensures
        dash_elems(r) == Set::<Seq<u8>>::empty(),
{
    dashmap::DashSet::new()
}

/// Relies on `dashmap::DashSet::insert`: adds the value and returns
/// whether it was absent before the call.
#[verifier::external_body]
fn dash_insert(s: &mut dashmap::DashSet<Vec<u8>>, v: &Vec<u8>) -> (r: bool)
    ensures
        r == !dash_elems(*old(s)).contains(v@),
        dash_elems(*final(s)) == dash_elems(*old(s)).insert(v@),
{
    s.insert(v.clone())
}

/// Relies on `dashmap::DashSet::contains`: membership of the value.
#[verifier::external_body]
fn dash_contains(s: &dashmap::DashSet<Vec<u8>>, v: &Vec<u8>) -> (r: bool)
    ensures
        r == dash_elems(*s).contains(v@),
{
    s.contains(v)
}

/// Relies on `dashmap::DashSet::iter`: yields each held value exactly
/// once, in an unspecified order.
#[verifier::external_body]
fn dash_items(s: &dashmap::DashSet<Vec<u8>>) -> (r: Vec<Vec<u8>>)
    ensures
        forall|i: int| 0 <= i < r@.len() ==> dash_elems(*s).contains(#[trigger] r@[i]@),
        forall|e: Seq<u8>|
            dash_elems(*s).contains(e) ==> exists|i: int| 0 <= i < r@.len() && #[trigger] r@[i]@ == e,
        forall|i: int, j: int| 0 <= i < j < r@.len() ==> r@[i]@ != r@[j]@,
{
    s.iter().map(|x| x.key().clone()).collect()
}

/// One atomic claim: the claim succeeds exactly when the URL was
/// absent, and afterwards the URL is present either way.
pub open spec fn spec_claim(v: Set<Seq<u8>>, u: Seq<u8>) -> (Set<Seq<u8>>, bool) {
    (v.insert(u), !v.contains(u))
}

/// A concurrency-safe set of URL strings. Its abstract value is the
/// set of byte sequences held.
pub struct Registry {
    inner: dashmap::DashSet<Vec<u8>>,
}

impl View for Registry {
    type V = Set<Seq<u8>>;

    closed spec fn view(&self) -> Set<Seq<u8>> {
        dash_elems(self.inner)
    }
}

impl Registry {
    /// A fresh, empty registry.
    pub fn new() -> (r: Registry)
        ensures
            r@ == Set::<Seq<u8>>::empty(),
    {
        Registry { inner: dash_new() }
    }

    /// Atomically tests membership and inserts if absent; the caller
    /// may enqueue the URL only on success.
    pub fn try_claim(&mut self, url: &Vec<u8>) -> (r: bool)
        ensures
            (final(self)@, r) == spec_claim(old(self)@, url@),
    {
        dash_insert(&mut self.inner, url)
    }

    /// Inserts the URL, keeping it whether or not it was present.
    pub fn record(&mut self, url: &Vec<u8>)
        ensures
            final(self)@ == old(self)@.insert(url@),
    {
        let _ = dash_insert(&mut self.inner, url);
    }

    /// Membership of the URL.
    pub fn contains(&self, url: &Vec<u8>) -> (r: bool)
        ensures
            r == self@.contains(url@),
    {
        dash_contains(&self.inner, url)
    }

    /// Every held URL exactly once, in an unspecified order.
    pub fn items(&self) -> (r: Vec<Vec<u8>>)
        ensures
            forall|i: int| 0 <= i < r@.len() ==> self@.contains(#[trigger] r@[i]@),
            forall|e: Seq<u8>|
                self@.contains(e) ==> exists|i: int| 0 <= i < r@.len() && #[trigger] r@[i]@ == e,
            forall|i: int, j: int| 0 <= i < j < r@.len() ==> r@[i]@ != r@[j]@,
    {
        dash_items(&self.inner)
    }
}

/// Dedup law: of any set of claims of one URL, exactly one succeeds.
/// The first claim of an unclaimed URL succeeds, and because a
/// registry only ever grows, any claim made from any later state -
/// in particular by any other concurrent caller, whatever operations
/// came between - fails.
pub proof fn lemma_claim_exactly_once(v: Set<Seq<u8>>, w: Set<Seq<u8>>, u: Seq<u8>)
    requires
        !v.contains(u),
        spec_claim(v, u).0.subset_of(w),
    ensures
        spec_claim(v, u).1,
        !spec_claim(w, u).1,
{
    assert(v.insert(u).contains(u));
}

} // verus!
