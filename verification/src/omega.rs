//! A fixed-size batch of items that can be processed in parallel.
use rayon::iter::{IntoParallelIterator, IntoParallelRefIterator, ParallelIterator};
use vstd::prelude::*;

verus! {

/// A batch of exactly `GN` items.
pub struct OmegaIterator<GP, const GN: usize>(pub [GP; GN]);

/// Hands each item of `items` to `f`, with the items spread over rayon's thread pool:
/// `ParallelIterator::map` calls `f` on every item and `collect` gathers the results of
/// the calls in the items' order. The order in which the calls run is not stated.
#[verifier::external_body]
fn par_for_each_owned<GP: Send, F: Fn(GP) + Sync + Send, const GN: usize>(items: [GP; GN], f: F) -> (r: Vec<()>)
    requires
        forall|i: int| 0 <= i < GN ==> call_requires(f, (#[trigger] items@[i],)),
    ensures
        r@.len() == GN,
        forall|i: int| 0 <= i < GN ==> call_ensures(f, (#[trigger] items@[i],), r@[i]),
{
    items.into_par_iter().map(f).collect()
}

/// Hands a reference to each item of `items` to `f`, with the calls spread over rayon's
/// thread pool: `ParallelIterator::map` over `par_iter` calls `f` on every item and
/// `collect` gathers the results of the calls in the items' order.
#[verifier::external_body]
fn par_for_each_ref<GP: Sync, F: Fn(&GP) + Sync + Send, const GN: usize>(items: &[GP; GN], f: F) -> (r: Vec<()>)
    requires
        forall|i: int| 0 <= i < GN ==> call_requires(f, (&#[trigger] items@[i],)),
    ensures
        r@.len() == GN,
        forall|i: int| 0 <= i < GN ==> call_ensures(f, (&#[trigger] items@[i],), r@[i]),
{
    items.par_iter().map(f).collect()
}

impl<GP, const GN: usize> OmegaIterator<GP, GN> {
    /// Consumes the batch, calling `i` on every item in parallel.
    pub fn into_init<F: Fn(GP) + Sync + Send>(self, i: F)
        where GP: Send,
        requires
            forall|k: int| 0 <= k < GN ==> call_requires(i, (#[trigger] self.0@[k],)),
        ensures
            forall|k: int| 0 <= k < GN ==> call_ensures(i, (#[trigger] self.0@[k],), ()),
    {
        let _done = par_for_each_owned(self.0, i);
    }

    /// Calls `i` on a reference to every item, in parallel.
    pub fn iter_init<F: Fn(&GP) + Sync + Send>(&self, i: F)
        where GP: Send + Sync,
        requires
            forall|k: int| 0 <= k < GN ==> call_requires(i, (&#[trigger] self.0@[k],)),
        ensures
            forall|k: int| 0 <= k < GN ==> call_ensures(i, (&#[trigger] self.0@[k],), ()),
    {
        let done = par_for_each_ref(&self.0, i);
        proof {
            assert forall|k: int| 0 <= k < GN implies call_ensures(i, (&#[trigger] self.0@[k],), ()) by {
                assert(done@[k] == ());
            }
        }
    }

    /// Copies the items, in order, into a vector.
    pub fn to_vec(self) -> (v: Vec<GP>)
        where GP: Clone,
        ensures
            v@.len() == GN,
            forall|k: int| 0 <= k < GN ==> cloned::<GP>(self.0@[k], #[trigger] v@[k]),
    {
        let mut v: Vec<GP> = Vec::new();
        let mut k: usize = 0;
        while k < GN
            invariant
                k <= GN,
                v@.len() == k,
                forall|j: int| 0 <= j < k ==> cloned::<GP>(self.0@[j], #[trigger] v@[j]),
            decreases GN - k,
        {
            v.push(self.0[k].clone());
            k = k + 1;
        }
        v
    }
}

/// `Vec::from([T; N])` moves the array's items, in order, into a new vector.
#[verifier::external_body]
fn array_into_vec<GP, const GN: usize>(items: [GP; GN]) -> (v: Vec<GP>)
    ensures
        v@ == items@,
{
    Vec::from(items)
}

/// `<[T; N]>::try_from(Vec<T>)` turns the vector into an array exactly when it holds `N`
/// items; otherwise it hands the vector back.
#[verifier::external_body]
fn vec_into_array<GP, const GN: usize>(v: Vec<GP>) -> (r: Result<[GP; GN], Vec<GP>>)
    ensures
        r is Ok <==> v@.len() == GN,
        r is Ok ==> r->Ok_0@ == v@,
        r is Err ==> r->Err_0@ == v@,
{
    <[GP; GN]>::try_from(v)
}

impl<GP, const GN: usize> OmegaIterator<GP, GN> {
    /// A batch of the items of a vector of exactly `GN` items, in order.
    pub fn from_vec(value: Vec<GP>) -> (r: Self)
        requires
            value@.len() == GN,
        ensures
            r.0@ == value@,
    {
        match vec_into_array(value) {
            Ok(a) => OmegaIterator(a),
            Err(_) => vstd::pervasive::unreached(),
        }
    }

    /// Moves the items, in order, into a vector (the items that iterating the batch yields).
    pub fn into_vec(self) -> (v: Vec<GP>)
        ensures
            v@ == self.0@,
    {
        array_into_vec(self.0)
    }
}

impl<GP, const GN: usize> From<[GP; GN]> for OmegaIterator<GP, GN> {
    fn from(value: [GP; GN]) -> (r: Self)
        ensures
            r.0 == value,
    {
        OmegaIterator(value)
    }
}

impl<GP, const GN: usize> vstd::std_specs::convert::FromSpecImpl<[GP; GN]> for OmegaIterator<GP, GN> {
    open spec fn obeys_from_spec() -> bool {
        true
    }

    open spec fn from_spec(v: [GP; GN]) -> Self {
        OmegaIterator(v)
    }
}

impl<GP, const GN: usize> AsRef<[GP]> for OmegaIterator<GP, GN> {
    fn as_ref(&self) -> (r: &[GP])
        ensures
            r@ == self.0@,
    {
        self.0.as_slice()
    }
}

impl<GP, const GN: usize> AsMut<[GP]> for OmegaIterator<GP, GN> {
    fn as_mut(&mut self) -> (r: &mut [GP])
        ensures
            r@ == old(self).0@,
            final(self).0@ == final(r)@,
    {
        vstd::array::ref_mut_array_unsizing_coercion(&mut self.0)
    }
}

} // verus!
