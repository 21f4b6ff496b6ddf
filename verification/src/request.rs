//! What a client asks for: the subscriptions it may call, each with its argument,
//! held in a `hashbrown` hash map with at most one entry per subscription.
use crate::args::{Args, ArgsView};
use crate::keyed::{
    first_by_name, last_by_name, lemma_first_by_name_domain, lemma_last_by_name_domain,
    lemma_sorted_lookup, sorted_names, Named,
};
use crate::omega::OmegaIterator;
use crate::rpc::{functions_of, serves, Database, RPCExecutor};
use crate::text::str_eq;
use vstd::prelude::*;

verus! {

/// `str`'s `Hash::hash` feeds the string into the hasher; what it does to the hasher
/// is not stated.
pub assume_specification<H: core::hash::Hasher>[ <str as core::hash::Hash>::hash::<H> ](
    s: &str,
    state: &mut H,
);

/// A request for the subscription `subscription` with the argument `function`.
#[derive(Clone, Debug)]
pub struct ApplyFor<'a> {
    /// Subscription.
    pub subscription: &'a str,
    /// Argument.
    pub function: Args<'a>,
}

impl<'a> Named for ApplyFor<'a> {
    open spec fn name_view(&self) -> Seq<char> {
        self.subscription@
    }

    fn name_str(&self) -> (r: &str) {
        self.subscription
    }
}

impl<'a> PartialEq for ApplyFor<'a> {
    /// Requests are equal when their subscriptions are.
    fn eq(&self, other: &Self) -> (r: bool) {
        str_eq(self.subscription, other.subscription)
    }
}

impl<'a> vstd::std_specs::cmp::PartialEqSpecImpl for ApplyFor<'a> {
    open spec fn obeys_eq_spec() -> bool {
        true
    }

    open spec fn eq_spec(&self, other: &Self) -> bool {
        self.subscription@ == other.subscription@
    }
}

impl<'a> Eq for ApplyFor<'a> {}

impl<'a> core::hash::Hash for ApplyFor<'a> {
    /// A request hashes as its subscription, so that equal requests hash alike.
    fn hash<H: core::hash::Hasher>(&self, state: &mut H) {
        self.subscription.hash(state)
    }
}

impl<'a> From<(&'a str, Args<'a>)> for ApplyFor<'a> {
    fn from(value: (&'a str, Args<'a>)) -> (r: Self)
        ensures
            r.subscription == value.0,
            r.function == value.1,
    {
        ApplyFor { subscription: value.0, function: value.1 }
    }
}

impl<'a> vstd::std_specs::convert::FromSpecImpl<(&'a str, Args<'a>)> for ApplyFor<'a> {
    open spec fn obeys_from_spec() -> bool {
        true
    }

    open spec fn from_spec(v: (&'a str, Args<'a>)) -> Self {
        ApplyFor { subscription: v.0, function: v.1 }
    }
}

/// The requests of a client, at most one per subscription: a `hashbrown::HashMap` from
/// each subscription to the request held for it. Two requests with the same subscription
/// count as the same request, as `ApplyFor`'s equality says; keying the map by the
/// subscription itself (hashed as `str` hashes) makes its behaviour independent of
/// how a whole request hashes.
#[verifier::external_body]
pub struct Request<'a> {
    map: hashbrown::HashMap<&'a str, ApplyFor<'a>>,
}

/// What a [`Request`] holds: each subscription mapped to the argument of the request
/// stored for it.
pub uninterp spec fn request_entries(r: Request) -> Map<Seq<char>, ArgsView>;

/// `hashbrown::HashMap::new` makes an empty map.
#[verifier::external_body]
fn request_set_new<'a>() -> (fresh: Request<'a>)
    ensures
        request_entries(fresh) =~= Map::empty(),
{
    Request { map: hashbrown::HashMap::new() }
}

/// `hashbrown::HashMap::try_insert`, keyed by the request's subscription, stores the
/// request when no request is held for that subscription and succeeds; otherwise it
/// leaves the map as it was, the request already there included, and fails.
#[verifier::external_body]
fn request_set_insert<'a>(r: &mut Request<'a>, a: ApplyFor<'a>) -> (inserted: bool)
    ensures
        inserted == !request_entries(*old(r)).contains_key(a.subscription@),
        inserted ==> request_entries(*final(r)) == request_entries(*old(r)).insert(
            a.subscription@,
            a.function@,
        ),
        !inserted ==> request_entries(*final(r)) == request_entries(*old(r)),
        request_entries(*final(r)).dom().finite(),
{
    r.map.try_insert(a.subscription, a).is_ok()
}

/// `hashbrown::HashMap::get` with the probe's subscription returns the request held for
/// it, if there is one.
#[verifier::external_body]
fn request_set_get<'a, 'b>(r: &'b Request<'a>, probe: &ApplyFor<'a>) -> (res: Option<&'b ApplyFor<'a>>)
    ensures
        res is Some <==> request_entries(*r).contains_key(probe.subscription@),
        res is Some ==> res->0.subscription@ == probe.subscription@ && res->0.function@
            == request_entries(*r)[probe.subscription@],
{
    r.map.get(probe.subscription)
}

/// `hashbrown::HashMap::len` counts the entries.
#[verifier::external_body]
fn request_set_len<'a>(r: &Request<'a>) -> (n: usize)
    ensures
        n == request_entries(*r).len(),
{
    r.map.len()
}

/// The request `rq` subscribes to exactly the events of the database `d`, each with the
/// event's argument.
pub open spec fn subscribes<'a, F>(rq: Request<'a>, d: Database<'a, F>) -> bool {
    &&& forall|n: Seq<char>| #[trigger] request_entries(rq).contains_key(n)
        <==> last_by_name(d.entries()).contains_key(n)
    &&& forall|n: Seq<char>| #[trigger] request_entries(rq).contains_key(n)
        ==> request_entries(rq)[n] == last_by_name(d.entries())[n].args@
}

/// A server and a client built from the same database agree: every subscription of the
/// client is served, every function served is subscribed to, and the client's argument
/// for a name is that name's event argument.
pub proof fn law_server_answers_client<'a, F>(d: Database<'a, F>, ex: RPCExecutor<'a, F>, rq: Request<'a>)
    requires
        serves(ex, d),
        subscribes(rq, d),
    ensures
        forall|n: Seq<char>| #[trigger] request_entries(rq).contains_key(n)
            <==> functions_of(ex.entries()).contains_key(n),
        forall|n: Seq<char>| #[trigger] request_entries(rq).contains_key(n)
            ==> request_entries(rq)[n] == last_by_name(d.entries())[n].args@,
{
}

/// Looking a subscription up after adding a request for it finds the request's argument
/// when the subscription was new, and the earlier argument otherwise.
pub proof fn law_get_after_insert_request<'a>(before: Request<'a>, after: Request<'a>, a: ApplyFor<'a>, inserted: bool)
    requires
        inserted == !request_entries(before).contains_key(a.subscription@),
        inserted ==> request_entries(after) == request_entries(before).insert(a.subscription@, a.function@),
        !inserted ==> request_entries(after) == request_entries(before),
    ensures
        request_entries(after).contains_key(a.subscription@),
        inserted ==> request_entries(after)[a.subscription@] == a.function@,
        !inserted ==> request_entries(after)[a.subscription@] == request_entries(before)[a.subscription@],
{
}

/// The arguments that a sequence of requests leaves, by subscription, when inserted in
/// order into a set that keeps the element already present.
pub open spec fn first_arguments<'a>(s: Seq<ApplyFor<'a>>) -> Map<Seq<char>, ArgsView> {
    first_by_name(s).map_values(|a: ApplyFor<'a>| a.function@)
}

impl<'a> Request<'a> {
    /// A request with no subscriptions.
    pub fn new() -> (r: Self)
        ensures
            request_entries(r) == Map::<Seq<char>, ArgsView>::empty(),
    {
        request_set_new()
    }

    /// Adds a request unless its subscription is already there; returns whether it was added.
    pub fn insert(&mut self, a: ApplyFor<'a>) -> (inserted: bool)
        ensures
            inserted == !request_entries(*old(self)).contains_key(a.subscription@),
            inserted ==> request_entries(*final(self)) == request_entries(*old(self)).insert(
                a.subscription@,
                a.function@,
            ),
            !inserted ==> request_entries(*final(self)) == request_entries(*old(self)),
    {
        request_set_insert(self, a)
    }

    /// The request held for `subscription`, if any.
    pub fn get(&self, subscription: &'a str) -> (r: Option<&ApplyFor<'a>>)
        ensures
            r is Some <==> request_entries(*self).contains_key(subscription@),
            r is Some ==> r->0.subscription@ == subscription@ && r->0.function@ == request_entries(
                *self,
            )[subscription@],
    {
        let probe = ApplyFor { subscription, function: Args::default() };
        request_set_get(self, &probe)
    }

    /// The number of subscriptions.
    pub fn len(&self) -> (n: usize)
        ensures
            n == request_entries(*self).len(),
    {
        request_set_len(self)
    }

    /// Inserts the requests in order; of requests that share a subscription, the first stays.
    fn from_requests(value: Vec<ApplyFor<'a>>) -> (r: Self)
        ensures
            request_entries(r) == first_arguments(value@),
    {
        let ghost orig = value@;
        let mut items = value;
        let mut et = Request::new();
        let ghost mut k: int = 0;
        proof {
            assert(orig.take(0) =~= Seq::<ApplyFor<'a>>::empty());
            assert(first_arguments(orig.take(0)) =~= request_entries(et));
            assert(items@ =~= orig.skip(0));
        }
        while items.len() > 0
            invariant
                0 <= k <= orig.len(),
                items@ == orig.skip(k),
                request_entries(et) == first_arguments(orig.take(k)),
            decreases items@.len(),
        {
            let x = items.remove(0);
            proof {
                assert(orig[k] == x);
                let t = orig.take(k);
                assert(orig.take(k + 1).drop_last() =~= t);
                assert(orig.take(k + 1).last() == x);
                lemma_first_by_name_domain(t);
                let m = first_by_name(t);
                if m.contains_key(x.subscription@) {
                    assert(first_arguments(orig.take(k + 1)) =~= first_arguments(t));
                } else {
                    assert(first_arguments(orig.take(k + 1)) =~= first_arguments(t).insert(
                        x.subscription@,
                        x.function@,
                    ));
                }
            }
            et.insert(x);
            proof {
                assert(items@ =~= orig.skip(k + 1));
                k = k + 1;
            }
        }
        proof {
            assert(orig.take(k) =~= orig);
        }
        et
    }
}

impl<'a, const GP: usize> From<OmegaIterator<ApplyFor<'a>, GP>> for Request<'a> {
    /// Collects the requests of a batch; of requests that share a subscription, the first stays.
    fn from(value: OmegaIterator<ApplyFor<'a>, GP>) -> (r: Self)
        ensures
            request_entries(r) == first_arguments(value.0@),
    {
        Request::from_requests(value.into_vec())
    }
}

impl<'a, const GP: usize> vstd::std_specs::convert::FromSpecImpl<OmegaIterator<ApplyFor<'a>, GP>> for Request<'a> {
    open spec fn obeys_from_spec() -> bool {
        false
    }

    open spec fn from_spec(v: OmegaIterator<ApplyFor<'a>, GP>) -> Self {
        arbitrary()
    }
}

impl<'a, F> From<Database<'a, F>> for Request<'a> {
    /// Subscribes to every event of the database, with the event's argument.
    fn from(value: Database<'a, F>) -> (r: Self)
        ensures
            subscribes(r, value),
    {
        let ghost db = value.entries();
        let mut items = value.into_events();
        let mut et = Request::new();
        let ghost mut k: int = 0;
        proof {
            assert(items@ =~= db.skip(0));
            lemma_last_by_name_domain(db);
        }
        while items.len() > 0
            invariant
                0 <= k <= db.len(),
                sorted_names(db),
                items@ == db.skip(k),
                forall|n: Seq<char>| #[trigger] request_entries(et).contains_key(n)
                    <==> exists|i: int| 0 <= i < k && #[trigger] db[i].name@ == n,
                forall|i: int| 0 <= i < k ==> request_entries(et).contains_key(#[trigger] db[i].name@)
                    && request_entries(et)[db[i].name@] == db[i].args@,
            decreases items@.len(),
        {
            let e = items.remove(0);
            let ghost old_m = request_entries(et);
            proof {
                assert(e == db[k]);
                assert forall|i: int| 0 <= i < k implies db[i].name@ != e.name@ by {
                    assert(crate::text::name_lt(db[i].name_view(), db[k].name_view()));
                    crate::text::lemma_name_order(e.name@, e.name@, e.name@);
                }
            }
            et.insert(ApplyFor { subscription: e.name, function: e.args });
            proof {
                assert forall|n: Seq<char>| #[trigger] request_entries(et).contains_key(n)
                    <==> exists|i: int| 0 <= i < k + 1 && #[trigger] db[i].name@ == n by {
                    if n == e.name@ {
                        assert(db[k].name@ == n);
                    }
                    if exists|i: int| 0 <= i < k + 1 && #[trigger] db[i].name@ == n {
                        let i = choose|i: int| 0 <= i < k + 1 && #[trigger] db[i].name@ == n;
                        if i < k {
                            assert(old_m.contains_key(n));
                        }
                    }
                }
                assert(items@ =~= db.skip(k + 1));
                k = k + 1;
            }
        }
        proof {
            assert forall|n: Seq<char>| #[trigger] request_entries(et).contains_key(n) implies
                last_by_name(db).contains_key(n) && request_entries(et)[n] == last_by_name(db)[n].args@ by {
                let i = choose|i: int| 0 <= i < k && #[trigger] db[i].name@ == n;
                assert(db[i].name_view() == n);
                lemma_sorted_lookup(db, i);
            }
            assert forall|n: Seq<char>| #[trigger] last_by_name(db).contains_key(n) implies
                request_entries(et).contains_key(n) by {
                let i = choose|i: int| 0 <= i < db.len() && #[trigger] db[i].name_view() == n;
                assert(db[i].name@ == n);
            }
        }
        et
    }
}

impl<'a, F> vstd::std_specs::convert::FromSpecImpl<Database<'a, F>> for Request<'a> {
    open spec fn obeys_from_spec() -> bool {
        false
    }

    open spec fn from_spec(v: Database<'a, F>) -> Self {
        arbitrary()
    }
}

} // verus!
