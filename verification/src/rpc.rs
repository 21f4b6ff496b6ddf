//! The registry of remote procedures: named events collected into a database,
//! and the executor that maps each name to a callable function.
use crate::args::Args;
use crate::keyed::{
    first_by_name, has_name, last_by_name, lemma_first_by_name_domain, lemma_has_name_push,
    lemma_last_by_name_domain, lemma_sorted_insert, lemma_sorted_lookup, lemma_sorted_replace,
    locate, sorted_names, Named,
};
use crate::omega::OmegaIterator;
use crate::text::str_eq;
use crate::urn::{counter_urn, counter_urn_string, lemma_counter_urn_injective, lemma_counter_urn_shape};
use vstd::prelude::*;

verus! {

/// A named remote procedure: its name, its default argument and its function.
pub struct Event<'a, F> {
    /// Name.
    pub name: &'a str,
    /// Argument.
    pub args: Args<'a>,
    /// Function.
    pub function: F,
}

impl<'a, F> Named for Event<'a, F> {
    open spec fn name_view(&self) -> Seq<char> {
        self.name@
    }

    fn name_str(&self) -> (r: &str) {
        self.name
    }
}

impl<'a, F> PartialEq for Event<'a, F> {
    /// Events are equal when their names are.
    fn eq(&self, other: &Self) -> (r: bool) {
        str_eq(self.name, other.name)
    }
}

impl<'a, F> vstd::std_specs::cmp::PartialEqSpecImpl for Event<'a, F> {
    open spec fn obeys_eq_spec() -> bool {
        true
    }

    open spec fn eq_spec(&self, other: &Self) -> bool {
        self.name@ == other.name@
    }
}

impl<'a, F> Eq for Event<'a, F> {}

impl<'a, F> core::hash::Hash for Event<'a, F> {
    /// An event hashes as its name, so that equal events hash alike.
    fn hash<H: core::hash::Hasher>(&self, state: &mut H) {
        self.name.hash(state)
    }
}

/// The events of a service, at most one per name, in increasing name order.
pub struct Database<'a, F>(Vec<Event<'a, F>>);

impl<'a, F> Database<'a, F> {
    #[verifier::type_invariant]
    spec fn sorted(self) -> bool {
        sorted_names(self.0@)
    }

    /// The events, in increasing name order.
    pub closed spec fn entries(self) -> Seq<Event<'a, F>> {
        self.0@
    }

    /// An empty database.
    pub fn new() -> (r: Self)
        ensures
            r.entries() == Seq::<Event<'a, F>>::empty(),
    {
        Database(Vec::new())
    }

    /// Adds an event unless one with the same name is already there, which then stays.
    /// Returns whether the event was added.
    pub fn insert(&mut self, e: Event<'a, F>) -> (inserted: bool)
        ensures
            sorted_names(final(self).entries()),
            inserted == !has_name(old(self).entries(), e.name@),
            inserted ==> last_by_name(final(self).entries()) == last_by_name(
                old(self).entries(),
            ).insert(e.name@, e),
            !inserted ==> final(self).entries() == old(self).entries(),
    {
        proof { use_type_invariant(&*self); }
        let (p, found) = locate(&self.0, e.name);
        if found {
            proof {
                assert(self.0@[p as int].name_view() == e.name@);
            }
            false
        } else {
            proof { lemma_sorted_insert(self.0@, p as int, e); }
            let mut v = Vec::new();
            std::mem::swap(&mut v, &mut self.0);
            v.insert(p, e);
            self.0 = v;
            true
        }
    }

    /// The events, in increasing name order.
    pub fn events(&self) -> (r: &Vec<Event<'a, F>>)
        ensures
            r@ == self.entries(),
            sorted_names(r@),
    {
        proof { use_type_invariant(self); }
        &self.0
    }

    /// Gives up the events, in increasing name order.
    pub fn into_events(self) -> (r: Vec<Event<'a, F>>)
        ensures
            r@ == self.entries(),
            sorted_names(r@),
    {
        proof { use_type_invariant(&self); }
        self.0
    }

    /// The number of events.
    pub fn len(&self) -> (r: usize)
        ensures
            r == self.entries().len(),
    {
        self.0.len()
    }
}

impl<'a, F, const NP: usize> From<OmegaIterator<Event<'a, F>, NP>> for Database<'a, F> {
    /// Collects the events of a batch; of events that share a name, the first stays.
    fn from(value: OmegaIterator<Event<'a, F>, NP>) -> (r: Self)
        ensures
            sorted_names(r.entries()),
            last_by_name(r.entries()) == first_by_name(value.0@),
    {
        let ghost orig = value.0@;
        let mut items = value.into_vec();
        let mut et: Database<'a, F> = Database::new();
        let ghost mut k: int = 0;
        proof {
            assert(orig.take(0) =~= Seq::<Event<'a, F>>::empty());
            assert(items@ =~= orig.skip(0));
        }
        while items.len() > 0
            invariant
                0 <= k <= orig.len(),
                items@ == orig.skip(k),
                sorted_names(et.entries()),
                last_by_name(et.entries()) == first_by_name(orig.take(k)),
                forall|n: Seq<char>| has_name(et.entries(), n) <==> has_name(orig.take(k), n),
            decreases items@.len(),
        {
            let x = items.remove(0);
            let ghost old_et = et.entries();
            proof {
                assert(x == orig[k]);
                assert(orig.take(k + 1) =~= orig.take(k).push(x));
                assert(orig.take(k + 1).drop_last() =~= orig.take(k));
                lemma_first_by_name_domain(orig.take(k));
                lemma_last_by_name_domain(old_et);
            }
            let inserted = et.insert(x);
            proof {
                let n = x.name@;
                assert forall|m: Seq<char>| has_name(et.entries(), m) <==> has_name(orig.take(k + 1), m) by {
                    lemma_has_name_push(orig.take(k), x, m);
                    assert(has_name(orig.take(k), m) <==> has_name(old_et, m));
                    assert(has_name(orig.take(k), n) <==> has_name(old_et, n));
                    if inserted {
                        lemma_last_by_name_domain(et.entries());
                        lemma_last_by_name_domain(old_et);
                        assert(last_by_name(et.entries()).contains_key(m) <==> (last_by_name(
                            old_et,
                        ).contains_key(m) || m == n));
                    } else {
                        assert(et.entries() == old_et);
                    }
                }
                assert(items@ =~= orig.skip(k + 1));
                k = k + 1;
            }
        }
        proof {
            assert(orig.take(k) =~= orig);
        }
        et
    }
}

impl<'a, F, const NP: usize> vstd::std_specs::convert::FromSpecImpl<OmegaIterator<Event<'a, F>, NP>> for Database<'a, F> {
    open spec fn obeys_from_spec() -> bool {
        false
    }

    open spec fn from_spec(v: OmegaIterator<Event<'a, F>, NP>) -> Self {
        arbitrary()
    }
}

/// A lower-case hexadecimal digit.
pub open spec fn is_lower_hex(c: char) -> bool {
    ('0' <= c && c <= '9') || ('a' <= c && c <= 'f')
}

/// The shape of a version-4 UUID written as a URN, as in
/// `urn:uuid:67e55044-10b1-426f-9247-bb680e5fe0c8`: the prefix `urn:uuid:`, then
/// lower-case hexadecimal digits in groups of 8, 4, 4, 4 and 12 joined by hyphens,
/// with the version digit `4` and a variant digit among `8`, `9`, `a`, `b`.
pub open spec fn is_v4_urn(s: Seq<char>) -> bool {
    &&& s.len() == 45
    &&& s[0] == 'u' && s[1] == 'r' && s[2] == 'n' && s[3] == ':'
    &&& s[4] == 'u' && s[5] == 'u' && s[6] == 'i' && s[7] == 'd' && s[8] == ':'
    &&& forall|i: int|
        9 <= i < 45 ==> if i == 17 || i == 22 || i == 27 || i == 32 {
            #[trigger] s[i] == '-'
        } else {
            is_lower_hex(s[i])
        }
    &&& s[23] == '4'
    &&& (s[28] == '8' || s[28] == '9' || s[28] == 'a' || s[28] == 'b')
}

/// `uuid::Uuid::new_v4` draws a random version-4 UUID; `Urn::from_uuid(..).to_string()`
/// writes it as a lower-case URN. Which UUID is drawn is left open; its shape is stated.
#[verifier::external_body]
fn new_v4_urn() -> (r: String)
    ensures
        is_v4_urn(r@),
{
    uuid::fmt::Urn::from_uuid(uuid::Uuid::new_v4()).to_string()
}

/// A function of the executor, with an identifier of its own.
pub struct Function<F> {
    /// Identifier.
    id: String,
    /// Function.
    pub start: F,
}

impl<F> Function<F> {
    /// The identifier.
    pub closed spec fn id_view(self) -> Seq<char> {
        self.id@
    }

    /// The function it holds.
    pub closed spec fn start_fn(self) -> F {
        self.start
    }

    /// The identifier.
    pub fn id(&self) -> (r: &str)
        ensures
            r@ == self.id_view(),
    {
        self.id.as_str()
    }
}

impl<F> From<F> for Function<F> {
    /// Wraps a function under a fresh random identifier.
    fn from(value: F) -> (r: Self)
        ensures
            r.start_fn() == value,
            is_v4_urn(r.id_view()),
    {
        Function { id: new_v4_urn(), start: value }
    }
}

impl<F> vstd::std_specs::convert::FromSpecImpl<F> for Function<F> {
    open spec fn obeys_from_spec() -> bool {
        false
    }

    open spec fn from_spec(v: F) -> Self {
        arbitrary()
    }
}

impl<F> PartialEq for Function<F> {
    /// Functions are equal when their identifiers are.
    fn eq(&self, other: &Self) -> (r: bool) {
        str_eq(self.id.as_str(), other.id.as_str())
    }
}

impl<F> vstd::std_specs::cmp::PartialEqSpecImpl for Function<F> {
    open spec fn obeys_eq_spec() -> bool {
        true
    }

    open spec fn eq_spec(&self, other: &Self) -> bool {
        self.id_view() == other.id_view()
    }
}

impl<F> Eq for Function<F> {}

impl<F> core::hash::Hash for Function<F> {
    /// A function hashes as its identifier, so that equal functions hash alike.
    fn hash<H: core::hash::Hasher>(&self, state: &mut H) {
        self.id.as_str().hash(state)
    }
}

/// Some entry of `fs` holds its function under the identifier `id`.
pub open spec fn id_held<'a, F>(fs: Seq<(&'a str, Function<F>)>, id: Seq<char>) -> bool {
    exists|i: int| 0 <= i < fs.len() && #[trigger] fs[i].1.id_view() == id
}

/// Whether some entry of `fs` holds its function under the identifier `id`.
fn id_taken<'a, F>(fs: &Vec<(&'a str, Function<F>)>, id: &str) -> (r: bool)
    ensures
        r <==> id_held(fs@, id@),
{
    let mut i: usize = 0;
    while i < fs.len()
        invariant
            i <= fs.len(),
            forall|k: int| 0 <= k < i ==> (#[trigger] fs@[k]).1.id_view() != id@,
        decreases fs.len() - i,
    {
        if str_eq(fs[i].1.id.as_str(), id) {
            proof {
                assert(fs@[i as int].1.id_view() == id@);
            }
            return true;
        }
        i = i + 1;
    }
    false
}

/// A sequence of distinct indices below `n` has at most `n` elements.
proof fn lemma_distinct_indices(w: Seq<int>, n: int)
    requires
        0 <= n,
        w.no_duplicates(),
        forall|k: int| 0 <= k < w.len() ==> 0 <= #[trigger] w[k] < n,
    ensures
        w.len() <= n,
{
    w.unique_seq_to_set();
    vstd::set_lib::lemma_int_range(0, n);
    vstd::set_lib::lemma_len_subset(w.to_set(), vstd::set_lib::set_int_range(0, n));
}

/// An identifier of URN shape that no entry of `fs` holds: a freshly drawn random one
/// or, should the draw meet an identifier already held, the first free one of the
/// numbered identifiers.
fn fresh_urn<'a, F>(fs: &Vec<(&'a str, Function<F>)>) -> (r: String)
    ensures
        is_v4_urn(r@),
        !id_held(fs@, r@),
{
    let drawn = new_v4_urn();
    if !id_taken(fs, drawn.as_str()) {
        return drawn;
    }
    let n = fs.len();
    let mut j: usize = 0;
    let ghost mut w: Seq<int> = Seq::empty();
    loop
        invariant
            j <= n,
            n == fs.len(),
            w.len() == j,
            forall|k: int|
                0 <= k < j ==> 0 <= #[trigger] w[k] < n && fs@[w[k]].1.id_view() == counter_urn(
                    k as u64,
                ),
        decreases n - j,
    {
        let c = counter_urn_string(j as u64);
        if !id_taken(fs, c.as_str()) {
            proof {
                lemma_counter_urn_shape(j as u64);
            }
            return c;
        }
        proof {
            let i = choose|i: int| 0 <= i < fs@.len() && #[trigger] fs@[i].1.id_view() == c@;
            let w2 = w.push(i);
            assert forall|k1: int, k2: int|
                0 <= k1 < w2.len() && 0 <= k2 < w2.len() && k1 != k2 implies w2[k1] != w2[k2] by {
                if w2[k1] == w2[k2] {
                    assert(counter_urn(k1 as u64) == counter_urn(k2 as u64));
                    lemma_counter_urn_injective(k1 as u64, k2 as u64);
                }
            }
            lemma_distinct_indices(w2, n as int);
            w = w2;
        }
        j = j + 1;
    }
}

impl<'a, F> Named for (&'a str, Function<F>) {
    open spec fn name_view(&self) -> Seq<char> {
        self.0@
    }

    fn name_str(&self) -> (r: &str) {
        self.0
    }
}

/// The functions that a sequence of named entries leaves, by name, when inserted in
/// order into a map that replaces on a repeated name.
pub open spec fn functions_of<'a, F>(s: Seq<(&'a str, Function<F>)>) -> Map<Seq<char>, Function<F>> {
    last_by_name(s).map_values(|e: (&'a str, Function<F>)| e.1)
}

/// The executor `ex` serves exactly the events of the database `d`: each name of `d`
/// maps to the function of its event, under an identifier of URN shape, and functions
/// served under different names hold different identifiers.
pub open spec fn serves<'a, F>(ex: RPCExecutor<'a, F>, d: Database<'a, F>) -> bool {
    &&& forall|n: Seq<char>| #[trigger] functions_of(ex.entries()).contains_key(n)
        <==> last_by_name(d.entries()).contains_key(n)
    &&& forall|n: Seq<char>| #[trigger] functions_of(ex.entries()).contains_key(n) ==> {
        &&& functions_of(ex.entries())[n].start_fn() == last_by_name(d.entries())[n].function
        &&& is_v4_urn(functions_of(ex.entries())[n].id_view())
    }
    &&& forall|n1: Seq<char>, n2: Seq<char>|
        #[trigger] functions_of(ex.entries()).contains_key(n1) && #[trigger] functions_of(
            ex.entries(),
        ).contains_key(n2) && n1 != n2 ==> functions_of(ex.entries())[n1].id_view()
            != functions_of(ex.entries())[n2].id_view()
}

/// Looking a name up after mapping it to a function finds that function, and every other
/// name is looked up as before.
pub proof fn law_get_after_insert<'a, F>(
    before: RPCExecutor<'a, F>,
    after: RPCExecutor<'a, F>,
    name: Seq<char>,
    f: Function<F>,
    other: Seq<char>,
)
    requires
        functions_of(after.entries()) == functions_of(before.entries()).insert(name, f),
    ensures
        functions_of(after.entries()).contains_key(name),
        functions_of(after.entries())[name] == f,
        other != name ==> (functions_of(after.entries()).contains_key(other)
            == functions_of(before.entries()).contains_key(other)),
        other != name && functions_of(before.entries()).contains_key(other) ==> functions_of(
            after.entries(),
        )[other] == functions_of(before.entries())[other],
{
}

/// The functions that an executor built from a database serves under two different
/// names are different functions: their identifiers differ, so they do not compare equal.
pub proof fn law_served_functions_differ<'a, F>(
    ex: RPCExecutor<'a, F>,
    d: Database<'a, F>,
    n1: Seq<char>,
    n2: Seq<char>,
)
    requires
        serves(ex, d),
        last_by_name(d.entries()).contains_key(n1),
        last_by_name(d.entries()).contains_key(n2),
        n1 != n2,
    ensures
        functions_of(ex.entries()).contains_key(n1),
        functions_of(ex.entries()).contains_key(n2),
        functions_of(ex.entries())[n1].id_view() != functions_of(ex.entries())[n2].id_view(),
        !vstd::std_specs::cmp::PartialEqSpec::eq_spec(
            &functions_of(ex.entries())[n1],
            &functions_of(ex.entries())[n2],
        ),
{
    assert(functions_of(ex.entries()).contains_key(n1));
    assert(functions_of(ex.entries()).contains_key(n2));
}

/// The executor: each name of a service mapped to its function.
pub struct RPCExecutor<'a, F>(Vec<(&'a str, Function<F>)>);

impl<'a, F> RPCExecutor<'a, F> {
    #[verifier::type_invariant]
    spec fn sorted(self) -> bool {
        sorted_names(self.0@)
    }

    /// The entries, in increasing name order.
    pub closed spec fn entries(self) -> Seq<(&'a str, Function<F>)> {
        self.0@
    }

    /// Maps `name` to `f`; returns the function it replaced, if the name was there.
    pub fn insert(&mut self, name: &'a str, f: Function<F>) -> (r: Option<Function<F>>)
        ensures
            sorted_names(final(self).entries()),
            functions_of(final(self).entries()) == functions_of(old(self).entries()).insert(name@, f),
            r is Some <==> functions_of(old(self).entries()).contains_key(name@),
            r is Some ==> r->0 == functions_of(old(self).entries())[name@],
    {
        proof { use_type_invariant(&*self); }
        let ghost old_s = self.0@;
        proof { lemma_last_by_name_domain(old_s); }
        let (p, found) = locate(&self.0, name);
        let mut v = Vec::new();
        std::mem::swap(&mut v, &mut self.0);
        if found {
            let old_entry = v.remove(p);
            let key = old_entry.0;
            proof {
                lemma_sorted_lookup(old_s, p as int);
                lemma_sorted_replace(old_s, p as int, (key, f));
                assert(old_s.remove(p as int).insert(p as int, (key, f)) =~= old_s.update(p as int, (key, f)));
            }
            v.insert(p, (key, f));
            self.0 = v;
            proof {
                assert(functions_of(self.0@) =~= functions_of(old_s).insert(name@, f));
            }
            Some(old_entry.1)
        } else {
            proof { lemma_sorted_insert(old_s, p as int, (name, f)); }
            v.insert(p, (name, f));
            self.0 = v;
            proof {
                assert(functions_of(self.0@) =~= functions_of(old_s).insert(name@, f));
            }
            None
        }
    }

    /// The function registered under `name`, if any.
    pub fn get(&self, name: &str) -> (r: Option<&Function<F>>)
        ensures
            r is Some <==> functions_of(self.entries()).contains_key(name@),
            r is Some ==> *r->0 == functions_of(self.entries())[name@],
    {
        proof {
            use_type_invariant(self);
            lemma_last_by_name_domain(self.0@);
        }
        let (p, found) = locate(&self.0, name);
        if found {
            proof { lemma_sorted_lookup(self.0@, p as int); }
            Some(&self.0[p].1)
        } else {
            proof {
                if has_name(self.0@, name@) {
                    let i = choose|i: int| 0 <= i < self.0@.len() && #[trigger] self.0@[i].name_view() == name@;
                    crate::text::lemma_name_order(name@, name@, name@);
                    if i < p {
                        assert(crate::text::name_lt(self.0@[i].name_view(), name@));
                    } else {
                        assert(crate::text::name_lt(name@, self.0@[i].name_view()));
                    }
                }
            }
            None
        }
    }

    /// The number of names.
    pub fn len(&self) -> (r: usize)
        ensures
            r == self.entries().len(),
    {
        self.0.len()
    }

    /// The names, in increasing order.
    pub fn names(&self) -> (r: Vec<&'a str>)
        ensures
            r@.len() == self.entries().len(),
            forall|i: int| 0 <= i < r@.len() ==> #[trigger] r@[i] == self.entries()[i].0,
    {
        let mut r: Vec<&'a str> = Vec::new();
        let mut i: usize = 0;
        while i < self.0.len()
            invariant
                i <= self.0@.len(),
                r@.len() == i,
                forall|j: int| 0 <= j < i ==> #[trigger] r@[j] == self.0@[j].0,
            decreases self.0@.len() - i,
        {
            r.push(self.0[i].0);
            i = i + 1;
        }
        r
    }
}

impl<'a, F> Default for RPCExecutor<'a, F> {
    /// An executor with no functions.
    fn default() -> (r: Self)
        ensures
            r.entries() == Seq::<(&'a str, Function<F>)>::empty(),
    {
        RPCExecutor(Vec::new())
    }
}

impl<'a, F> RPCExecutor<'a, F> {
    /// Inserts the entries in order; a repeated name takes the later function.
    fn from_entries(value: Vec<(&'a str, Function<F>)>) -> (r: Self)
        ensures
            sorted_names(r.entries()),
            functions_of(r.entries()) == functions_of(value@),
    {
        let ghost orig = value@;
        let mut items = value;
        let mut er: RPCExecutor<'a, F> = RPCExecutor::default();
        let ghost mut k: int = 0;
        proof {
            assert(orig.take(0) =~= Seq::<(&'a str, Function<F>)>::empty());
            assert(functions_of(orig.take(0)) =~= functions_of(er.entries()));
            assert(items@ =~= orig.skip(0));
        }
        while items.len() > 0
            invariant
                0 <= k <= orig.len(),
                items@ == orig.skip(k),
                sorted_names(er.entries()),
                functions_of(er.entries()) == functions_of(orig.take(k)),
            decreases items@.len(),
        {
            let (a, b) = items.remove(0);
            proof {
                assert(orig[k] == (a, b));
                assert(orig.take(k + 1).drop_last() =~= orig.take(k));
                assert(orig.take(k + 1).last() == (a, b));
                assert(functions_of(orig.take(k + 1)) =~= functions_of(orig.take(k)).insert(a@, b));
            }
            er.insert(a, b);
            proof {
                assert(items@ =~= orig.skip(k + 1));
                k = k + 1;
            }
        }
        proof {
            assert(orig.take(k) =~= orig);
        }
        er
    }
}

impl<'a, F> From<Vec<(&'a str, Function<F>)>> for RPCExecutor<'a, F> {
    /// Maps each name to its function; of entries that share a name, the last one's
    /// function stays.
    fn from(value: Vec<(&'a str, Function<F>)>) -> (r: Self)
        ensures
            sorted_names(r.entries()),
            functions_of(r.entries()) == functions_of(value@),
    {
        RPCExecutor::from_entries(value)
    }
}

impl<'a, F> vstd::std_specs::convert::FromSpecImpl<Vec<(&'a str, Function<F>)>> for RPCExecutor<'a, F> {
    open spec fn obeys_from_spec() -> bool {
        false
    }

    open spec fn from_spec(v: Vec<(&'a str, Function<F>)>) -> Self {
        arbitrary()
    }
}

impl<'a, F, const NP: usize> From<OmegaIterator<(&'a str, Function<F>), NP>> for RPCExecutor<'a, F> {
    /// Maps each name of a batch to its function; of entries that share a name, the
    /// last one's function stays.
    fn from(value: OmegaIterator<(&'a str, Function<F>), NP>) -> (r: Self)
        ensures
            sorted_names(r.entries()),
            functions_of(r.entries()) == functions_of(value.0@),
    {
        RPCExecutor::from_entries(value.into_vec())
    }
}

impl<'a, F, const NP: usize> vstd::std_specs::convert::FromSpecImpl<OmegaIterator<(&'a str, Function<F>), NP>> for RPCExecutor<'a, F> {
    open spec fn obeys_from_spec() -> bool {
        false
    }

    open spec fn from_spec(v: OmegaIterator<(&'a str, Function<F>), NP>) -> Self {
        arbitrary()
    }
}

impl<'a, F> From<Database<'a, F>> for RPCExecutor<'a, F> {
    /// Serves every event of the database: its name maps to its function, wrapped
    /// under a fresh identifier.
    fn from(value: Database<'a, F>) -> (r: Self)
        ensures
            sorted_names(r.entries()),
            serves(r, value),
    {
        let ghost db = value.entries();
        let events = value.into_events();
        let mut items = events;
        let mut bt: Vec<(&'a str, Function<F>)> = Vec::new();
        let ghost mut k: int = 0;
        proof { assert(items@ =~= db.skip(0)); }
        while items.len() > 0
            invariant
                0 <= k <= db.len(),
                sorted_names(db),
                items@ == db.skip(k),
                bt@.len() == k,
                forall|i: int| 0 <= i < k ==> (#[trigger] bt@[i]).0@ == db[i].name@
                    && bt@[i].1.start_fn() == db[i].function
                    && is_v4_urn(bt@[i].1.id_view()),
                forall|a: int, b: int|
                    0 <= a < b < k ==> (#[trigger] bt@[a]).1.id_view() != (#[trigger] bt@[b]).1.id_view(),
            decreases items@.len(),
        {
            let e = items.remove(0);
            proof { assert(e == db[k]); }
            let id = fresh_urn(&bt);
            let f = Function { id, start: e.function };
            let ghost before = bt@;
            bt.push((e.name, f));
            proof {
                assert forall|a: int, b: int|
                    0 <= a < b < k + 1 implies (#[trigger] bt@[a]).1.id_view() != (#[trigger] bt@[b]).1.id_view() by {
                    if b == k {
                        assert(before[a] == bt@[a]);
                        if bt@[a].1.id_view() == bt@[b].1.id_view() {
                            assert(id_held(before, id@));
                        }
                    } else {
                        assert(before[a] == bt@[a] && before[b] == bt@[b]);
                    }
                }
                assert(items@ =~= db.skip(k + 1));
                k = k + 1;
            }
        }
        let ghost s = bt@;
        proof {
            assert(k == db.len());
            assert forall|a: int, b: int| 0 <= a < b < s.len() implies crate::text::name_lt(
                #[trigger] s[a].name_view(),
                #[trigger] s[b].name_view(),
            ) by {
                assert(db[a].name_view() == s[a].name_view());
                assert(db[b].name_view() == s[b].name_view());
            }
            lemma_last_by_name_domain(s);
            lemma_last_by_name_domain(db);
            assert forall|n: Seq<char>| #[trigger] functions_of(s).contains_key(n)
                <==> last_by_name(db).contains_key(n) by {
                if has_name(s, n) {
                    let i = choose|i: int| 0 <= i < s.len() && #[trigger] s[i].name_view() == n;
                    assert(db[i].name_view() == n);
                }
                if has_name(db, n) {
                    let i = choose|i: int| 0 <= i < db.len() && #[trigger] db[i].name_view() == n;
                    assert(s[i].name_view() == n);
                }
            }
            assert forall|n: Seq<char>| #[trigger] functions_of(s).contains_key(n) implies {
                &&& functions_of(s)[n].start_fn() == last_by_name(db)[n].function
                &&& is_v4_urn(functions_of(s)[n].id_view())
            } by {
                let i = choose|i: int| 0 <= i < s.len() && #[trigger] s[i].name_view() == n;
                lemma_sorted_lookup(s, i);
                assert(db[i].name_view() == n);
                lemma_sorted_lookup(db, i);
            }
            assert forall|n1: Seq<char>, n2: Seq<char>|
                #[trigger] functions_of(s).contains_key(n1) && #[trigger] functions_of(s).contains_key(n2)
                    && n1 != n2 implies functions_of(s)[n1].id_view() != functions_of(s)[n2].id_view() by {
                let i1 = choose|i: int| 0 <= i < s.len() && #[trigger] s[i].name_view() == n1;
                let i2 = choose|i: int| 0 <= i < s.len() && #[trigger] s[i].name_view() == n2;
                lemma_sorted_lookup(s, i1);
                lemma_sorted_lookup(s, i2);
                if i1 < i2 {
                    assert(s[i1].1.id_view() != s[i2].1.id_view());
                } else {
                    assert(s[i2].1.id_view() != s[i1].1.id_view());
                }
            }
        }
        RPCExecutor(bt)
    }
}

impl<'a, F> vstd::std_specs::convert::FromSpecImpl<Database<'a, F>> for RPCExecutor<'a, F> {
    open spec fn obeys_from_spec() -> bool {
        false
    }

    open spec fn from_spec(v: Database<'a, F>) -> Self {
        arbitrary()
    }
}

/// What the server answers a request: the result of the function it ran, or the empty
/// argument when no function is registered under the requested name; and whether to stop
/// serving, which a result that reads as the instruction `Backs` asks for.
pub fn server_answer<'a>(result: Option<Args<'a>>, instruction: Option<crate::args::Instruction>) -> (r: (
    Args<'a>,
    bool,
))
    ensures
        result is Some ==> r.0 == result->0,
        result is None ==> r.0 is Empty,
        r.1 <==> (result is Some && instruction == Some(crate::args::Instruction::Backs)),
{
    match result {
        Some(sv) => {
            let stop = match instruction {
                Some(crate::args::Instruction::Backs) => true,
                _ => false,
            };
            (sv, stop)
        },
        None => (Args::Empty, false),
    }
}

} // verus!
