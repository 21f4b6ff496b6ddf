//! Ordering of events, requests and functions: by name, subscription and identifier,
//! in the order of `str`.
use crate::request::ApplyFor;
use crate::rpc::{Event, Function};
use crate::text::{compare_str, name_lt, Order};
use core::cmp::Ordering;
use vstd::prelude::*;
use vstd::std_specs::cmp::PartialOrdSpecImpl;

verus! {

/// How two strings compare in the order of `str`.
pub open spec fn text_order(a: Seq<char>, b: Seq<char>) -> Option<Ordering> {
    if name_lt(a, b) {
        Some(Ordering::Less)
    } else if a == b {
        Some(Ordering::Equal)
    } else {
        Some(Ordering::Greater)
    }
}

fn order_of(a: &str, b: &str) -> (r: Option<Ordering>)
    ensures
        r == text_order(a@, b@),
        r == Some(Ordering::Less) <==> name_lt(a@, b@),
        r == Some(Ordering::Equal) <==> a@ == b@,
        r == Some(Ordering::Greater) <==> name_lt(b@, a@),
{
    proof { crate::text::lemma_name_order(a@, b@, b@); }
    match compare_str(a, b) {
        Order::Less => Some(Ordering::Less),
        Order::Equal => Some(Ordering::Equal),
        Order::Greater => Some(Ordering::Greater),
    }
}

/// Strings compare as `str` compares them: `Less` exactly when the first comes first in
/// the byte-lexicographic order, `Equal` exactly when they are equal, `Greater` exactly
/// when the second comes first; and every pair gets an answer.
pub proof fn law_text_order_is_str_order(a: Seq<char>, b: Seq<char>)
    ensures
        text_order(a, b) == Some(Ordering::Less) <==> name_lt(a, b),
        text_order(a, b) == Some(Ordering::Equal) <==> a == b,
        text_order(a, b) == Some(Ordering::Greater) <==> name_lt(b, a),
        text_order(a, b) is Some,
{
    crate::text::lemma_name_order(a, b, b);
}

impl<'a, F> PartialOrd for Event<'a, F> {
    /// Events compare by name.
    fn partial_cmp(&self, other: &Self) -> (r: Option<Ordering>) {
        order_of(self.name, other.name)
    }
}

impl<'a, F> PartialOrdSpecImpl for Event<'a, F> {
    open spec fn obeys_partial_cmp_spec() -> bool {
        true
    }

    open spec fn partial_cmp_spec(&self, other: &Self) -> Option<Ordering> {
        text_order(self.name@, other.name@)
    }
}

impl<'a> PartialOrd for ApplyFor<'a> {
    /// Requests compare by subscription.
    fn partial_cmp(&self, other: &Self) -> (r: Option<Ordering>) {
        order_of(self.subscription, other.subscription)
    }
}

impl<'a> PartialOrdSpecImpl for ApplyFor<'a> {
    open spec fn obeys_partial_cmp_spec() -> bool {
        true
    }

    open spec fn partial_cmp_spec(&self, other: &Self) -> Option<Ordering> {
        text_order(self.subscription@, other.subscription@)
    }
}

impl<F> PartialOrd for Function<F> {
    /// Functions compare by identifier.
    fn partial_cmp(&self, other: &Self) -> (r: Option<Ordering>) {
        order_of(self.id(), other.id())
    }
}

impl<F> PartialOrdSpecImpl for Function<F> {
    open spec fn obeys_partial_cmp_spec() -> bool {
        true
    }

    open spec fn partial_cmp_spec(&self, other: &Self) -> Option<Ordering> {
        text_order(self.id_view(), other.id_view())
    }
}

} // verus!
