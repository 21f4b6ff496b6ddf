use titans::args::Args;
use titans::omega::OmegaIterator;
use titans::request::{ApplyFor, Request};
use titans::rpc::{Database, Event, RPCExecutor};

fn text(a: &Args) -> String {
    a.to_string()
}

#[test]
fn request_from_batch_keeps_first() {
    let r = Request::from(OmegaIterator([
        ApplyFor { subscription: "test", function: Args::Str("one") },
        ApplyFor { subscription: "b", function: Args::Empty },
        ApplyFor { subscription: "test", function: Args::Str("two") },
    ]));
    assert_eq!(r.len(), 2);
    assert_eq!(text(&r.get("test").unwrap().function), "one");
    assert!(r.get("b").is_some());
    assert!(r.get("missing").is_none());
}

#[test]
fn request_insert_and_get() {
    let mut r = Request::new();
    assert_eq!(r.len(), 0);
    assert!(r.insert(ApplyFor::from(("a", Args::String(String::from("x"))))));
    assert!(!r.insert(ApplyFor::from(("a", Args::String(String::from("y"))))));
    assert_eq!(r.len(), 1);
    assert_eq!(text(&r.get("a").unwrap().function), "x");
}

#[test]
fn server_answers_every_subscription_of_the_client() {
    let make = || {
        Database::from(OmegaIterator([
            Event { name: "test", args: Args::Str("t"), function: 1u8 },
            Event { name: "ping", args: Args::Empty, function: 2u8 },
        ]))
    };
    let ex = RPCExecutor::from(make());
    let rq = Request::from(make());
    assert_eq!(rq.len(), ex.len());
    for name in ex.names() {
        assert!(rq.get(name).is_some());
    }
    assert_eq!(text(&rq.get("test").unwrap().function), "t");
}

#[test]
fn requests_compare_by_subscription() {
    let a = ApplyFor { subscription: "a", function: Args::Str("1") };
    let a2 = ApplyFor { subscription: "a", function: Args::Str("2") };
    let b = ApplyFor { subscription: "b", function: Args::Empty };
    assert!(a == a2);
    assert!(a < b);
    assert!(b > a2);
}
