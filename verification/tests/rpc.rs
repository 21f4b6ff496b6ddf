use titans::args::{Args, Instruction};
use titans::omega::OmegaIterator;
use titans::rpc::{server_answer, Database, Event, Function, RPCExecutor};

fn event(name: &'static str, function: u32) -> Event<'static, u32> {
    Event { name, args: Args::Str(name), function }
}

fn names<F>(d: &Database<'static, F>) -> Vec<&'static str> {
    d.events().iter().map(|e| e.name).collect()
}

fn is_v4_urn(s: &str) -> bool {
    let b = s.as_bytes();
    b.len() == 45
        && s.starts_with("urn:uuid:")
        && (9..45).all(|i| {
            if [17, 22, 27, 32].contains(&i) {
                b[i] == b'-'
            } else {
                b[i].is_ascii_digit() || (b'a'..=b'f').contains(&b[i])
            }
        })
        && b[23] == b'4'
        && [b'8', b'9', b'a', b'b'].contains(&b[28])
}

#[test]
fn database_sorts_and_keeps_first_of_a_name() {
    let d = Database::from(OmegaIterator([
        event("test", 1),
        event("alpha", 2),
        event("test", 3),
        event("beta", 4),
    ]));
    assert_eq!(names(&d), vec!["alpha", "beta", "test"]);
    let test = d.events().iter().find(|e| e.name == "test").unwrap();
    assert_eq!(test.function, 1);
    assert_eq!(d.len(), 3);
}

#[test]
fn database_insert_keeps_existing() {
    let mut d = Database::new();
    assert!(d.insert(event("b", 1)));
    assert!(d.insert(event("a", 2)));
    assert!(!d.insert(event("b", 3)));
    assert_eq!(names(&d), vec!["a", "b"]);
    assert_eq!(d.events()[1].function, 1);
    let v = d.into_events();
    assert_eq!(v.len(), 2);
}

#[test]
fn empty_database() {
    let d: Database<'static, u32> = Database::from(OmegaIterator([]));
    assert_eq!(d.len(), 0);
}

#[test]
fn function_gets_a_fresh_urn() {
    let f = Function::from(7u32);
    let g = Function::from(7u32);
    assert!(is_v4_urn(f.id()), "{}", f.id());
    assert!(is_v4_urn(g.id()));
    assert_eq!(f.start, 7);
    assert!(f != g);
    assert!(f == f);
    assert!(f.partial_cmp(&g).is_some());
}

#[test]
fn executor_from_vec_keeps_last_of_a_name() {
    let ex = RPCExecutor::from(vec![
        ("b", Function::from(1u32)),
        ("a", Function::from(2u32)),
        ("b", Function::from(3u32)),
    ]);
    assert_eq!(ex.names(), vec!["a", "b"]);
    assert_eq!(ex.get("b").unwrap().start, 3);
    assert_eq!(ex.get("a").unwrap().start, 2);
    assert!(ex.get("c").is_none());
    assert_eq!(ex.len(), 2);
}

#[test]
fn executor_from_batch_keeps_last_of_a_name() {
    let ex = RPCExecutor::from(OmegaIterator([("x", Function::from(1u32)), ("x", Function::from(5u32))]));
    assert_eq!(ex.names(), vec!["x"]);
    assert_eq!(ex.get("x").unwrap().start, 5);
}

#[test]
fn executor_insert_returns_replaced() {
    let mut ex: RPCExecutor<'static, u32> = RPCExecutor::default();
    assert!(ex.insert("n", Function::from(1)).is_none());
    let old = ex.insert("n", Function::from(2)).unwrap();
    assert_eq!(old.start, 1);
    assert_eq!(ex.get("n").unwrap().start, 2);
    assert!(ex.insert("m", Function::from(3)).is_none());
    assert_eq!(ex.names(), vec!["m", "n"]);
}

#[test]
fn executor_serves_the_database() {
    let d = Database::from(OmegaIterator([event("test", 10), event("other", 20), event("test", 30)]));
    let ex = RPCExecutor::from(d);
    assert_eq!(ex.names(), vec!["other", "test"]);
    assert_eq!(ex.get("test").unwrap().start, 10);
    assert_eq!(ex.get("other").unwrap().start, 20);
    assert!(is_v4_urn(ex.get("test").unwrap().id()));
}

#[test]
fn events_compare_by_name() {
    let a = event("a", 1);
    let a2 = event("a", 2);
    let b = event("b", 1);
    assert!(a == a2);
    assert!(a != b);
    assert!(a < b);
    assert_eq!(a.partial_cmp(&a2), Some(std::cmp::Ordering::Equal));
}

#[test]
fn server_answers() {
    let (a, stop) = server_answer(Some(Args::Str("\"Backs\"")), Some(Instruction::Backs));
    assert!(matches!(a, Args::Str("\"Backs\"")));
    assert!(stop);
    let (a, stop) = server_answer(Some(Args::Str("x")), None);
    assert!(matches!(a, Args::Str("x")));
    assert!(!stop);
    let (a, stop) = server_answer(Some(Args::Empty), Some(Instruction::Start));
    assert!(matches!(a, Args::Empty));
    assert!(!stop);
    let (a, stop) = server_answer(None, Some(Instruction::Backs));
    assert!(matches!(a, Args::Empty));
    assert!(!stop);
}
