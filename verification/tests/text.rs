use titans::text::{compare_bytes, compare_str, str_eq, Order};

#[test]
fn compare_ascii() {
    assert_eq!(compare_str("abc", "abd"), Order::Less);
    assert_eq!(compare_str("abd", "abc"), Order::Greater);
    assert_eq!(compare_str("abc", "abc"), Order::Equal);
}

#[test]
fn prefix_comes_first() {
    assert_eq!(compare_str("ab", "abc"), Order::Less);
    assert_eq!(compare_str("abc", "ab"), Order::Greater);
    assert_eq!(compare_str("", "a"), Order::Less);
    assert_eq!(compare_str("", ""), Order::Equal);
}

#[test]
fn order_is_that_of_str() {
    let words = ["z", "é", "Z", "a", "", "ab", "日本", "aé"];
    for a in words {
        for b in words {
            let expected = match a.cmp(b) {
                std::cmp::Ordering::Less => Order::Less,
                std::cmp::Ordering::Equal => Order::Equal,
                std::cmp::Ordering::Greater => Order::Greater,
            };
            assert_eq!(compare_str(a, b), expected, "{a:?} {b:?}");
        }
    }
}

#[test]
fn compare_raw_bytes() {
    assert_eq!(compare_bytes(&[1, 2], &[1, 3]), Order::Less);
    assert_eq!(compare_bytes(&[255], &[1, 3]), Order::Greater);
    assert_eq!(compare_bytes(&[], &[]), Order::Equal);
}

#[test]
fn string_equality() {
    assert!(str_eq("test", "test"));
    assert!(!str_eq("test", "tesT"));
    assert!(!str_eq("test", "tes"));
}
