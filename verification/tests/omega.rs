use std::sync::atomic::{AtomicUsize, Ordering};
use titans::omega::OmegaIterator;

#[test]
fn into_init_calls_every_item() {
    static SUM: AtomicUsize = AtomicUsize::new(0);
    let batch = OmegaIterator([1usize, 2, 3, 4]);
    batch.into_init(|x| {
        SUM.fetch_add(x, Ordering::SeqCst);
    });
    assert_eq!(SUM.load(Ordering::SeqCst), 10);
}

#[test]
fn iter_init_sees_every_item() {
    let count = AtomicUsize::new(0);
    let batch = OmegaIterator(["a", "bb", "ccc"]);
    batch.iter_init(|s: &&str| {
        count.fetch_add(s.len(), Ordering::SeqCst);
    });
    assert_eq!(count.load(Ordering::SeqCst), 6);
    assert_eq!(batch.0, ["a", "bb", "ccc"]);
}

#[test]
fn to_vec_keeps_order() {
    let batch = OmegaIterator([String::from("x"), String::from("y")]);
    assert_eq!(batch.to_vec(), vec![String::from("x"), String::from("y")]);
}

#[test]
fn to_vec_of_empty_batch() {
    let batch: OmegaIterator<u8, 0> = OmegaIterator([]);
    assert!(batch.to_vec().is_empty());
}

#[test]
fn into_vec_moves_items_in_order() {
    let batch = OmegaIterator::from([3u8, 1, 2]);
    assert_eq!(batch.into_vec(), vec![3, 1, 2]);
}

#[test]
fn as_ref_and_as_mut_see_the_items() {
    let mut batch = OmegaIterator([1u8, 2, 3]);
    assert_eq!(batch.as_ref(), &[1, 2, 3]);
    batch.as_mut()[1] = 9;
    assert_eq!(batch.0, [1, 9, 3]);
}

#[test]
fn from_vec_of_matching_length() {
    let batch: OmegaIterator<&str, 2> = OmegaIterator::from_vec(vec!["p", "q"]);
    assert_eq!(batch.0, ["p", "q"]);
}
