use processor::order::{sort_order, SortKey};
use processor::rows::{gather_copies, Bid};

#[test]
fn order_of_integers_is_ascending_and_stable() {
    assert_eq!(sort_order(&vec![3u64, 1, 2, 1]), vec![1, 3, 2, 0]);
    assert_eq!(sort_order(&vec![5i64, -5, 0, i64::MIN, i64::MAX, 0]), vec![3, 1, 2, 5, 0, 4]);
    assert_eq!(sort_order(&Vec::<u64>::new()), Vec::<usize>::new());
    assert_eq!(sort_order(&vec![7u64, 7, 7]), vec![0, 1, 2]);
}

#[test]
fn text_is_ordered_by_bytes() {
    let before = |a: &str, b: &str| a.to_string().before(&b.to_string());
    assert!(before("a", "b"));
    assert!(!before("b", "a"));
    assert!(!before("a", "a"));
    assert!(before("a", "ab"));
    assert!(!before("ab", "a"));
    assert!(before("", "a"));
    assert!(!before("", ""));
    assert!(before("Z", "a"));
    assert!(before("abc", "abd"));
    assert!(before("z", "\u{e9}"));
    assert!(before("\u{e9}", "\u{4e2d}"));
}

#[test]
fn order_of_text() {
    let names: Vec<String> = ["bob", "ann", "", "bob", "Ann", "annabel"].iter().map(|s| s.to_string()).collect();
    assert_eq!(sort_order(&names), vec![2, 4, 1, 5, 0, 3]);
}

#[test]
fn rows_are_gathered_in_order() {
    let bid = |price: u64| Bid { auction_id: 1, price, timestamp: 0, username: format!("user{price}") };
    let rows = vec![bid(10), bid(20), bid(30)];
    let out = gather_copies(&rows, &vec![2, 0, 1, 0]);
    assert_eq!(out, vec![bid(30), bid(10), bid(20), bid(10)]);
}
