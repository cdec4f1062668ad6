use yestary::stars::StarStore;

fn dev(s: &str) -> String {
    s.to_string()
}

#[test]
fn insert_is_idempotent() {
    let mut s = StarStore::new();
    assert!(s.insert_star(&dev("phone"), 100, "first".to_string()));
    assert!(!s.insert_star(&dev("phone"), 100, "again".to_string()));
    let before = s.stars_before(&dev("phone"), 101);
    assert_eq!(before.len(), 1);
    assert_eq!(before[0].time, 100);
    assert_eq!(before[0].text, "first");
}

#[test]
fn stars_before_are_ordered_and_filtered() {
    let mut s = StarStore::new();
    assert!(s.insert_star(&dev("a"), 30, "thirty".to_string()));
    assert!(s.insert_star(&dev("a"), 10, "ten".to_string()));
    assert!(s.insert_star(&dev("b"), 20, "other device".to_string()));
    assert!(s.insert_star(&dev("a"), 20, "twenty".to_string()));
    assert!(s.insert_star(&dev("a"), 40, "forty".to_string()));
    let got: Vec<(i64, String)> = s.stars_before(&dev("a"), 40).into_iter().map(|x| (x.time, x.text)).collect();
    assert_eq!(got, vec![(10, "ten".to_string()), (20, "twenty".to_string()), (30, "thirty".to_string())]);
    assert!(s.stars_before(&dev("a"), 10).is_empty());
    assert!(s.stars_before(&dev("c"), 1000).is_empty());
}

#[test]
fn delete_removes_only_that_star() {
    let mut s = StarStore::new();
    s.insert_star(&dev("a"), 1, "one".to_string());
    s.insert_star(&dev("a"), 2, "two".to_string());
    s.insert_star(&dev("b"), 1, "b one".to_string());
    assert!(s.delete_star(&dev("a"), 1));
    assert!(!s.delete_star(&dev("a"), 1));
    let a: Vec<i64> = s.stars_before(&dev("a"), 10).into_iter().map(|x| x.time).collect();
    let b: Vec<i64> = s.stars_before(&dev("b"), 10).into_iter().map(|x| x.time).collect();
    assert_eq!(a, vec![2]);
    assert_eq!(b, vec![1]);
    assert!(s.insert_star(&dev("a"), 1, "one again".to_string()));
}

#[test]
fn negative_times() {
    let mut s = StarStore::new();
    s.insert_star(&dev("a"), -5, "past".to_string());
    s.insert_star(&dev("a"), i64::MIN, "dawn".to_string());
    let got: Vec<i64> = s.stars_before(&dev("a"), 0).into_iter().map(|x| x.time).collect();
    assert_eq!(got, vec![i64::MIN, -5]);
}
