use chapter2::dualarraydeque::DualArrayDeque;

#[test]
fn dualarraydeque_operation() {
    // Initialize
    let mut a = DualArrayDeque::with_capacity(10);
    for (i, c) in "abcd".chars().enumerate() {
        a.add(i, c);
    }

    // Add
    a.add(3, 'x');
    a.add(4, 'y');

    // Remove
    let x = a.remove(0);
    assert_eq!(x, Some('a'));

    // Check
    for (i, c) in "bcxyd".chars().enumerate() {
        let x = a.get(i);
        assert_eq!(x, Some(&c));
    }
}

fn contents(a: &DualArrayDeque<char>) -> String {
    let mut s = String::new();
    for i in 0..a.size() {
        s.push(*a.get(i).unwrap());
    }
    s
}

#[test]
fn dualarraydeque_scenario_sequence() {
    let mut a = DualArrayDeque::with_capacity(0);
    for (i, c) in "bred".chars().enumerate() {
        assert_eq!(a.add(i, c), None);
    }
    a.add(2, 'e');
    a.add(5, 'r');
    a.add(5, 'e');
    assert_eq!(contents(&a), "breeder");
    assert_eq!(a.remove(4), Some('d'));
    assert_eq!(a.remove(4), Some('e'));
    assert_eq!(a.remove(4), Some('r'));
    a.set(2, 'i');
    assert_eq!(contents(&a), "brie");
}

#[test]
fn dualarraydeque_rebalances() {
    let mut a = DualArrayDeque::with_capacity(0);
    for k in 0..40 {
        let n = a.size();
        a.add(n, k);
        let f = a.front_len();
        let b = a.back_len();
        let n = f + b;
        assert!(f.abs_diff(b) <= (n + 1) / 2);
        if n != 1 {
            assert!(3 * f >= b && 3 * b >= f);
        }
    }
    assert_eq!(a.size(), 40);
    for k in 0..40 {
        assert_eq!(a.get(k), Some(&k));
    }
    for k in 0..39 {
        assert_eq!(a.remove(0), Some(k));
        let f = a.front_len();
        let b = a.back_len();
        if f + b != 1 {
            assert!(3 * f >= b && 3 * b >= f);
        }
    }
    assert_eq!(a.front_len(), 0);
    assert_eq!(a.back_len(), 1);
}

#[test]
fn dualarraydeque_out_of_range() {
    let mut a: DualArrayDeque<i64> = DualArrayDeque::with_capacity(4);
    assert_eq!(a.add(1, 3), Some(3));
    assert_eq!(a.remove(0), None);
    assert_eq!(a.set(0, 8), Some(8));
    assert_eq!(a.get(0), None);
    a.add(0, 1);
    assert_eq!(a.set(0, 2), Some(1));
    assert_eq!(a.get(0), Some(&2));
}
