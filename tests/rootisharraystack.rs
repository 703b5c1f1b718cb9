use chapter2::rootisharraystack::RootishArrayStack;

#[test]
fn rootisharraystack_operation() {
    // Initialize
    let mut a = RootishArrayStack::with_capacity();
    a.add(0, 'b');
    a.add(1, 'r');
    a.add(2, 'e');
    a.add(3, 'd');

    // Add
    a.add(2, 'e');
    a.add(5, 'r');
    a.add(5, 'e');

    // remove
    let x = a.remove(4);
    assert_eq!(x, Some('d'));
    let x = a.remove(4);
    assert_eq!(x, Some('e'));
    let x = a.remove(4);
    assert_eq!(x, Some('r'));

    // set
    a.set(2, 'i');

    // check
    assert_eq!(a.get(0), Some(&'b'));
    assert_eq!(a.get(1), Some(&'r'));
    assert_eq!(a.get(2), Some(&'i'));
    assert_eq!(a.get(3), Some(&'e'));
}

#[test]
fn rootisharraystack_space_bound() {
    let mut a = RootishArrayStack::with_capacity();
    assert_eq!(a.num_blocks(), 0);
    for k in 0..100usize {
        a.add(k, k);
        let n = a.size();
        let r = a.num_blocks();
        assert!(n <= r * (r + 1) / 2 && r * (r + 1) / 2 < n + r);
    }
    // 13 blocks hold 91 slots, 14 hold 105
    assert_eq!(a.num_blocks(), 14);
    for k in 0..100usize {
        assert_eq!(a.get(k), Some(&k));
    }
    while a.size() > 0 {
        a.remove(a.size() / 2);
        let n = a.size();
        let r = a.num_blocks();
        if n > 0 {
            assert!(n <= r * (r + 1) / 2 && r * (r + 1) / 2 < n + r);
        }
    }
    assert_eq!(a.num_blocks(), 0);
}

#[test]
fn rootisharraystack_out_of_range() {
    let mut a: RootishArrayStack<u8> = RootishArrayStack::with_capacity();
    assert_eq!(a.add(1, 4), Some(4));
    assert_eq!(a.size(), 0);
    assert_eq!(a.remove(0), None);
    assert_eq!(a.get(0), None);
    assert_eq!(a.set(0, 2), Some(2));
    a.add(0, 1);
    a.add(0, 0);
    a.add(2, 2);
    assert_eq!(a.get(3), None);
    assert_eq!(a.remove(3), None);
    assert_eq!(a.size(), 3);
    assert_eq!(a.set(1, 9), Some(1));
    assert_eq!(a.get(1), Some(&9));
}
