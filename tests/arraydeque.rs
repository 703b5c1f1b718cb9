use chapter2::arraydeque::ArrayDeque;

#[test]
fn arraydeque_operation() {
    // Initialize
    let mut a = ArrayDeque::with_capacity(12);
    for (i, c) in "abcdefgh".chars().enumerate() {
        a.add(i, c);
    }

    // Remove
    let x = a.remove(2);
    assert_eq!(x, Some('c'));

    // Add
    a.add(4, 'x');
    a.add(3, 'y');
    a.add(3, 'z');

    // Check
    for (i, c) in "abdzyexfgh".chars().enumerate() {
        let x = a.get(i);
        assert_eq!(x, Some(&c));
    }
}

fn contents(a: &ArrayDeque<char>) -> String {
    let mut s = String::new();
    for i in 0..a.size() {
        s.push(*a.get(i).unwrap());
    }
    s
}

#[test]
fn arraydeque_scenario_sequence() {
    let mut a = ArrayDeque::with_capacity(0);
    for (i, c) in "bred".chars().enumerate() {
        assert_eq!(a.add(i, c), None);
    }
    a.add(2, 'e');
    a.add(5, 'r');
    a.add(5, 'e');
    assert_eq!(contents(&a), "breeder");
    assert_eq!(a.remove(4), Some('d'));
    assert_eq!(a.remove(4), Some('e'));
    assert_eq!(a.remove(4), Some('r'));
    a.set(2, 'i');
    assert_eq!(contents(&a), "brie");
}

#[test]
fn arraydeque_both_ends() {
    let mut a = ArrayDeque::with_capacity(0);
    assert_eq!(a.remove_front(), None);
    assert_eq!(a.remove_back(), None);
    for k in 0..5 {
        a.add_back(k);
        a.add_front(-k - 1);
    }
    let got: Vec<i32> = (0..a.size()).map(|i| *a.get(i).unwrap()).collect();
    assert_eq!(got, vec![-5, -4, -3, -2, -1, 0, 1, 2, 3, 4]);
    assert_eq!(a.remove_front(), Some(-5));
    assert_eq!(a.remove_back(), Some(4));
    assert_eq!(a.size(), 8);
    while a.remove_front().is_some() {}
    assert_eq!(a.size(), 0);
}

#[test]
fn arraydeque_wraps_around() {
    let mut a = ArrayDeque::with_capacity(4);
    a.add_back('a');
    a.add_back('b');
    a.add_front('z');
    a.add_front('y');
    a.add(2, 'm');
    assert_eq!(contents(&a), "yzmab");
    assert_eq!(a.remove(1), Some('z'));
    assert_eq!(a.remove(3), Some('b'));
    assert_eq!(contents(&a), "yma");
    assert_eq!(a.set(1, 'n'), Some('m'));
    assert_eq!(contents(&a), "yna");
}

#[test]
fn arraydeque_out_of_range() {
    let mut a: ArrayDeque<u8> = ArrayDeque::with_capacity(3);
    assert_eq!(a.add(1, 5), Some(5));
    assert_eq!(a.remove(0), None);
    assert_eq!(a.get(0), None);
    assert_eq!(a.set(0, 4), Some(4));
    assert_eq!(a.size(), 0);
}
