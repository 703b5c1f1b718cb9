use chapter2::arraystack::ArrayStack;

#[test]
fn arraystack_operation() {
    // Initialize
    let mut a = ArrayStack::with_capacity(6);
    a.add(0, 'b');
    a.add(1, 'r');
    a.add(2, 'e');
    a.add(3, 'd');

    // Add
    a.add(2, 'e');
    a.add(5, 'r');
    a.add(5, 'e');

    // remove
    let x = a.remove(4);
    assert_eq!(x, Some('d'));
    let x = a.remove(4);
    assert_eq!(x, Some('e'));
    let x = a.remove(4);
    assert_eq!(x, Some('r'));

    // set
    a.set(2, 'i');

    // check
    assert_eq!(a.get(0), Some(&'b'));
    assert_eq!(a.get(1), Some(&'r'));
    assert_eq!(a.get(2), Some(&'i'));
    assert_eq!(a.get(3), Some(&'e'));
}

#[test]
fn operation_all() {
    let mut a = ArrayStack::with_capacity(0);
    a.add_all(0, vec!['b', 'r', 'e', 'd']);

    // Add
    a.add(2, 'e');
    a.add(5, 'r');
    a.add(5, 'e');

    // remove
    let x = a.remove(4);
    assert_eq!(x, Some('d'));
    let x = a.remove(4);
    assert_eq!(x, Some('e'));
    let x = a.remove(4);
    assert_eq!(x, Some('r'));

    // set
    a.set(2, 'i');

    // check
    assert_eq!(a.get(0), Some(&'b'));
    assert_eq!(a.get(1), Some(&'r'));
    assert_eq!(a.get(2), Some(&'i'));
    assert_eq!(a.get(3), Some(&'e'));
}

fn contents(a: &ArrayStack<char>) -> String {
    let mut s = String::new();
    for i in 0..a.size() {
        s.push(*a.get(i).unwrap());
    }
    s
}

#[test]
fn arraystack_scenario_sequence() {
    let mut a = ArrayStack::with_capacity(0);
    for (i, c) in "bred".chars().enumerate() {
        assert_eq!(a.add(i, c), None);
    }
    a.add(2, 'e');
    a.add(5, 'r');
    a.add(5, 'e');
    assert_eq!(contents(&a), "breeder");
}

#[test]
fn arraystack_add_all_in_middle() {
    let mut a = ArrayStack::with_capacity(2);
    a.add_all(0, vec![1, 2, 5]);
    a.add_all(2, vec![3, 4]);
    a.add_all(5, vec![]);
    a.add_all(5, vec![6]);
    let got: Vec<i32> = (0..a.size()).map(|i| *a.get(i).unwrap()).collect();
    assert_eq!(got, vec![1, 2, 3, 4, 5, 6]);
}

#[test]
fn arraystack_out_of_range() {
    let mut a: ArrayStack<u32> = ArrayStack::with_capacity(0);
    assert_eq!(a.remove(0), None);
    assert_eq!(a.pop(), None);
    assert_eq!(a.get(0), None);
    assert_eq!(a.add(1, 7), Some(7));
    assert_eq!(a.size(), 0);
    assert_eq!(a.set(0, 9), Some(9));
    a.add(0, 1);
    assert_eq!(a.set(0, 2), Some(1));
    assert_eq!(a.get(0), Some(&2));
    assert_eq!(a.get(1), None);
}

#[test]
fn arraystack_size_counts_successful_edits() {
    let mut a = ArrayStack::with_capacity(1);
    let mut expected = 0usize;
    for k in 0..50usize {
        if a.add(k % 3, k).is_none() {
            expected += 1;
        }
        if k % 4 == 0 && a.remove(k % 5).is_some() {
            expected -= 1;
        }
        assert!(a.add(a.size() + 1, k).is_some());
        assert!(a.remove(a.size()).is_none());
        assert_eq!(a.size(), expected);
    }
}

#[test]
fn arraystack_set_survives_resizes() {
    let mut a = ArrayStack::with_capacity(0);
    for k in 0..10 {
        a.push(k);
    }
    a.set(3, 100);
    for k in 10..40 {
        a.push(k);
    }
    for _ in 0..30 {
        a.pop();
    }
    assert_eq!(a.get(3), Some(&100));
    assert_eq!(a.size(), 10);
}

#[test]
fn arraystack_shifts_keep_order() {
    let mut a = ArrayStack::with_capacity(0);
    for k in 0..6 {
        a.push(k * 10);
    }
    a.add(2, 15);
    let got: Vec<i32> = (0..a.size()).map(|i| *a.get(i).unwrap()).collect();
    assert_eq!(got, vec![0, 10, 15, 20, 30, 40, 50]);
    assert_eq!(a.remove(4), Some(30));
    let got: Vec<i32> = (0..a.size()).map(|i| *a.get(i).unwrap()).collect();
    assert_eq!(got, vec![0, 10, 15, 20, 40, 50]);
    assert_eq!(a.pop(), Some(50));
}
