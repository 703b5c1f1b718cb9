use chapter2::arrayqueue::ArrayQueue;
use chapter2::randomqueue::RandomQueue;

#[test]
fn arrayqueue_fifo() {
    let mut q = ArrayQueue::with_capacity(0);
    assert_eq!(q.remove(), None);
    for k in 0..20 {
        assert_eq!(q.add(k), None);
    }
    assert_eq!(q.size(), 20);
    for k in 0..20 {
        assert_eq!(q.remove(), Some(k));
    }
    assert_eq!(q.size(), 0);
    assert_eq!(q.remove(), None);
}

#[test]
fn arrayqueue_interleaved_wraps() {
    let mut q = ArrayQueue::with_capacity(3);
    let mut next_out = 0;
    let mut next_in = 0;
    for round in 0..30 {
        for _ in 0..(round % 4) {
            q.add(next_in);
            next_in += 1;
        }
        for _ in 0..(round % 3) {
            if let Some(x) = q.remove() {
                assert_eq!(x, next_out);
                next_out += 1;
            }
        }
        assert_eq!(q.size(), next_in - next_out);
    }
}

#[test]
fn randomqueue_remove_at_swaps_last_in() {
    let mut q = RandomQueue::with_capacity(0);
    for c in "abcde".chars() {
        assert_eq!(q.add(c), None);
    }
    assert_eq!(q.remove_at(1), Some('b'));
    assert_eq!(q.size(), 4);
    assert_eq!(q.remove_at(4), None);
    assert_eq!(q.remove_at(3), Some('d'));
    assert_eq!(q.remove_at(1), Some('e'));
    assert_eq!(q.remove_at(0), Some('a'));
    assert_eq!(q.remove_at(0), Some('c'));
    assert_eq!(q.remove_at(0), None);
}

#[test]
fn randomqueue_removes_every_element_once() {
    let mut q = RandomQueue::with_capacity(2);
    assert_eq!(q.remove(), None);
    for k in 0..30u32 {
        q.add(k);
    }
    let mut seen = vec![false; 30];
    for _ in 0..30 {
        let x = q.remove().unwrap();
        assert!(!seen[x as usize]);
        seen[x as usize] = true;
    }
    assert!(seen.iter().all(|&b| b));
    assert_eq!(q.remove(), None);
}

#[test]
fn randomqueue_first_removal_is_uniform() {
    let n = 4usize;
    let trials = 8000usize;
    let mut counts = vec![0usize; n];
    for _ in 0..trials {
        let mut q = RandomQueue::with_capacity(n);
        for k in 0..n {
            q.add(k);
        }
        counts[q.remove().unwrap()] += 1;
    }
    let expected = (trials / n) as f64;
    for c in counts {
        assert!(((c as f64) - expected).abs() < expected * 0.15, "count {}", c);
    }
}
