use monotonicqueue::MonotonicQueue;

fn drain<T>(mut mq: MonotonicQueue<T>) -> Vec<T> {
    let mut items = Vec::new();
    while let Some(item) = mq.pop() {
        items.push(item);
    }
    items
}

#[test]
fn monotonic_incresing_queue() {
    let mut mq = MonotonicQueue::new();

    let is_less = |n1: &i32, n2: &i32| n1.gt(n2);
    mq.push_by(1, is_less);
    mq.push_by(2, is_less);

    assert_eq!(mq.peek(), Some(&1));
}

#[test]
fn monotonic_decreasing_queue() {
    let mut mq = MonotonicQueue::new();

    let is_less = |n1: &i32, n2: &i32| n1.lt(n2);
    mq.push_by(1, is_less);
    mq.push_by(2, is_less);

    assert_eq!(mq.peek(), Some(&2));
}

#[test]
fn greater_than_keeps_both_of_a_rising_pair() {
    let mut mq = MonotonicQueue::new();
    let is_less = |a: &i32, b: &i32| a > b;
    mq.push_by(1, is_less);
    assert_eq!(mq.peek(), Some(&1));
    mq.push_by(2, is_less);
    assert_eq!(mq.peek(), Some(&1));
    assert_eq!(drain(mq), vec![1, 2]);
}

#[test]
fn less_than_evicts_the_smaller_item() {
    let mut mq = MonotonicQueue::new();
    let is_less = |a: &i32, b: &i32| a < b;
    mq.push_by(1, is_less);
    mq.push_by(2, is_less);
    assert_eq!(mq.peek(), Some(&2));
    assert_eq!(drain(mq), vec![2]);
}

#[test]
fn greater_than_over_five_pushes() {
    let is_less = |a: &i32, b: &i32| a > b;
    let expected: Vec<Vec<i32>> = vec![
        vec![5],
        vec![3],
        vec![3, 4],
        vec![3, 4, 6],
        vec![3, 4, 6, 7],
    ];
    let input = [5, 3, 4, 6, 7];
    for n in 1..=input.len() {
        let mut mq = MonotonicQueue::new();
        for x in &input[..n] {
            mq.push_by(*x, is_less);
        }
        assert_eq!(drain(mq), expected[n - 1]);
    }
}

#[test]
fn new_queue_is_empty() {
    let mut mq: MonotonicQueue<i32> = MonotonicQueue::new();
    assert_eq!(mq.peek(), None);
    assert_eq!(mq.pop(), None);
    assert_eq!(mq.peek(), None);
    assert_eq!(mq.pop(), None);
}

#[test]
fn pop_on_empty_leaves_the_queue_usable() {
    let mut mq = MonotonicQueue::new();
    assert_eq!(mq.pop(), None);
    mq.push_by(9, |a: &i32, b: &i32| a < b);
    assert_eq!(mq.peek(), Some(&9));
    assert_eq!(mq.pop(), Some(9));
    assert_eq!(mq.pop(), None);
}

#[test]
fn peek_does_not_remove() {
    let mut mq = MonotonicQueue::new();
    mq.push_by(4, |a: &i32, b: &i32| a < b);
    assert_eq!(mq.peek(), Some(&4));
    assert_eq!(mq.peek(), Some(&4));
    assert_eq!(mq.pop(), Some(4));
    assert_eq!(mq.peek(), None);
}

#[test]
fn one_push_can_evict_the_whole_queue() {
    let mut mq = MonotonicQueue::new();
    let is_less = |a: &i32, b: &i32| a < b;
    for x in [9, 7, 5, 3, 1] {
        mq.push_by(x, is_less);
    }
    mq.push_by(10, is_less);
    assert_eq!(drain(mq), vec![10]);
}

#[test]
fn eviction_stops_at_the_first_item_that_is_not_less() {
    let mut mq = MonotonicQueue::new();
    let is_less = |a: &i32, b: &i32| a < b;
    for x in [9, 7, 5, 3, 1] {
        mq.push_by(x, is_less);
    }
    mq.push_by(6, is_less);
    assert_eq!(drain(mq), vec![9, 7, 6]);
}

#[test]
fn eviction_does_not_look_past_an_item_that_stays() {
    // Pushed by one predicate, then by another: 2 stays in front of 8
    // although it is less than 5, because 8 is not.
    let mut mq = MonotonicQueue::new();
    mq.push_by(2, |a: &i32, b: &i32| a > b);
    mq.push_by(8, |a: &i32, b: &i32| a > b);
    mq.push_by(5, |a: &i32, b: &i32| a < b);
    assert_eq!(drain(mq), vec![2, 8, 5]);
}

#[test]
fn predicate_sees_the_queued_item_first() {
    let mut mq = MonotonicQueue::new();
    mq.push_by(1, |_: &i32, _: &i32| false);
    mq.push_by(2, |existing: &i32, item: &i32| *existing == 1 && *item == 2);
    assert_eq!(drain(mq), vec![2]);

    let mut mq = MonotonicQueue::new();
    mq.push_by(1, |_: &i32, _: &i32| false);
    mq.push_by(2, |existing: &i32, item: &i32| *existing == 2 && *item == 1);
    assert_eq!(drain(mq), vec![1, 2]);
}

#[test]
fn items_need_not_be_copyable() {
    let mut mq: MonotonicQueue<String> = MonotonicQueue::new();
    let shorter = |a: &String, b: &String| a.len() < b.len();
    mq.push_by(String::from("abc"), shorter);
    mq.push_by(String::from("a"), shorter);
    mq.push_by(String::from("ab"), shorter);
    assert_eq!(mq.peek(), Some(&String::from("abc")));
    assert_eq!(drain(mq), vec![String::from("abc"), String::from("ab")]);
}

#[test]
fn sliding_window_maximum() {
    // Items carry their position; the front is dropped once it has left
    // the window of three.
    let input = [1, 3, -1, -3, 5, 3, 6, 7];
    let mut mq: MonotonicQueue<(usize, i32)> = MonotonicQueue::new();
    let mut maxima = Vec::new();
    for (i, x) in input.iter().enumerate() {
        mq.push_by((i, *x), |a: &(usize, i32), b: &(usize, i32)| a.1 < b.1);
        if let Some(&(front, _)) = mq.peek() {
            if front + 3 <= i {
                mq.pop();
            }
        }
        if i >= 2 {
            maxima.push(mq.peek().map(|p| p.1));
        }
    }
    assert_eq!(
        maxima,
        vec![Some(3), Some(3), Some(5), Some(5), Some(6), Some(7)]
    );
}
