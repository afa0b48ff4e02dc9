use monologued::tokenpool::TokenPool;
use monologued::tokenqueue::NextFree;

#[test]
fn basic_handling() {
    let mut pool = TokenPool::new(0, 10);
    let p1 = pool.pop().unwrap();
    let p2 = pool.pop().unwrap();
    let p3 = pool.pop().unwrap();
    pool.push(p2);
    let p4 = pool.pop().unwrap();

    assert_eq!(p1, 0);
    assert_eq!(p3, 2);
    assert_eq!(p4, 1);
}

// Note that this is lossy: the tokens popped off here are not
// recorded and can never be recovered.
#[test]
fn exhausted_space() {
    let mut pool = TokenPool::new(0, 2);
    pool.pop();
    pool.pop();
    let p3 = pool.pop();
    assert_eq!(p3, None);
}

#[test]
fn lowest_returned_token_first() {
    let mut pool = TokenPool::new(0, 10);
    for _ in 0..6 {
        pool.pop();
    }
    pool.push(4);
    pool.push(1);
    pool.push(3);
    assert_eq!(pool.pop(), Some(1));
    assert_eq!(pool.pop(), Some(3));
    assert_eq!(pool.pop(), Some(4));
    assert_eq!(pool.pop(), Some(6));
}

#[test]
fn returned_tokens_outlive_exhaustion() {
    let mut pool = TokenPool::new(5, 7);
    assert_eq!(pool.pop(), Some(5));
    assert_eq!(pool.pop(), Some(6));
    assert_eq!(pool.pop(), None);
    pool.push(5);
    assert_eq!(pool.pop(), Some(5));
    assert_eq!(pool.pop(), None);
}

#[test]
fn pop_undoes_push() {
    let mut pool = TokenPool::new(0, 3);
    pool.pop();
    pool.pop();
    pool.push(1);
    pool.push(0);
    assert_eq!(pool.pop(), Some(0));
    assert_eq!(pool.pop(), Some(1));
    assert_eq!(pool.pop(), Some(2));
    assert_eq!(pool.pop(), None);
}

#[test]
fn a_pushed_token_is_handed_out_once_per_push() {
    let mut pool = TokenPool::new(0, 1);
    assert_eq!(pool.pop(), Some(0));
    pool.push(0);
    pool.push(0);
    assert_eq!(pool.pop(), Some(0));
    assert_eq!(pool.pop(), Some(0));
    assert_eq!(pool.pop(), None);
}

#[test]
fn empty_range_is_exhausted_at_once() {
    let mut pool = TokenPool::new(4, 4);
    assert_eq!(pool.pop(), None);
    let mut pool = TokenPool::new(9, 3);
    assert_eq!(pool.pop(), None);
}

#[test]
fn next_free_counts_up_and_reuses() {
    let mut queue = NextFree::new();
    assert_eq!(queue.pop(), 0);
    assert_eq!(queue.pop(), 1);
    assert_eq!(queue.pop(), 2);
    queue.push(1);
    queue.push(0);
    assert_eq!(queue.pop(), 0);
    assert_eq!(queue.pop(), 1);
    assert_eq!(queue.pop(), 3);
}

#[test]
fn a_run_of_calls_never_hands_out_a_held_token() {
    let mut pool = TokenPool::new(3, 8);
    let mut held: Vec<usize> = Vec::new();
    let script: [i64; 14] = [-1, -1, -1, 4, -1, -1, 3, 5, -1, -1, -1, -1, -1, -1];
    for step in script.iter() {
        if *step < 0 {
            if let Some(t) = pool.pop() {
                assert!(3 <= t && t < 8);
                assert!(!held.contains(&t));
                held.push(t);
            } else {
                assert_eq!(held.len(), 5);
            }
        } else {
            let t = *step as usize;
            let at = held.iter().position(|h| *h == t).unwrap();
            held.remove(at);
            pool.push(t);
        }
    }
    assert_eq!(held.len(), 5);
}
