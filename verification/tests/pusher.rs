use fastdown::pusher::{flush_callback_error, Chunk, PyPusher};

fn plan_of(p: &mut PyPusher) -> Vec<(u64, Vec<u8>)> {
    p.flush_plan().into_iter().map(|c: Chunk| (c.start, c.data)).collect()
}

#[test]
fn new_pusher_is_empty() {
    let mut p = PyPusher::new(16);
    assert_eq!(p.cache_size(), 0);
    assert_eq!(p.buffer_size(), 16);
    assert!(plan_of(&mut p).is_empty());
}

#[test]
fn push_below_buffer_does_not_flush() {
    let mut p = PyPusher::new(10);
    assert!(!p.push(5, vec![1, 2, 3]));
    assert!(!p.push(0, vec![4]));
    assert_eq!(p.cache_size(), 4);
    assert_eq!(plan_of(&mut p), vec![(0, vec![4]), (5, vec![1, 2, 3])]);
}

#[test]
fn push_reaching_buffer_asks_for_flush() {
    let mut p = PyPusher::new(4);
    assert!(!p.push(0, vec![1, 2]));
    assert!(p.push(2, vec![3, 4]));
    assert_eq!(p.cache_size(), 4);
}

#[test]
fn contiguous_pieces_are_merged() {
    let mut p = PyPusher::new(100);
    p.push(4, vec![5, 6]);
    p.push(0, vec![1, 2]);
    p.push(2, vec![3, 4]);
    p.push(10, vec![9]);
    assert_eq!(plan_of(&mut p), vec![(0, vec![1, 2, 3, 4, 5, 6]), (10, vec![9])]);
    // planning leaves the cache as it was
    assert_eq!(p.cache_size(), 7);
    assert_eq!(plan_of(&mut p), vec![(0, vec![1, 2, 3, 4, 5, 6]), (10, vec![9])]);
}

#[test]
fn overlapping_pieces_stay_apart() {
    let mut p = PyPusher::new(100);
    p.push(0, vec![1, 2, 3]);
    p.push(1, vec![9]);
    assert_eq!(plan_of(&mut p), vec![(0, vec![1, 2, 3]), (1, vec![9])]);
}

#[test]
fn shorter_push_keeps_the_cached_piece() {
    let mut p = PyPusher::new(100);
    p.push(0, vec![1, 2, 3]);
    assert!(!p.push(0, vec![9]));
    assert!(!p.push(0, vec![8, 8, 8]));
    assert_eq!(p.cache_size(), 3);
    assert_eq!(plan_of(&mut p), vec![(0, vec![1, 2, 3])]);
}

#[test]
fn longer_push_replaces_the_cached_piece() {
    let mut p = PyPusher::new(5);
    p.push(0, vec![1, 2, 3]);
    assert!(!p.push(0, vec![7, 7, 7, 7]));
    assert_eq!(p.cache_size(), 4);
    assert!(p.push(0, vec![6, 6, 6, 6, 6]));
    assert_eq!(p.cache_size(), 5);
    assert_eq!(plan_of(&mut p), vec![(0, vec![6, 6, 6, 6, 6])]);
}

#[test]
fn flush_done_empties_the_cache() {
    let mut p = PyPusher::new(100);
    p.push(0, vec![1]);
    p.push(7, vec![2]);
    p.flush_done();
    assert_eq!(p.cache_size(), 0);
    assert!(plan_of(&mut p).is_empty());
}

#[test]
fn empty_last_run_is_not_planned() {
    let mut p = PyPusher::new(100);
    p.push(0, vec![1]);
    p.push(5, vec![]);
    assert_eq!(plan_of(&mut p), vec![(0, vec![1])]);
    p.flush_done();
    assert_eq!(p.cache_size(), 0);
    assert!(plan_of(&mut p).is_empty());
}

#[test]
fn empty_run_before_others_is_planned() {
    let mut p = PyPusher::new(100);
    p.push(0, vec![]);
    p.push(5, vec![1]);
    assert_eq!(plan_of(&mut p), vec![(0, vec![]), (5, vec![1])]);
}

#[test]
fn empty_piece_joins_a_run_that_ends_at_it() {
    let mut p = PyPusher::new(100);
    p.push(0, vec![1, 2]);
    p.push(2, vec![]);
    p.push(3, vec![4]);
    assert_eq!(plan_of(&mut p), vec![(0, vec![1, 2]), (3, vec![4])]);
}

#[test]
fn failed_send_keeps_the_rest() {
    let mut p = PyPusher::new(100);
    p.push(0, vec![1]);
    p.push(1, vec![2]);
    p.push(5, vec![3]);
    p.push(6, vec![4]);
    p.push(10, vec![5]);
    assert_eq!(
        plan_of(&mut p),
        vec![(0, vec![1, 2]), (5, vec![3, 4]), (10, vec![5])]
    );
    assert_eq!(p.flush_failed(1, "refused"), "Python push error: refused");
    assert_eq!(p.cache_size(), 3);
    assert_eq!(plan_of(&mut p), vec![(5, vec![3, 4]), (10, vec![5])]);
    // the refused run is now one piece, the piece after it is untouched
    assert_eq!(p.remove_chunk(5), vec![3, 4]);
    assert_eq!(p.remove_chunk(6), Vec::<u8>::new());
    assert_eq!(p.remove_chunk(10), vec![5]);
    assert_eq!(p.cache_size(), 0);
}

#[test]
fn failed_first_send_keeps_everything() {
    let mut p = PyPusher::new(100);
    p.push(0, vec![1]);
    p.push(1, vec![2]);
    p.push(9, vec![3]);
    assert_eq!(p.flush_failed(0, "x"), "Python push error: x");
    assert_eq!(p.cache_size(), 3);
    assert_eq!(plan_of(&mut p), vec![(0, vec![1, 2]), (9, vec![3])]);
}

#[test]
fn failed_last_send_keeps_only_the_last_run() {
    let mut p = PyPusher::new(100);
    p.push(0, vec![1]);
    p.push(4, vec![2]);
    p.push(5, vec![3]);
    let _ = p.flush_failed(1, "gone");
    assert_eq!(p.cache_size(), 2);
    assert_eq!(plan_of(&mut p), vec![(4, vec![2, 3])]);
}

#[test]
fn remove_chunk_takes_the_piece_out() {
    let mut p = PyPusher::new(100);
    p.push(3, vec![1, 2]);
    assert_eq!(p.remove_chunk(4), Vec::<u8>::new());
    assert_eq!(p.cache_size(), 2);
    assert_eq!(p.remove_chunk(3), vec![1, 2]);
    assert_eq!(p.cache_size(), 0);
}

#[test]
fn plan_holds_every_cached_byte_once() {
    let mut p = PyPusher::new(1000);
    let pieces: Vec<(u64, Vec<u8>)> = vec![(30, vec![7, 8]), (0, vec![1, 2, 3]), (3, vec![4]), (20, vec![5, 6]), (22, vec![])];
    for (s, d) in pieces {
        p.push(s, d);
    }
    let plan = plan_of(&mut p);
    let sent: Vec<u8> = plan.iter().flat_map(|(_, d)| d.clone()).collect();
    assert_eq!(sent, vec![1, 2, 3, 4, 5, 6, 7, 8]);
    assert_eq!(sent.len(), p.cache_size());
    for w in plan.windows(2) {
        assert!(w[0].0 < w[1].0);
        assert_ne!(w[0].0 + w[0].1.len() as u64, w[1].0);
    }
}

#[test]
fn high_offsets_merge_up_to_the_end() {
    let mut p = PyPusher::new(100);
    p.push(u64::MAX - 2, vec![1]);
    p.push(u64::MAX - 1, vec![2]);
    assert_eq!(plan_of(&mut p), vec![(u64::MAX - 2, vec![1, 2])]);
}

#[test]
fn failed_send_hands_over_plus_keeps_every_byte() {
    let mut p = PyPusher::new(100);
    for (s, d) in [(0u64, vec![1u8]), (1, vec![2]), (5, vec![3]), (6, vec![4]), (10, vec![5])] {
        p.push(s, d);
    }
    let plan = plan_of(&mut p);
    let handed: Vec<u8> = plan[..1].iter().flat_map(|(_, d)| d.clone()).collect();
    let _ = p.flush_failed(1, "no");
    let kept: Vec<u8> = plan_of(&mut p).into_iter().flat_map(|(_, d)| d).collect();
    let mut all = handed;
    all.extend(kept);
    assert_eq!(all, vec![1, 2, 3, 4, 5]);
}

#[test]
fn flush_callback_refusal_is_worded() {
    assert_eq!(flush_callback_error("boom"), "Python flush error: boom");
}
