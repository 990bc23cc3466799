use enginesound::streamer::ExactStreamer;

fn fill_from(s: &mut ExactStreamer<u32>, out: &mut [u32], batches: &mut Vec<Vec<u32>>) -> bool {
    let mut i = s.take_pending(out);
    while i < out.len() {
        if batches.is_empty() {
            return false;
        }
        let b = batches.remove(0);
        i = s.accept(out, i, b);
    }
    true
}

#[test]
fn exact_fills_keep_order_and_carry_surplus() {
    let mut s: ExactStreamer<u32> = ExactStreamer::new(4);
    let mut batches = vec![vec![1, 2, 3], vec![4, 5, 6, 7, 8], vec![9], vec![10, 11, 12, 13]];
    let mut out = [0u32; 4];
    assert!(fill_from(&mut s, &mut out, &mut batches));
    assert_eq!(out, [1, 2, 3, 4]);
    assert_eq!(s.pending_len(), 4);
    assert!(fill_from(&mut s, &mut out, &mut batches));
    assert_eq!(out, [5, 6, 7, 8]);
    assert_eq!(s.pending_len(), 0);
    let mut out3 = [0u32; 3];
    assert!(fill_from(&mut s, &mut out3, &mut batches));
    assert_eq!(out3, [9, 10, 11]);
    assert_eq!(s.pending_len(), 2);
    let mut big = [0u32; 5];
    assert!(!fill_from(&mut s, &mut big, &mut batches));
    assert_eq!(&big[..2], &[12, 13]);
}

#[test]
fn take_pending_hands_out_at_most_the_output() {
    let mut s: ExactStreamer<u32> = ExactStreamer::new(2);
    let mut out = [0u32; 1];
    assert_eq!(s.take_pending(&mut out), 0);
    assert_eq!(s.accept(&mut out, 0, vec![7, 8, 9]), 1);
    assert_eq!(out, [7]);
    let mut out2 = [0u32; 1];
    assert_eq!(s.take_pending(&mut out2), 1);
    assert_eq!(out2, [8]);
    assert_eq!(s.pending_len(), 1);
}

#[test]
fn accept_queues_behind_carried_items() {
    let mut s: ExactStreamer<u32> = ExactStreamer::new(2);
    let mut out = [0u32; 2];
    assert_eq!(s.accept(&mut out, 0, vec![1, 2, 3]), 2);
    assert_eq!(s.pending_len(), 1);
    let mut other = [0u32; 2];
    assert_eq!(s.accept(&mut other, 0, vec![4, 5]), 0);
    assert_eq!(other, [0, 0]);
    assert_eq!(s.pending_len(), 3);
    let mut out3 = [0u32; 3];
    assert_eq!(s.take_pending(&mut out3), 3);
    assert_eq!(out3, [3, 4, 5]);
}

#[test]
fn empty_batch_changes_nothing() {
    let mut s: ExactStreamer<u32> = ExactStreamer::new(2);
    let mut out = [9u32; 2];
    assert_eq!(s.accept(&mut out, 1, Vec::new()), 1);
    assert_eq!(out, [9, 9]);
    assert_eq!(s.pending_len(), 0);
}
