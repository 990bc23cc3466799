use enginesound::buffer::{padded_size, DelayLine, LoopBuffer};

#[test]
fn padded_size_rounds_up_to_whole_vectors() {
    assert_eq!(padded_size(1, 4), 4);
    assert_eq!(padded_size(4, 4), 4);
    assert_eq!(padded_size(5, 4), 8);
    assert_eq!(padded_size(7, 1), 7);
    assert_eq!(padded_size(9, 8), 16);
}

#[test]
fn loop_buffer_padding_stays_silent() {
    let mut lb = LoopBuffer::new(5, 4, 0.0f32);
    assert_eq!(lb.len(), 5);
    assert_eq!(lb.storage_len(), 8);
    assert!(lb.data().iter().all(|x| *x == 0.0));
    for i in 0..23 {
        lb.push(i as f32 + 1.0);
        lb.advance();
        assert_eq!(lb.storage_len(), 8);
        assert!(lb.data()[5..].iter().all(|x| *x == 0.0));
    }
}

#[test]
fn loop_buffer_push_pop_advance() {
    let mut lb = LoopBuffer::new(2, 4, 0.0f32);
    lb.push(1.0);
    lb.advance();
    assert_eq!(lb.pos(), 1);
    assert_eq!(lb.pop(), 1.0);
    lb.push(2.0);
    lb.advance();
    assert_eq!(lb.pos(), 0);
    assert_eq!(lb.pop(), 2.0);
}

#[test]
fn delay_line_returns_samples_len_minus_one_pushes_later() {
    let len = 4usize;
    let mut dl = DelayLine::new(len, 8, 0i32);
    let mut pushed: Vec<i32> = Vec::new();
    for m in 0..20usize {
        let expected = if m + 1 >= len { pushed[m + 1 - len] } else { 0 };
        assert_eq!(dl.pop(), expected, "after {} pushes", m);
        let v = (m as i32 + 1) * 10;
        dl.push(v);
        dl.advance();
        pushed.push(v);
    }
}

#[test]
fn delay_line_of_one_returns_last_push() {
    let mut dl = DelayLine::new(1, 4, 0.0f32);
    assert_eq!(dl.pop(), 0.0);
    dl.push(3.5);
    dl.advance();
    assert_eq!(dl.pop(), 3.5);
    dl.push(-1.0);
    dl.advance();
    assert_eq!(dl.pop(), -1.0);
}

#[test]
fn clear_silences_and_keeps_cursor() {
    let mut lb = LoopBuffer::new(3, 2, 0.0f32);
    for i in 0..4 {
        lb.push(i as f32 + 1.0);
        lb.advance();
    }
    let pos = lb.pos();
    lb.clear();
    assert_eq!(lb.pos(), pos);
    assert_eq!(lb.storage_len(), 4);
    assert!(lb.data().iter().all(|x| *x == 0.0));
    assert_eq!(lb.pop(), 0.0);
}

fn lerp(a: f32, b: f32, k: usize, n: usize) -> f32 {
    a + (b - a) * k as f32 / n as f32
}

#[test]
fn resized_longer_copies_then_ramps() {
    let mut lb = LoopBuffer::new(3, 4, 0.0f32);
    for v in [1.0f32, 2.0, 3.0] {
        lb.push(v);
        lb.advance();
    }
    let r = lb.resized(7, lerp);
    assert_eq!(r.len(), 7);
    assert_eq!(r.storage_len(), 8);
    assert_eq!(r.pos(), 0);
    let d = r.data();
    assert_eq!(&d[..3], &[1.0, 2.0, 3.0]);
    assert_eq!(d[3], 3.0);
    assert_eq!(d[4], 2.5);
    assert_eq!(d[5], 2.0);
    assert_eq!(d[6], 1.5);
    assert_eq!(d[7], 0.0);
}

#[test]
fn resized_shorter_truncates() {
    let mut dl = DelayLine::new(5, 1, 0i64);
    for v in 1..=5i64 {
        dl.push(v);
        dl.advance();
    }
    let r = dl.resized(2, |a: i64, _b: i64, _k: usize, _n: usize| a);
    assert_eq!(r.samples().len(), 2);
    assert_eq!(r.samples().data(), &vec![1, 2]);
}
