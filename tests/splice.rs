use enginesound::splice::{seamless_loop, SpliceError};

fn lerp(a: f32, b: f32, k: usize, n: usize) -> f32 {
    let f = k as f32 / n as f32;
    a * (1.0 - f) + b * f
}

#[test]
fn seamless_loop_length_at_48k() {
    let sr = 48000usize;
    let output: Vec<f32> = (0..sr).map(|i| (i % 97) as f32).collect();
    let crossfade = (0.01f32 * sr as f32) as usize;
    let r = seamless_loop(&output, crossfade, lerp).unwrap();
    assert_eq!(r.len(), sr - 240);
}

#[test]
fn seamless_loop_splices_the_turned_recording() {
    let output: Vec<f32> = (0..10).map(|i| i as f32).collect();
    // half = 5, fade = 2; turned: 5 6 7 8 9 0 1 2 3 4
    let r = seamless_loop(&output, 4, lerp).unwrap();
    assert_eq!(r.len(), 8);
    assert_eq!(&r[..3], &[5.0, 6.0, 7.0]);
    assert_eq!(r[3], 8.0);
    assert_eq!(r[4], lerp(9.0, 1.0, 1, 2));
    assert_eq!(r[4], 5.0);
    assert_eq!(&r[5..], &[2.0, 3.0, 4.0]);
}

#[test]
fn seamless_loop_length_law() {
    for len in 2..40usize {
        let output: Vec<i32> = (0..len as i32).collect();
        for c in 0..len {
            let r = seamless_loop(&output, c, |a: i32, _b: i32, _k: usize, _n: usize| a).unwrap();
            assert_eq!(r.len(), len - c.max(1) / 2);
        }
    }
}

#[test]
fn seamless_loop_of_one_sample_crossfade_is_turn_only() {
    let output = vec![1u8, 2, 3, 4, 5];
    let r = seamless_loop(&output, 1, |a: u8, _b: u8, _k: usize, _n: usize| a).unwrap();
    assert_eq!(r, vec![3, 4, 5, 1, 2]);
}

#[test]
fn seamless_loop_rejects_long_crossfade() {
    let output = vec![0.0f32; 100];
    assert_eq!(seamless_loop(&output, 100, lerp), Err(SpliceError::CrossfadeTooLong));
    assert_eq!(seamless_loop(&output, 250, lerp), Err(SpliceError::CrossfadeTooLong));
    let one = vec![0.0f32; 1];
    assert_eq!(seamless_loop(&one, 0, lerp), Err(SpliceError::CrossfadeTooLong));
    assert!(seamless_loop(&output, 99, lerp).is_ok());
}
