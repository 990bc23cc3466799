use enginesound::noise::Noise;

#[test]
fn noise_is_reproducible_from_a_seed() {
    let seed = [7u8, 1, 2, 3, 4, 5, 6, 8, 9, 10, 11, 12, 13, 14, 15, 16];
    let mut a = Noise::from_seed(seed);
    let mut b = Noise::from_seed(seed);
    let wa = a.next_words(64);
    let wb = b.next_words(64);
    assert_eq!(wa, wb);
    assert_eq!(a.next_word(), b.next_word());
}

#[test]
fn noise_words_follow_xorshift() {
    // x = 1, y = 0, z = 0, w = 0 as little-endian words
    let mut seed = [0u8; 16];
    seed[0] = 1;
    let mut n = Noise::from_seed(seed);
    let x: u32 = 1;
    let t = x ^ (x << 11);
    let w: u32 = 0;
    let expected = w ^ (w >> 19) ^ (t ^ (t >> 8));
    assert_eq!(n.next_word(), expected);
}

#[test]
fn noise_seeds_differ() {
    let mut a = Noise::from_seed([1u8; 16]);
    let mut b = Noise::from_seed([2u8; 16]);
    assert_ne!(a.next_words(8), b.next_words(8));
}

#[test]
fn noise_words_are_not_constant() {
    let mut a = Noise::from_seed([3u8; 16]);
    let w = a.next_words(16);
    assert!(w.windows(2).any(|p| p[0] != p[1]));
}
