use neogen::rng::Rng;

#[test]
fn golden_sequence_for_seed_42() {
    let mut rng = Rng::from_seed(42);
    assert_eq!(rng.next_u64(), 0x1578_0B2E_0C2E_C716);
    assert_eq!(rng.next_u64(), 0x6104_D986_6D11_3A7E);
    assert_eq!(rng.next_u64(), 0xAE17_5332_39E4_99A1);
    assert_eq!(rng.next_u64(), 0xECB8_AD47_03B3_60A1);
}

#[test]
fn golden_first_value_for_seed_7() {
    let mut rng = Rng::from_seed(7);
    assert_eq!(rng.next_u64(), 0xB358_FAF7_4EF9_765A);
}

#[test]
fn recreated_rng_repeats_the_sequence() {
    let mut a = Rng::from_seed(987);
    let mut b = Rng::from_seed(987);
    for _ in 0..100 {
        assert_eq!(a.next_u64(), b.next_u64());
    }
    assert_eq!(a, b);
}

#[test]
fn different_seeds_diverge() {
    let mut a = Rng::from_seed(1);
    let mut b = Rng::from_seed(2);
    assert_ne!(a.next_u64(), b.next_u64());
    assert_ne!(a, b);
}

#[test]
fn u64_draws_respect_range_and_spread() {
    let mut rng = Rng::from_seed(9);
    let mut seen = [false; 10];
    for _ in 0..10_000 {
        let v = rng.next_u64_in(10..20);
        assert!((10..20).contains(&v));
        seen[(v - 10) as usize] = true;
    }
    assert!(seen.iter().all(|&s| s), "narrow range never covered");
}

fn stream(seed: u64, n: usize) -> Vec<u64> {
    let mut rng = Rng::from_seed(seed);
    (0..n).map(|_| rng.next_u64()).collect()
}

#[test]
fn recreated_rng_repeats_the_stream() {
    assert_eq!(stream(2024, 16), stream(2024, 16));
    assert_ne!(stream(2024, 16), stream(2025, 16));
}

#[test]
fn single_value_range_always_gives_that_value() {
    let mut rng = Rng::from_seed(3);
    for _ in 0..100 {
        assert_eq!(rng.next_u64_in(77..78), 77);
    }
}

#[test]
fn full_width_range_takes_the_raw_draw() {
    let mut a = Rng::from_seed(42);
    let mut b = Rng::from_seed(42);
    assert_eq!(a.next_u64_in(0..u64::MAX), b.next_u64() % u64::MAX);
}

#[test]
fn state_words_round_trip() {
    let mut rng = Rng::from_seed(5);
    rng.next_u64();
    let words = rng.state_words();
    let mut back = Rng::from_state_words(words).expect("non-zero state");
    assert_eq!(back, rng);
    assert_eq!(back.next_u64(), rng.next_u64());
}

#[test]
fn all_zero_state_is_refused() {
    assert!(Rng::from_state_words([0, 0, 0, 0]).is_none());
    assert!(Rng::from_state_words([0, 0, 0, 1]).is_some());
}

#[test]
fn seeded_words_are_pairwise_distinct() {
    for seed in (0..2000u64).chain([u64::MAX, u64::MAX - 1, 0x9E37_79B9_7F4A_7C15]) {
        let w = Rng::from_seed(seed).state_words();
        for i in 0..4 {
            for j in (i + 1)..4 {
                assert_ne!(w[i], w[j], "seed {seed}");
            }
        }
    }
}
