use pixel_cells::random::Random;

#[test]
fn seeded_generators_repeat_their_stream() {
    let mut a = Random::new_seed(42);
    let mut b = Random::new_seed(42);
    for _ in 0..20 {
        assert_eq!(a.random(None), b.random(None));
    }
}

#[test]
fn reseeding_restarts_the_stream() {
    let mut a = Random::new_seed(7);
    let first: Vec<u64> = (0..5).map(|_| a.random(Some(1000))).collect();
    a.seed(7);
    let again: Vec<u64> = (0..5).map(|_| a.random(Some(1000))).collect();
    assert_eq!(first, again);
}

#[test]
fn draws_stay_in_range() {
    let mut r = Random::new_seed(1);
    for _ in 0..200 {
        assert!(r.random(Some(3)) < 3);
        let v = r.range(10..13);
        assert!((10..13).contains(&v));
    }
    assert_eq!(r.range(10..11), 10);
    assert_eq!(r.random(Some(1)), 0);
}

#[test]
fn thread_seeded_generator_draws() {
    let mut r = Random::new().expect("thread generator");
    assert!(r.range(5..9) >= 5);
}
