use secbench_dsp::{Pcg32, Pcg32Seed};

#[test]
fn generate_is_deterministic() {
    let mut a = Pcg32::new(Pcg32Seed::from_state_inc(0x42, 1));
    let mut b = Pcg32::new(Pcg32Seed::from_state_inc(0x42, 1));
    for _ in 0..100 {
        assert_eq!(a.generate(), b.generate());
    }
}

#[test]
fn reset_restarts_the_sequence() {
    let mut a = Pcg32::new(Pcg32Seed::from_state_inc(7, 13));
    let first: Vec<u64> = (0..8).map(|_| a.generate()).collect();
    a.reset(Pcg32Seed::from_state_inc(7, 13));
    let second: Vec<u64> = (0..8).map(|_| a.generate()).collect();
    assert_eq!(first, second);
}

#[test]
fn different_seeds_differ() {
    let mut a = Pcg32::new(Pcg32Seed::from_state_inc(1, 1));
    let mut b = Pcg32::new(Pcg32Seed::from_state_inc(2, 1));
    let va: Vec<u64> = (0..8).map(|_| a.generate()).collect();
    let vb: Vec<u64> = (0..8).map(|_| b.generate()).collect();
    assert_ne!(va, vb);
}

#[test]
fn seed_bytes_are_little_endian() {
    let seed = Pcg32Seed::from_state_inc(0x0102_0304_0506_0708, 0x1112_1314_1516_1718);
    assert_eq!(
        seed.0,
        [
            0x08, 0x07, 0x06, 0x05, 0x04, 0x03, 0x02, 0x01, 0x18, 0x17, 0x16, 0x15, 0x14, 0x13,
            0x12, 0x11,
        ]
    );
}

#[test]
fn default_seed_is_all_zero() {
    let d = Pcg32Seed::default();
    assert_eq!(d.0, [0u8; 16]);
    let mut a = Pcg32::new(d);
    let mut b = Pcg32::new(Pcg32Seed::from_state_inc(0, 0));
    assert_eq!(a.generate(), b.generate());
}

#[test]
fn from_seed_matches_new() {
    let mut a: Pcg32 = Pcg32::from(Pcg32Seed::from_state_inc(3, 9));
    let mut b = Pcg32::new(Pcg32Seed::from_state_inc(3, 9));
    for _ in 0..4 {
        assert_eq!(a.generate(), b.generate());
    }
}

#[test]
fn state_round_trip() {
    let mut a = Pcg32::new(Pcg32Seed::from_state_inc(21, 5));
    a.generate();
    let (state, inc) = a.dump_state();
    let mut b = Pcg32::load_state(state, inc);
    for _ in 0..4 {
        assert_eq!(a.generate(), b.generate());
    }
}

#[test]
fn known_sequence() {
    let mut rng = Pcg32::new(Pcg32Seed::from_state_inc(0x42, 1));
    let vals: Vec<u64> = (0..4).map(|_| rng.generate()).collect();
    assert_eq!(
        vals,
        [1061002624024277059u64, 4666036068389820, 1928889609169, 108041626995119945]
    );
}
