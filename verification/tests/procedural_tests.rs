use rand::Isaac64Rng;
use rand::Rng;
use rand::SeedableRng;
use worldgen::procedural::draw_generator;
use worldgen::procedural::generate_accepts;
use worldgen::procedural::generator_index;
use worldgen::procedural::spread_divisor;
use worldgen::procedural::NUM_PERLINS;
use worldgen::scalar::Scalar;

fn sc(x: f32) -> Scalar {
    Scalar::from_bits(x.to_bits()).unwrap()
}

#[test]
fn generator_index_is_the_remainder_by_fifty() {
    assert_eq!(NUM_PERLINS, 50);
    assert_eq!(generator_index(0), 0);
    assert_eq!(generator_index(49), 49);
    assert_eq!(generator_index(50), 0);
    assert_eq!(generator_index(123), 23);
    assert_eq!(generator_index(u32::MAX), 45);
}

#[test]
fn drawn_generator_follows_the_stream() {
    let mut a: Isaac64Rng = SeedableRng::from_seed(&[11u64][..]);
    let mut b: Isaac64Rng = SeedableRng::from_seed(&[11u64][..]);
    let mut seen_nonzero = false;
    for _ in 0..200 {
        let index = draw_generator(&mut a);
        let word = b.next_u32();
        assert!(index < NUM_PERLINS);
        assert_eq!(index, word as usize % 50);
        seen_nonzero = seen_nonzero || index != 0;
    }
    assert!(seen_nonzero);
}

#[test]
fn spread_divisor_is_one_less_than_the_units() {
    assert_eq!(spread_divisor(1), 1);
    assert_eq!(spread_divisor(2), 1);
    assert_eq!(spread_divisor(3), 2);
    assert_eq!(spread_divisor(4), 3);
    assert_eq!(spread_divisor(255), 254);
}

#[test]
fn generate_wants_ordered_bounds_and_a_unit() {
    assert!(generate_accepts(sc(0.5), sc(1.5), 1));
    assert!(generate_accepts(sc(0.5), sc(0.5), 4));
    assert!(!generate_accepts(sc(1.5), sc(0.5), 4));
    assert!(!generate_accepts(sc(0.5), sc(1.5), 0));
    assert!(generate_accepts(sc(-2.0), sc(-1.0), 2));
}
