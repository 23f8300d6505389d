use led_patterns::prng::Prng;
use led_patterns::sprites::{RandomSprite, RandomSprites};

fn states(bank: &RandomSprites) -> Vec<(u8, u8, u8)> {
    bank.get_sprites().iter().map(|sprite| (sprite.value, sprite.target, sprite.step_size)).collect()
}

#[test]
fn a_new_sprite_rests_at_zero() {
    let sprite = RandomSprite::new();
    assert_eq!(sprite.get_value(), 0);
    assert_eq!((sprite.value, sprite.target, sprite.step_size), (0, 0, 0));
}

#[test]
fn a_new_bank_draws_value_target_and_step_in_turn() {
    let mut rng = Prng::new(42);
    let bank = RandomSprites::new(3, 255, 3, &mut rng);
    assert_eq!(states(&bank), vec![(27, 184, 2), (246, 247, 1), (205, 130, 2)]);
    // Nine draws were made.
    let mut fresh = Prng::new(42);
    for _ in 0..9 {
        fresh.rand();
    }
    assert_eq!(rng.rand(), fresh.rand());
}

#[test]
fn an_empty_bank_draws_nothing() {
    let mut rng = Prng::new(42);
    let bank = RandomSprites::new(0, 255, 3, &mut rng);
    assert!(bank.get_sprites().is_empty());
    assert_eq!(rng.rand(), 1250496027);
}

#[test]
fn sprites_drift_by_their_step() {
    let mut rng = Prng::new(42);
    let mut bank = RandomSprites::new(3, 255, 3, &mut rng);
    bank.run(&mut rng);
    // The second sprite reaches its target, 247, and draws a new target
    // and step at once.
    assert_eq!(states(&bank), vec![(29, 184, 2), (247, 208, 3), (203, 130, 2)]);
    bank.run(&mut rng);
    assert_eq!(states(&bank), vec![(31, 184, 2), (244, 208, 3), (201, 130, 2)]);
    bank.run(&mut rng);
    bank.run(&mut rng);
    bank.run(&mut rng);
    assert_eq!(states(&bank), vec![(37, 184, 2), (235, 208, 3), (195, 130, 2)]);
}

#[test]
fn sprite_values_stay_in_range_for_a_thousand_ticks() {
    let mut rng = Prng::new(42);
    let mut bank = RandomSprites::new(3, 255, 3, &mut rng);
    for _ in 0..1000 {
        bank.run(&mut rng);
        assert_eq!(bank.get_sprites().len(), 3);
    }
    assert_eq!(states(&bank), vec![(50, 198, 2), (233, 240, 1), (72, 8, 2)]);
}

#[test]
fn sprite_values_stay_within_a_narrow_scale() {
    let mut rng = Prng::new(7);
    let mut bank = RandomSprites::new(4, 100, 20, &mut rng);
    assert_eq!(states(&bank), vec![(20, 36, 17), (64, 63, 7), (11, 100, 16), (8, 16, 2)]);
    for _ in 0..50 {
        bank.run(&mut rng);
        for sprite in bank.get_sprites() {
            assert!(sprite.value <= 100);
            assert!(sprite.target <= 100);
            assert!(1 <= sprite.step_size && sprite.step_size <= 20);
        }
    }
    assert_eq!(states(&bank), vec![(58, 60, 16), (82, 91, 1), (71, 74, 5), (74, 96, 2)]);
}

#[test]
fn a_step_scale_of_zero_still_moves_by_one() {
    let mut rng = Prng::new(11);
    let mut bank = RandomSprites::new(8, 255, 0, &mut rng);
    for _ in 0..100 {
        for sprite in bank.get_sprites() {
            assert_eq!(sprite.step_size, 1);
        }
        bank.run(&mut rng);
    }
}

#[test]
fn drift_is_monotonic_and_never_overshoots() {
    let mut rng = Prng::new(2024);
    let mut bank = RandomSprites::new(16, 255, 40, &mut rng);
    for _ in 0..2000 {
        let before = states(&bank);
        bank.run(&mut rng);
        let after = states(&bank);
        for (old, new) in before.iter().zip(after.iter()) {
            let (value, target, step) = (old.0 as i32, old.1 as i32, old.2 as i32);
            let moved = new.0 as i32;
            // The value lies between where it was and the old target.
            assert!(value.min(target) <= moved && moved <= value.max(target));
            if value != target {
                assert!((moved - target).abs() < (value - target).abs());
            }
            if (value - target).abs() <= step {
                assert_eq!(moved, target);
            } else {
                assert_eq!((moved - target).abs(), (value - target).abs() - step);
                // Not arrived: target and step are kept.
                assert_eq!((new.1, new.2), (old.1, old.2));
            }
        }
    }
}

#[test]
fn banks_from_the_same_seed_run_alike() {
    let mut first_rng = Prng::new(5);
    let mut second_rng = Prng::new(5);
    let mut first = RandomSprites::new(10, 200, 9, &mut first_rng);
    let mut second = RandomSprites::new(10, 200, 9, &mut second_rng);
    for _ in 0..500 {
        first.run(&mut first_rng);
        second.run(&mut second_rng);
        assert_eq!(states(&first), states(&second));
    }
}

#[test]
fn the_largest_bank() {
    let mut rng = Prng::new(1);
    let mut bank = RandomSprites::new(1024, 255, 255, &mut rng);
    assert_eq!(bank.get_sprites().len(), 1024);
    bank.run(&mut rng);
    assert_eq!(bank.get_sprites().len(), 1024);
}
