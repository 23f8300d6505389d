use led_patterns::colors::PixelHsv;
use led_patterns::leds::{BufferType, LedType, Leds};
use led_patterns::paced::RandomSprite;
use led_patterns::prng::Prng;
use led_patterns::sweep::{Sprite, SpriteGroup};

fn pixels(leds: &Leds) -> Vec<(u8, u8, u8)> {
    match leds.buffer() {
        BufferType::Addressable(bytes) => match leds.led_type() {
            LedType::Apa102 => bytes[4..4 + 4 * leds.len()]
                .chunks(4)
                .map(|led| {
                    assert_eq!(led[0], 255);
                    (led[3], led[2], led[1])
                })
                .collect(),
            _ => bytes.chunks(3).map(|led| (led[0], led[1], led[2])).collect(),
        },
        BufferType::Analog(_) => panic!("an addressable strip has bytes"),
    }
}

fn table() -> [u8; 256] {
    let mut table = [0u8; 256];
    for (index, entry) in table.iter_mut().enumerate() {
        *entry = (index * 7 + 3) as u8;
    }
    table
}

fn paced_sprites(scale: u8) -> Vec<RandomSprite> {
    let mut rng = Prng::new(99);
    (0..6).map(|_| RandomSprite::new(scale, &mut rng)).collect()
}

const START: (u8, u8, u8) = (10, 255, 63);
const END: (u8, u8, u8) = (200, 255, 63);

fn hsv(color: (u8, u8, u8)) -> PixelHsv {
    PixelHsv::new(color.0, color.1, color.2)
}

#[test]
fn paced_sprite_draws_value_target_and_pace() {
    let sprites = paced_sprites(8);
    let drawn: Vec<(u8, u8)> =
        sprites.iter().map(|sprite| (sprite.get_value(), sprite.get_scale())).collect();
    assert_eq!(drawn, vec![(3, 8), (6, 8), (8, 8), (2, 8), (1, 8), (2, 8)]);
    let wide: Vec<u8> = paced_sprites(200).iter().map(|sprite| sprite.get_value()).collect();
    assert_eq!(wide, vec![75, 149, 183, 63, 28, 65]);
}

#[test]
fn paced_sprite_steps_when_its_timer_runs_out() {
    let mut rng = Prng::new(123456789);
    let mut sprite = RandomSprite::new(8, &mut rng);
    assert_eq!(sprite.get_value(), 1);
    let mut changes: Vec<(u32, u8)> = Vec::new();
    let mut last = sprite.get_value();
    for tick in 1..=3000 {
        sprite.run(&mut rng);
        assert!(sprite.get_value() <= 8);
        let moved = sprite.get_value() as i32 - last as i32;
        assert!(moved.abs() <= 1);
        if sprite.get_value() != last {
            changes.push((tick, sprite.get_value()));
            last = sprite.get_value();
        }
    }
    assert_eq!(
        changes,
        vec![
            (186, 0),
            (571, 1),
            (770, 2),
            (969, 3),
            (1168, 4),
            (1367, 5),
            (1735, 6),
            (1904, 7),
            (2073, 8),
            (2417, 7),
            (2783, 6),
            (2974, 5)
        ]
    );
}

#[test]
fn paced_sprite_runs_long() {
    let mut rng = Prng::new(1);
    let mut sprite = RandomSprite::new(255, &mut rng);
    assert_eq!(sprite.get_value(), 166);
    for _ in 0..100_000 {
        sprite.run(&mut rng);
    }
    assert_eq!(sprite.get_value(), 217);
    assert_eq!(rng.rand(), {
        let mut after = Prng::new(1644289366);
        after.rand()
    });
}

#[test]
fn sweeping_sprites_are_drawn() {
    let mut rng = Prng::new(123456789);
    let group = SpriteGroup::<2>::new(3, 1, 8, &mut rng);
    assert_eq!(
        group.sprites_iter().to_vec(),
        vec![Sprite { pos: 59434, falloff: 3, speed: 1 }, Sprite { pos: 37816, falloff: 3, speed: 6 }]
    );
}

#[test]
fn sweeping_sprites_travel_and_turn() {
    let mut rng = Prng::new(123456789);
    let mut group = SpriteGroup::<2>::new(3, 1, 8, &mut rng);
    for _ in 0..3 {
        group.run(1, &mut rng);
    }
    assert_eq!(
        group.sprites_iter().to_vec(),
        vec![Sprite { pos: 59437, falloff: 3, speed: 1 }, Sprite { pos: 37834, falloff: 3, speed: 6 }]
    );
    for _ in 0..20_000 {
        group.run(1, &mut rng);
        for sprite in group.sprites_iter() {
            assert!(sprite.speed != 0 && -9 <= sprite.speed && sprite.speed <= 9);
        }
    }
    assert_eq!(
        group.sprites_iter().to_vec(),
        vec![Sprite { pos: 52960, falloff: 3, speed: 8 }, Sprite { pos: 32404, falloff: 3, speed: 4 }]
    );
}

#[test]
fn sweeping_sprites_take_bounds_of_zero_as_one() {
    let mut rng = Prng::new(5);
    let mut group = SpriteGroup::<3>::new(10, 0, 0, &mut rng);
    assert_eq!(
        group.sprites_iter().to_vec(),
        vec![
            Sprite { pos: 47194, falloff: 10, speed: 2 },
            Sprite { pos: 55144, falloff: 10, speed: 2 },
            Sprite { pos: 38, falloff: 10, speed: 1 }
        ]
    );
    // A time step of 255 is -1 in its low byte: the sprites go back.
    group.run(255, &mut rng);
    assert_eq!(
        group.sprites_iter().to_vec(),
        vec![
            Sprite { pos: 47192, falloff: 10, speed: 2 },
            Sprite { pos: 55142, falloff: 10, speed: 2 },
            Sprite { pos: 37, falloff: 10, speed: 1 }
        ]
    );
    group.run(0, &mut rng);
    assert_eq!(group.sprites_iter()[2], Sprite { pos: 37, falloff: 10, speed: 1 });
    group.run(257, &mut rng);
    assert_eq!(group.sprites_iter()[2], Sprite { pos: 38, falloff: 10, speed: 1 });
}

#[test]
fn fill_sprites_lights_the_pixels_near_a_sprite() {
    let sprites =
        [Sprite { pos: 1000, falloff: 3, speed: 5 }, Sprite { pos: 40000, falloff: 3, speed: -7 }];
    let mut leds = Leds::new(10, LedType::Apa102);
    leds.fill_sprites(&sprites, &hsv((170, 255, 31)), &hsv((127, 255, 31)));
    assert_eq!(
        pixels(&leds),
        vec![
            (0, 2, 31),
            (0, 10, 31),
            (0, 20, 31),
            (0, 25, 31),
            (0, 17, 31),
            (0, 7, 31),
            (0, 7, 31),
            (0, 17, 31),
            (0, 27, 31),
            (0, 31, 29)
        ]
    );
}

#[test]
fn fill_sprites_holds_the_light_to_full() {
    let sprites = [
        Sprite { pos: 30000, falloff: 1, speed: 5 },
        Sprite { pos: 30010, falloff: 1, speed: -7 },
        Sprite { pos: 29990, falloff: 2, speed: 3 },
    ];
    let mut leds = Leds::new(4, LedType::Ws2801);
    leds.fill_sprites(&sprites, &hsv((170, 255, 31)), &hsv((127, 255, 31)));
    assert_eq!(pixels(&leds), vec![(0, 1, 31), (0, 1, 31), (0, 1, 31), (0, 4, 31)]);
}

#[test]
fn fill_sprites_without_sprites_is_the_background() {
    let mut leds = Leds::new(3, LedType::Ws2801);
    leds.fill_sprites(&[], &hsv((170, 255, 31)), &hsv((0, 255, 255)));
    assert_eq!(pixels(&leds), vec![(255, 0, 0); 3]);
}

#[test]
fn fill_sprites_from_a_group() {
    let mut rng = Prng::new(123456789);
    let group = SpriteGroup::<2>::new(3, 1, 8, &mut rng);
    let mut from_group = Leds::new(10, LedType::Apa102);
    from_group.fill_sprites(group.sprites_iter(), &hsv((170, 255, 31)), &hsv((127, 255, 31)));
    let mut by_hand = Leds::new(10, LedType::Apa102);
    by_hand.fill_sprites(
        &[Sprite { pos: 59434, falloff: 3, speed: 1 }, Sprite { pos: 37816, falloff: 3, speed: 6 }],
        &hsv((170, 255, 31)),
        &hsv((127, 255, 31)),
    );
    assert_eq!(pixels(&from_group), pixels(&by_hand));
}

#[test]
fn fill_sine_reads_the_table_around_the_strip() {
    let mut leds = Leds::new(6, LedType::Apa102);
    leds.fill_sine(hsv(START), hsv(END), &table(), 0);
    assert_eq!(
        pixels(&leds),
        vec![(63, 17, 0), (0, 63, 1), (0, 14, 63), (57, 63, 0), (0, 63, 53), (37, 0, 63)]
    );
    leds.fill_sine(hsv(START), hsv(END), &table(), 100);
    assert_eq!(
        pixels(&leds),
        vec![(0, 29, 63), (63, 54, 0), (0, 63, 38), (22, 0, 63), (20, 63, 0), (0, 36, 63)]
    );
}

#[test]
fn fill_gradient_mod_moves_the_hue_on() {
    let mut leds = Leds::new(6, LedType::Apa102);
    leds.fill_gradient_mod(hsv(START), hsv(END), &paced_sprites(8));
    assert_eq!(
        pixels(&leds),
        vec![(63, 19, 0), (46, 63, 0), (0, 63, 12), (0, 63, 59), (0, 12, 63), (44, 0, 63)]
    );
    // With wide sprites the hue wraps round the wheel.
    leds.fill_gradient_mod(hsv(START), hsv(END), &paced_sprites(200));
    assert_eq!(
        pixels(&leds),
        vec![(0, 63, 0), (37, 0, 63), (63, 19, 0), (22, 0, 63), (26, 0, 63), (63, 13, 0)]
    );
}

#[test]
fn fill_sine_mod_moves_the_hue_either_way() {
    let mut leds = Leds::new(6, LedType::Ws2801);
    leds.fill_sine_mod(hsv(START), hsv(END), &table(), 100, &paced_sprites(8));
    assert_eq!(
        pixels(&leds),
        vec![(0, 30, 63), (63, 57, 0), (0, 63, 44), (19, 0, 63), (24, 63, 0), (0, 39, 63)]
    );
    leds.fill_sine_mod(hsv(START), hsv(END), &table(), 100, &paced_sprites(200));
    assert_eq!(
        pixels(&leds),
        vec![(0, 63, 60), (0, 63, 0), (34, 0, 63), (0, 31, 63), (63, 0, 0), (0, 63, 38)]
    );
}

#[test]
fn lamp_fills_take_more_sprites_than_pixels() {
    let mut leds = Leds::new(4, LedType::Ws2801);
    leds.fill_gradient_mod(hsv(START), hsv(END), &paced_sprites(8));
    assert_eq!(pixels(&leds).len(), 4);
}

#[test]
fn sweeping_sprites_take_a_longer_step_while_they_are_slow() {
    let mut rng = Prng::new(123456789);
    let mut group = SpriteGroup::<2>::new(3, 1, 8, &mut rng);
    // Speeds of 1 and 6: ten times as far still fits.
    group.run(10, &mut rng);
    assert_eq!(
        group.sprites_iter().to_vec(),
        vec![Sprite { pos: 59444, falloff: 3, speed: 1 }, Sprite { pos: 37876, falloff: 3, speed: 6 }]
    );
}
