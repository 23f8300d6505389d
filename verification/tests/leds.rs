use led_patterns::colors::{hsv_2_rgb, hsv_interp, Pixel, Pixel16, PixelHsv};
use led_patterns::leds::{BufferType, LedType, Leds};
use led_patterns::prng::Prng;
use led_patterns::sprites::RandomSprites;

fn bytes(leds: &Leds) -> Vec<u8> {
    match leds.buffer() {
        BufferType::Addressable(bytes) => bytes.clone(),
        BufferType::Analog(_) => panic!("an addressable strip has bytes"),
    }
}

fn duty(leds: &Leds) -> [u16; 3] {
    match leds.buffer() {
        BufferType::Addressable(_) => panic!("an analog output has duty values"),
        BufferType::Analog(duty) => *duty,
    }
}

fn pixel_of(leds: &Leds, index: usize) -> Pixel {
    let bytes = bytes(leds);
    match leds.led_type() {
        LedType::Apa102 => {
            assert_eq!(bytes[4 + 4 * index], 255);
            Pixel::new(bytes[4 + 4 * index + 3], bytes[4 + 4 * index + 2], bytes[4 + 4 * index + 1])
        }
        LedType::Ws2801 => Pixel::new(bytes[3 * index], bytes[3 * index + 1], bytes[3 * index + 2]),
        LedType::Analog => panic!("an analog output has no bytes"),
    }
}

const RED: (u8, u8, u8) = (0, 255, 255);
const CYAN: (u8, u8, u8) = (127, 255, 255);

fn hsv(color: (u8, u8, u8)) -> PixelHsv {
    PixelHsv::new(color.0, color.1, color.2)
}

#[test]
fn new_clocked_strip_is_sized_and_zeroed() {
    let leds = Leds::new(5, LedType::Apa102);
    assert_eq!(*leds.led_type(), LedType::Apa102);
    assert_eq!(leds.len(), 5);
    assert_eq!(leds.buf_end(), 4 + 5 * 4 + 3);
    assert_eq!(bytes(&leds), vec![0u8; 27]);
}

#[test]
fn new_single_wire_strip_is_sized_and_zeroed() {
    let leds = Leds::new(5, LedType::Ws2801);
    assert_eq!(*leds.led_type(), LedType::Ws2801);
    assert_eq!(leds.len(), 5);
    assert_eq!(leds.buf_end(), 15);
    assert_eq!(bytes(&leds), vec![0u8; 15]);
}

#[test]
fn new_analog_output_has_one_pixel() {
    let leds = Leds::new(40, LedType::Analog);
    assert_eq!(*leds.led_type(), LedType::Analog);
    assert_eq!(leds.len(), 1);
    assert_eq!(leds.buf_end(), 3);
    assert_eq!(duty(&leds), [0, 0, 0]);
}

#[test]
fn new_longest_and_empty_strips() {
    let longest = Leds::new(1024, LedType::Apa102);
    assert_eq!(longest.buf_end(), 4612);
    assert_eq!(bytes(&longest).len(), 4612);
    let empty = Leds::new(0, LedType::Apa102);
    assert_eq!(empty.buf_end(), 4);
    assert_eq!(bytes(&empty), vec![0u8; 4]);
    let none = Leds::new(0, LedType::Ws2801);
    assert_eq!(bytes(&none), Vec::<u8>::new());
}

#[test]
fn set_led_encodes_clocked_pixels() {
    let mut leds = Leds::new(3, LedType::Apa102);
    leds.set_led(Pixel::new(1, 2, 3), 1);
    assert_eq!(bytes(&leds), vec![0, 0, 0, 0, 0, 0, 0, 0, 255, 3, 2, 1, 0, 0, 0, 0, 0, 0]);
    leds.set_led(Pixel::new(10, 20, 30), 0);
    leds.set_led(Pixel::new(40, 50, 60), 2);
    assert_eq!(
        bytes(&leds),
        vec![0, 0, 0, 0, 255, 30, 20, 10, 255, 3, 2, 1, 255, 60, 50, 40, 0, 0]
    );
}

#[test]
fn set_led_encodes_single_wire_pixels() {
    let mut leds = Leds::new(3, LedType::Ws2801);
    leds.set_led(Pixel::new(1, 2, 3), 1);
    assert_eq!(bytes(&leds), vec![0, 0, 0, 1, 2, 3, 0, 0, 0]);
    leds.set_led(Pixel::new(40, 50, 60), 2);
    assert_eq!(bytes(&leds), vec![0, 0, 0, 1, 2, 3, 40, 50, 60]);
}

#[test]
fn set_led_sets_analog_duty_from_the_high_byte() {
    let mut leds = Leds::new(1, LedType::Analog);
    leds.set_led(Pixel::new(1, 128, 255), 0);
    assert_eq!(duty(&leds), [256, 32768, 65280]);
}

#[test]
fn set_led_without_such_a_pixel_changes_nothing() {
    for led_type in [LedType::Apa102, LedType::Ws2801] {
        let mut leds = Leds::new(3, led_type);
        leds.all_off();
        let before = bytes(&leds);
        leds.set_led(Pixel::new(9, 9, 9), 3);
        leds.set_led(Pixel::new(9, 9, 9), 4);
        leds.set_led(Pixel::new(9, 9, 9), usize::MAX);
        assert_eq!(bytes(&leds), before);
    }
    let mut analog = Leds::new(1, LedType::Analog);
    analog.set_led(Pixel::new(9, 9, 9), 1);
    assert_eq!(duty(&analog), [0, 0, 0]);
    let mut empty = Leds::new(0, LedType::Apa102);
    empty.set_led(Pixel::new(9, 9, 9), 0);
    assert_eq!(bytes(&empty), vec![0u8; 4]);
}

#[test]
fn set_led16_sets_analog_duty() {
    let mut leds = Leds::new(1, LedType::Analog);
    leds.set_led16(Pixel16::new(1, 40000, 65535), 0);
    assert_eq!(duty(&leds), [1, 40000, 65535]);
    leds.set_led16(Pixel16::new(5, 5, 5), 1);
    assert_eq!(duty(&leds), [1, 40000, 65535]);
}

#[test]
fn set_led16_leaves_addressable_strips_alone() {
    for led_type in [LedType::Apa102, LedType::Ws2801] {
        let mut leds = Leds::new(2, led_type);
        leds.set_led(Pixel::new(1, 2, 3), 0);
        let before = bytes(&leds);
        leds.set_led16(Pixel16::new(1, 40000, 65535), 0);
        assert_eq!(bytes(&leds), before);
    }
}

#[test]
fn all_off_keeps_the_brightness_byte_of_clocked_pixels() {
    let mut leds = Leds::new(5, LedType::Apa102);
    leds.all_off();
    assert_eq!(
        bytes(&leds),
        vec![
            0, 0, 0, 0, 255, 0, 0, 0, 255, 0, 0, 0, 255, 0, 0, 0, 255, 0, 0, 0, 255, 0, 0, 0, 0,
            0, 0
        ]
    );
}

#[test]
fn all_off_zeroes_single_wire_and_analog() {
    let mut strip = Leds::new(5, LedType::Ws2801);
    strip.fill_gradient(&hsv(RED), &hsv(CYAN));
    strip.all_off();
    assert_eq!(bytes(&strip), vec![0u8; 15]);
    let mut analog = Leds::new(1, LedType::Analog);
    analog.set_led(Pixel::new(1, 2, 3), 0);
    analog.all_off();
    assert_eq!(duty(&analog), [0, 0, 0]);
}

#[test]
fn all_off_round_trip() {
    for led_type in [LedType::Apa102, LedType::Ws2801] {
        let mut leds = Leds::new(7, led_type);
        leds.all_off();
        let off = bytes(&leds);
        for index in 0..7 {
            leds.set_led(Pixel::new(index as u8 + 1, 200, 99), index);
        }
        assert_ne!(bytes(&leds), off);
        leds.all_off();
        assert_eq!(bytes(&leds), off);
        leds.all_off();
        assert_eq!(bytes(&leds), off);
    }
    let mut analog = Leds::new(1, LedType::Analog);
    analog.all_off();
    analog.set_led(Pixel::new(1, 2, 3), 0);
    analog.all_off();
    assert_eq!(duty(&analog), [0, 0, 0]);
}

#[test]
fn fill_gradient_on_a_strip_of_five() {
    let (start, end) = (hsv(RED), hsv(CYAN));
    for led_type in [LedType::Apa102, LedType::Ws2801] {
        let mut leds = Leds::new(5, led_type);
        leds.fill_gradient(&start, &end);
        assert_eq!(pixel_of(&leds, 0), hsv_2_rgb(start));
        assert_eq!(pixel_of(&leds, 4), hsv_2_rgb(end));
        assert_eq!(pixel_of(&leds, 2), hsv_2_rgb(hsv_interp(&start, &end, 127)));
    }
}

#[test]
fn fill_gradient_exact_bytes() {
    let mut clocked = Leds::new(5, LedType::Apa102);
    clocked.fill_gradient(&hsv(RED), &hsv(CYAN));
    assert_eq!(
        bytes(&clocked),
        vec![
            0, 0, 0, 0, 255, 0, 0, 255, 255, 0, 186, 255, 255, 0, 255, 135, 255, 54, 255, 0, 255,
            246, 255, 0, 0, 0, 0
        ]
    );
    let mut wire = Leds::new(5, LedType::Ws2801);
    wire.fill_gradient(&hsv(RED), &hsv(CYAN));
    assert_eq!(bytes(&wire), vec![255, 0, 0, 255, 186, 0, 135, 255, 0, 0, 255, 54, 0, 255, 246]);
}

#[test]
fn fill_gradient_on_one_pixel_takes_the_start() {
    let (start, end) = (hsv(RED), hsv(CYAN));
    for led_type in [LedType::Apa102, LedType::Ws2801] {
        let mut leds = Leds::new(1, led_type);
        leds.fill_gradient(&start, &end);
        assert_eq!(pixel_of(&leds, 0), hsv_2_rgb(start));
    }
    let mut analog = Leds::new(1, LedType::Analog);
    analog.fill_gradient(&start, &end);
    assert_eq!(duty(&analog), [65280, 0, 0]);
}

#[test]
fn fill_gradient_on_no_pixels_changes_nothing() {
    let mut leds = Leds::new(0, LedType::Apa102);
    leds.fill_gradient(&hsv(RED), &hsv(CYAN));
    assert_eq!(bytes(&leds), vec![0u8; 4]);
}

#[test]
fn fill_gradient_dual_on_a_strip_of_five() {
    let (start, end) = (hsv(RED), hsv(CYAN));
    for led_type in [LedType::Apa102, LedType::Ws2801] {
        let mut leds = Leds::new(5, led_type);
        leds.fill_gradient_dual(&start, &end);
        assert_eq!(pixel_of(&leds, 2), hsv_2_rgb(end));
        assert_eq!(pixel_of(&leds, 0), hsv_2_rgb(start));
        assert_eq!(pixel_of(&leds, 4), hsv_2_rgb(start));
    }
}

#[test]
fn fill_gradient_dual_exact_bytes() {
    let mut clocked = Leds::new(5, LedType::Apa102);
    clocked.fill_gradient_dual(&hsv(RED), &hsv(CYAN));
    assert_eq!(
        bytes(&clocked),
        vec![
            0, 0, 0, 0, 255, 0, 0, 255, 255, 0, 255, 129, 255, 246, 255, 0, 255, 0, 255, 129, 255,
            0, 0, 255, 0, 0, 0
        ]
    );
    let mut wire = Leds::new(5, LedType::Ws2801);
    wire.fill_gradient_dual(&hsv(RED), &hsv(CYAN));
    assert_eq!(bytes(&wire), vec![255, 0, 0, 129, 255, 0, 0, 255, 246, 129, 255, 0, 255, 0, 0]);
    let mut analog = Leds::new(1, LedType::Analog);
    analog.fill_gradient_dual(&hsv(RED), &hsv(CYAN));
    assert_eq!(duty(&analog), [65280, 0, 0]);
}

#[test]
fn fill_triangle_at_phase_zero_is_the_mirrored_gradient() {
    for led_type in [LedType::Apa102, LedType::Ws2801] {
        let mut dual = Leds::new(9, led_type);
        dual.fill_gradient_dual(&hsv(RED), &hsv(CYAN));
        let mut triangle = Leds::new(9, led_type);
        triangle.fill_triangle(&hsv(RED), &hsv(CYAN), 0);
        assert_eq!(bytes(&triangle), bytes(&dual));
    }
}

#[test]
fn fill_triangle_moves_with_the_phase() {
    let mut clocked = Leds::new(5, LedType::Apa102);
    clocked.fill_triangle(&hsv(RED), &hsv(CYAN), 64);
    assert_eq!(
        bytes(&clocked),
        vec![
            0, 0, 0, 0, 255, 0, 255, 129, 255, 246, 255, 0, 255, 0, 255, 129, 255, 0, 0, 255, 255,
            0, 255, 129, 0, 0, 0
        ]
    );
    let mut wire = Leds::new(5, LedType::Ws2801);
    wire.fill_triangle(&hsv(RED), &hsv(CYAN), 64);
    assert_eq!(bytes(&wire), vec![129, 255, 0, 0, 255, 246, 129, 255, 0, 255, 0, 0, 129, 255, 0]);
}

#[test]
fn fill_triangle_swings_an_analog_output() {
    // At rest the pixel has the start colour, half a turn on the end
    // colour, as the first pixel of a strip has.
    let mut analog = Leds::new(1, LedType::Analog);
    analog.fill_triangle(&hsv(RED), &hsv(CYAN), 0);
    assert_eq!(duty(&analog), [65280, 0, 0]);
    analog.fill_triangle(&hsv(RED), &hsv(CYAN), 128);
    assert_eq!(duty(&analog), [0, 65280, 62976]);
    analog.fill_triangle(&hsv(RED), &hsv(CYAN), 64);
    assert_eq!(duty(&analog), [33024, 65280, 0]);
    analog.fill_triangle(&hsv(RED), &hsv(CYAN), 200);
    assert_eq!(duty(&analog), [45312, 65280, 0]);
    analog.fill_triangle(&hsv(RED), &hsv(CYAN), 255);
    assert_eq!(duty(&analog), [65280, 1536, 0]);
}

#[test]
fn fill_triangle_is_one_rule_for_every_output() {
    for phase in [0u8, 1, 64, 127, 128, 129, 200, 255] {
        let mut analog = Leds::new(1, LedType::Analog);
        analog.fill_triangle(&hsv(RED), &hsv(CYAN), phase);
        let mut wire = Leds::new(1, LedType::Ws2801);
        wire.fill_triangle(&hsv(RED), &hsv(CYAN), phase);
        let pixel = pixel_of(&wire, 0);
        assert_eq!(
            duty(&analog),
            [(pixel.r as u16) << 8, (pixel.g as u16) << 8, (pixel.b as u16) << 8]
        );
    }
}

#[test]
fn fill_triangle_half_a_turn_on_swaps_the_colours() {
    let (start, end) = (hsv(RED), hsv(CYAN));
    for led_type in [LedType::Apa102, LedType::Ws2801] {
        let mut leds = Leds::new(5, led_type);
        leds.fill_triangle(&start, &end, 128);
        assert_eq!(pixel_of(&leds, 0), hsv_2_rgb(end));
        assert_eq!(pixel_of(&leds, 2), hsv_2_rgb(start));
        assert_eq!(pixel_of(&leds, 4), hsv_2_rgb(end));
    }
}

#[test]
fn the_centre_of_a_mirrored_gradient_is_the_end_colour() {
    // Also for colours that lie far apart.
    let pairs = [
        (hsv((0, 255, 255)), hsv((128, 255, 255))),
        (hsv((250, 10, 3)), hsv((2, 240, 255))),
        (hsv(RED), hsv(CYAN)),
    ];
    for (start, end) in pairs {
        for len in [3usize, 5, 7, 101, 1023] {
            let mut leds = Leds::new(len, LedType::Ws2801);
            leds.fill_gradient_dual(&start, &end);
            assert_eq!(pixel_of(&leds, len / 2), hsv_2_rgb(end));
            assert_eq!(pixel_of(&leds, 0), hsv_2_rgb(start));
            assert_eq!(pixel_of(&leds, len - 1), hsv_2_rgb(start));
        }
    }
}

#[test]
fn fill_random_pairs_pixels_with_sprites() {
    let mut rng = Prng::new(42);
    let sprites = RandomSprites::new(5, 255, 3, &mut rng);
    let values: Vec<u8> = sprites.get_sprites().iter().map(|sprite| sprite.get_value()).collect();
    assert_eq!(values, vec![27, 246, 205, 208, 239]);
    let (start, end) = (hsv(RED), hsv(CYAN));
    for led_type in [LedType::Apa102, LedType::Ws2801] {
        let mut leds = Leds::new(5, led_type);
        leds.fill_random(&start, &end, &sprites);
        for (index, value) in values.iter().enumerate() {
            assert_eq!(pixel_of(&leds, index), hsv_2_rgb(hsv_interp(&end, &start, *value)));
        }
    }
    let mut leds = Leds::new(5, LedType::Ws2801);
    leds.fill_random(&start, &end, &sprites);
    assert_eq!(
        bytes(&leds),
        vec![0, 255, 168, 255, 30, 0, 255, 150, 0, 255, 144, 0, 255, 48, 0]
    );
}

#[test]
fn fill_random_stops_at_the_shorter_of_strip_and_bank() {
    let mut rng = Prng::new(42);
    let sprites = RandomSprites::new(5, 255, 3, &mut rng);
    let (start, end) = (hsv(RED), hsv(CYAN));

    let mut short = Leds::new(3, LedType::Apa102);
    short.fill_random(&start, &end, &sprites);
    assert_eq!(
        bytes(&short),
        vec![0, 0, 0, 0, 255, 168, 255, 0, 255, 0, 30, 255, 255, 0, 150, 255, 0, 0]
    );

    let mut long = Leds::new(7, LedType::Ws2801);
    long.all_off();
    long.set_led(Pixel::new(1, 2, 3), 5);
    long.set_led(Pixel::new(4, 5, 6), 6);
    long.fill_random(&start, &end, &sprites);
    assert_eq!(
        bytes(&long),
        vec![0, 255, 168, 255, 30, 0, 255, 150, 0, 255, 144, 0, 255, 48, 0, 1, 2, 3, 4, 5, 6]
    );

    let mut analog = Leds::new(1, LedType::Analog);
    analog.fill_random(&start, &end, &sprites);
    assert_eq!(duty(&analog), [0, 65280, 43008]);

    let mut rng = Prng::new(42);
    let nothing = RandomSprites::new(0, 255, 3, &mut rng);
    let mut untouched = Leds::new(2, LedType::Ws2801);
    untouched.set_led(Pixel::new(1, 2, 3), 0);
    untouched.fill_random(&start, &end, &nothing);
    assert_eq!(bytes(&untouched), vec![1, 2, 3, 0, 0, 0]);
}

#[test]
fn fills_leave_the_frame_markers_alone() {
    let mut leds = Leds::new(4, LedType::Apa102);
    leds.fill_gradient(&hsv(RED), &hsv(CYAN));
    let filled = bytes(&leds);
    assert_eq!(&filled[..4], &[0, 0, 0, 0]);
    assert_eq!(&filled[20..], &[0, 0]);
    for index in 0..4 {
        assert_eq!(filled[4 + 4 * index], 255);
    }
}

#[test]
fn fill_gradient_on_the_longest_strip() {
    let (start, end) = (hsv((10, 200, 30)), hsv((250, 20, 220)));
    let mut leds = Leds::new(1024, LedType::Ws2801);
    leds.fill_gradient(&start, &end);
    assert_eq!(pixel_of(&leds, 0), hsv_2_rgb(start));
    assert_eq!(pixel_of(&leds, 1023), hsv_2_rgb(end));
    // Pixel 511 lies at 511 * 255 / 1023, which is 127.
    assert_eq!(pixel_of(&leds, 511), hsv_2_rgb(hsv_interp(&start, &end, 127)));
    let mut dual = Leds::new(1023, LedType::Apa102);
    dual.fill_gradient_dual(&hsv(RED), &hsv(CYAN));
    assert_eq!(pixel_of(&dual, 0), hsv_2_rgb(hsv(RED)));
    assert_eq!(pixel_of(&dual, 511), hsv_2_rgb(hsv(CYAN)));
    assert_eq!(pixel_of(&dual, 1022), hsv_2_rgb(hsv(RED)));
}

#[test]
fn a_fill_replaces_what_the_pixels_held() {
    let mut leds = Leds::new(5, LedType::Apa102);
    for index in 0..5 {
        leds.set_led(Pixel::new(9, 9, 9), index);
    }
    leds.fill_gradient(&hsv(RED), &hsv(CYAN));
    let mut fresh = Leds::new(5, LedType::Apa102);
    fresh.fill_gradient(&hsv(RED), &hsv(CYAN));
    assert_eq!(bytes(&leds), bytes(&fresh));
}
