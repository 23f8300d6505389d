use led_patterns::scale::{map_range, u16_map_range, u16_scale, u32_scale, u8_map_range, u8_scale};

#[test]
fn u8_scale_full_factor_is_identity() {
    for value in 0..=255u8 {
        assert_eq!(u8_scale(value, 255), value);
    }
}

#[test]
fn u8_scale_zero_factor_is_zero() {
    for value in 0..=255u8 {
        assert_eq!(u8_scale(value, 0), 0);
    }
}

#[test]
fn u8_scale_exact_values() {
    assert_eq!(u8_scale(128, 127), 64);
    assert_eq!(u8_scale(200, 100), 78);
    assert_eq!(u8_scale(255, 0), 0);
    assert_eq!(u8_scale(0, 200), 0);
}

#[test]
fn u8_scale_never_exceeds_either_operand() {
    for value in 0..=255u8 {
        for factor in 0..=255u8 {
            let out = u8_scale(value, factor);
            assert!(out <= value);
            assert!(out <= factor);
        }
    }
}

#[test]
fn u16_scale_exact_values() {
    assert_eq!(u16_scale(40000, 32767), 20000);
    assert_eq!(u16_scale(65535, 65535), 65535);
    assert_eq!(u16_scale(12345, 65535), 12345);
    assert_eq!(u16_scale(65535, 0), 0);
}

#[test]
fn u32_scale_exact_values() {
    assert_eq!(u32_scale(3_000_000_000, 0x7fff_ffff), 1_500_000_000);
    assert_eq!(u32_scale(0xffff_ffff, 0xffff_ffff), 0xffff_ffff);
    assert_eq!(u32_scale(77, 0xffff_ffff), 77);
    assert_eq!(u32_scale(0xffff_ffff, 0), 0);
}

#[test]
fn map_range_exact_values() {
    assert_eq!(map_range(0, 4, 255), 0);
    assert_eq!(map_range(1, 4, 255), 63);
    assert_eq!(map_range(2, 4, 255), 127);
    assert_eq!(map_range(3, 4, 255), 191);
    assert_eq!(map_range(4, 4, 255), 255);
    assert_eq!(map_range(5, 10, 100), 50);
    assert_eq!(map_range(128, 255, 77), 38);
}

#[test]
fn map_range_holds_input_to_its_maximum() {
    assert_eq!(map_range(9, 4, 200), 200);
    assert_eq!(map_range(255, 1, 17), 17);
}

#[test]
fn map_range_ends_are_exact() {
    for input_max in 1..=255u8 {
        for output_max in [0u8, 1, 77, 254, 255] {
            assert_eq!(map_range(0, input_max, output_max), 0);
            assert_eq!(map_range(input_max, input_max, output_max), output_max);
        }
    }
}

#[test]
fn u8_map_range_agrees_with_map_range() {
    for input_max in [1u8, 4, 9, 61, 100, 255] {
        for input in 0..=255u8 {
            for output_max in [0u8, 50, 200, 255] {
                assert_eq!(
                    u8_map_range(input, input_max, output_max),
                    map_range(input, input_max, output_max)
                );
            }
        }
    }
    assert_eq!(u8_map_range(3, 9, 200), 67);
}

#[test]
fn u8_map_range_holds_input_to_its_maximum() {
    assert_eq!(u8_map_range(200, 100, 50), 50);
    assert_eq!(u8_map_range(100, 100, 50), 50);
    assert_eq!(u8_map_range(5, 4, 255), 255);
    assert_eq!(u8_map_range(255, 1, 17), 17);
}

#[test]
fn u16_map_range_exact_values() {
    assert_eq!(u16_map_range(0, 4, 65535), 0);
    assert_eq!(u16_map_range(1, 4, 65535), 16383);
    assert_eq!(u16_map_range(4, 4, 65535), 65535);
    assert_eq!(u16_map_range(3, 7, 1000), 428);
}

#[test]
fn u16_map_range_holds_input_to_its_maximum() {
    assert_eq!(u16_map_range(9, 4, 65535), 65535);
    assert_eq!(u16_map_range(60000, 30000, 1234), 1234);
    assert_eq!(u16_map_range(30000, 30000, 1234), 1234);
}

#[test]
fn u16_map_range_ends_are_exact() {
    for input_max in [1u16, 4, 1023, 30000, 65535] {
        for output_max in [0u16, 1, 1000, 65534, 65535] {
            assert_eq!(u16_map_range(0, input_max, output_max), 0);
            assert_eq!(u16_map_range(input_max, input_max, output_max), output_max);
        }
    }
}
