use led_patterns::message::{bytes_to_words, decode_command, Command};

fn buffer(bytes: &[u8]) -> [u8; 64] {
    let mut out = [0u8; 64];
    out[..bytes.len()].copy_from_slice(bytes);
    out
}

#[test]
fn words_are_read_lowest_byte_first() {
    let data = [0x78, 0x56, 0x34, 0x12, 0, 0, 0x80, 0x3f, 0xff, 0xff, 0xff, 0xff];
    assert_eq!(bytes_to_words(&data), [0x12345678, 0x3f800000, 0xffffffff]);
}

#[test]
fn words_are_the_bits_of_the_floats_sent() {
    let mut data = Vec::new();
    for channel in [0.25f32, 1.0, 0.5] {
        data.extend_from_slice(&channel.to_le_bytes());
    }
    let words = bytes_to_words(&data);
    assert_eq!(f32::from_bits(words[0]), 0.25);
    assert_eq!(f32::from_bits(words[1]), 1.0);
    assert_eq!(f32::from_bits(words[2]), 0.5);
}

#[test]
fn missing_words_are_zero() {
    assert_eq!(bytes_to_words(&[]), [0, 0, 0]);
    assert_eq!(bytes_to_words(&[1, 0, 0, 0]), [1, 0, 0]);
    assert_eq!(bytes_to_words(&[1, 0, 0, 0, 2, 0, 0, 0]), [1, 2, 0]);
}

#[test]
fn bytes_after_the_colour_are_passed_over() {
    let data = [1, 0, 0, 0, 2, 0, 0, 0, 3, 0, 0, 0, 9, 9, 9];
    assert_eq!(bytes_to_words(&data), [1, 2, 3]);
}

#[test]
fn the_first_byte_tells_the_command() {
    assert_eq!(decode_command(&buffer(&[0, 7, 7])), Command::Off);
    assert_eq!(decode_command(&buffer(&[2, 7, 7])), Command::Report);
    assert_eq!(decode_command(&buffer(&[3])), Command::Unknown);
    assert_eq!(decode_command(&buffer(&[255])), Command::Unknown);
}

#[test]
fn a_command_that_sets_carries_pattern_and_colours() {
    let mut bytes = vec![1u8, 4];
    for word in [1u32, 2, 3, 0x3f800000, 0x3f000000, 0xdeadbeef] {
        bytes.extend_from_slice(&word.to_le_bytes());
    }
    bytes.push(0x55);
    assert_eq!(
        decode_command(&buffer(&bytes)),
        Command::SetColors {
            pattern: 4,
            color_1: [1, 2, 3],
            color_2: [0x3f800000, 0x3f000000, 0xdeadbeef]
        }
    );
}
