//! The control messages of the serial link, as bytes. A message sets a
//! pattern and two colours; each channel of a colour travels as the four
//! bytes of a 32-bit word, lowest byte first. What the words mean as
//! numbers is left to the caller.

use vstd::prelude::*;
use vstd::slice::slice_subrange;

verus! {

/// The word whose four bytes, lowest first, begin at `at`.
pub open spec fn le_word(bytes: Seq<u8>, at: int) -> u32 {
    (bytes[at] + 256 * bytes[at + 1] + 65536 * bytes[at + 2] + 16777216 * bytes[at + 3]) as u32
}

/// The three words of a colour, hue first, taken from the front of
/// `bytes`: a word that `bytes` is too short for is 0.
pub open spec fn color_words(bytes: Seq<u8>) -> Seq<u32> {
    Seq::new(
        3,
        |k: int|
            if 4 * k + 4 <= bytes.len() {
                le_word(bytes, 4 * k)
            } else {
                0u32
            },
    )
}

/// What a message asks for.
#[derive(Debug, Copy, Clone, PartialEq, Eq)]
pub enum Command {
    /// Nothing.
    Off,
    /// Take this pattern and these two colours.
    SetColors { pattern: u8, color_1: [u32; 3], color_2: [u32; 3] },
    /// Report the pattern and the colours in use.
    Report,
    /// A command that is not known, to be passed over.
    Unknown,
}

/// One word from its four bytes, lowest first.
fn word(b0: u8, b1: u8, b2: u8, b3: u8) -> (word: u32)
    ensures
        word == b0 + 256 * b1 + 65536 * b2 + 16777216 * b3,
{
    let word: u32 = (b0 as u32) | ((b1 as u32) << 8) | ((b2 as u32) << 16) | ((b3 as u32) << 24);
    assert(word == b0 + 256 * b1 + 65536 * b2 + 16777216 * b3) by (bit_vector)
        requires
            word == (b0 as u32) | ((b1 as u32) << 8) | ((b2 as u32) << 16) | ((b3 as u32) << 24),
    ;
    word
}

/// Reads the three channels of a colour, each a word of four bytes. The
/// bytes come in whole words, or are at least the twelve of a colour.
pub fn bytes_to_words(data: &[u8]) -> (words: [u32; 3])
    requires
        data@.len() >= 12 || data@.len() % 4 == 0,
    ensures
        words@ == color_words(data@),
{
    let mut out: [u32; 3] = [0u32;3];
    let mut index: usize = 0;
    while index < 3 && 4 * index + 4 <= data.len()
        invariant
            index <= 3,
            4 * index <= data@.len(),
            forall|k: int| 0 <= k < index ==> out@[k] == le_word(data@, 4 * k),
            forall|k: int| index <= k < 3 ==> out@[k] == 0,
        decreases 3 - index,
    {
        let at: usize = 4 * index;
        out[index] = word(data[at], data[at + 1], data[at + 2], data[at + 3]);
        index += 1;
    }
    assert(out@ =~= color_words(data@));
    out
}

/// Reads the command that a receive buffer of 64 bytes holds: the first
/// byte tells its kind, and a command that sets has the pattern in the
/// second byte, the first colour in bytes 2 to 13 and the second in bytes
/// 14 to 25.
pub fn decode_command(usb_buf: &[u8; 64]) -> (command: Command)
    ensures
        match command {
            Command::Off => usb_buf@[0] == 0,
            Command::SetColors { pattern, color_1, color_2 } => {
                &&& usb_buf@[0] == 1
                &&& pattern == usb_buf@[1]
                &&& color_1@ == color_words(usb_buf@.subrange(2, 14))
                &&& color_2@ == color_words(usb_buf@.subrange(14, 26))
            },
            Command::Report => usb_buf@[0] == 2,
            Command::Unknown => usb_buf@[0] > 2,
        },
{
    let kind: u8 = usb_buf[0];
    if kind == 0 {
        Command::Off
    } else if kind == 1 {
        let bytes: &[u8] = usb_buf.as_slice();
        let color_1: [u32; 3] = bytes_to_words(slice_subrange(bytes, 2, 14));
        let color_2: [u32; 3] = bytes_to_words(slice_subrange(bytes, 14, 26));
        Command::SetColors { pattern: usb_buf[1], color_1, color_2 }
    } else if kind == 2 {
        Command::Report
    } else {
        Command::Unknown
    }
}

} // verus!
