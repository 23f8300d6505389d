//! Fixed-point colour patterns for strips of LEDs, with the small state
//! machines of the programs that show them.
//!
//! The rendering engine has four layers:
//!
//! * [`scale`]: integer rescaling, on which everything else rests;
//! * [`prng`]: a linear congruential generator, reproducible from its seed;
//! * [`colors`]: RGB and HSV colours, the conversion from HSV to RGB and
//!   interpolation between HSV colours;
//! * [`leds`]: the frame renderer, which encodes pixels for a clocked
//!   strip, a single-wire strip or an analog output, and fills a strip
//!   with a gradient, a mirrored gradient, a triangle wave or the noise of
//!   drifting sprites.
//!
//! Three kinds of sprite animate the patterns: the drifting sprites of
//! [`sprites`], the paced sprites of [`paced`] and the sweeping sprites of
//! [`sweep`]. [`lamp`] adds the fills that bend a gradient by them.
//!
//! The rest are the rules of the programs around the engine:
//! [`buffer`] smooths readings, [`clock`] tells when a task is due,
//! [`message`] reads control messages, [`sensor`] times an echo,
//! [`proximity`] switches a relay, and [`sequencer`] keeps a grid of steps.
//!
//! Every function is verified against its contract: none panics, and each
//! returns what its contract states.

pub mod scale;
pub mod clock;
pub mod prng;
pub mod colors;
pub mod leds;
pub mod sprites;
pub mod buffer;
pub mod paced;
pub mod sweep;
pub mod lamp;
pub mod sequencer;
pub mod sensor;
pub mod proximity;
pub mod message;
