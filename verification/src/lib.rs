//! Verified core of an interactive, LED-assisted MIDI practice player.
//!
//! The crate models a musical score as a dense timeline of moments (one
//! per MIDI tick), paces playback with integer-microsecond timers, classifies
//! tracks into right and left hand parts, maps keys to positions on a
//! physical LED strip, and drives the shared state that a background input
//! listener and the foreground scheduling loop exchange while a learner
//! practises a piece.
//!
//! All device I/O (MIDI ports, the SPI LED strip, sleeping, condition
//! variables) is reached only through traits (`Connection`, `LedTransport`,
//! [`Timer`], `LearnerHost`, `InputConnection`) that callers implement
//! outside this crate.

pub mod classify;
pub mod event;
pub mod learner;
pub mod player;
pub mod sheet;
pub mod timers;

use vstd::prelude::*;

verus! {

/// Number of pixels on the physical LED strip; every frame written to the
/// strip holds exactly this many RGB values.
pub const NUM_LEDS: usize = 176;

/// The LED index a key maps to: the strip is laid out in four contiguous
/// pitch bands, each with a fixed offset from twice the key number.
pub open spec fn led_index_spec(key: u8) -> int {
    if key < 56 {
        key * 2 - 39
    } else if key < 69 {
        key * 2 - 40
    } else if key < 93 {
        key * 2 - 41
    } else {
        key * 2 - 42
    }
}

/// Keys whose LED index falls on the strip. Below 20 the index would be
/// negative, above 108 it would run past the end of the strip.
pub open spec fn key_on_strip(key: u8) -> bool {
    20 <= key <= 108
}

/// Calculates the LED index for a given key.
///
/// The mapping is exact: it encodes a fixed, non-uniform LED-per-key wiring,
/// and any deviation would misaddress the physical strip.
pub fn get_led_index(key: u8) -> (index: usize)
    requires
        key_on_strip(key),
    ensures
        index == led_index_spec(key),
        index < NUM_LEDS,
{
    let led_offset: usize;

    if key < 56 {
        led_offset = 39;
    } else if key < 69 {
        led_offset = 40;
    } else if key < 93 {
        led_offset = 41;
    } else {
        led_offset = 42;
    }

    key as usize * 2 - led_offset
}

/// Whether a key lies on the physical strip, as an executable test:
/// callers check it before asking for LED indices.
pub fn key_fits_strip(key: u8) -> (r: bool)
    ensures
        r == key_on_strip(key),
{
    20 <= key && key <= 108
}

/// The rainbow colormap used to render note velocity on the LED strip:
/// 256 RGB entries sweeping through the hues.
pub const RAINBOW_FAST_LED: [(u8, u8, u8); 256] = [
    (255, 0, 0), (252, 3, 0), (250, 5, 0), (247, 8, 0), (244, 11, 0), (242, 13, 0),
    (239, 16, 0), (236, 19, 0), (234, 21, 0), (231, 24, 0), (228, 27, 0), (226, 29, 0),
    (223, 32, 0), (220, 35, 0), (218, 37, 0), (215, 40, 0), (212, 43, 0), (210, 45, 0),
    (207, 48, 0), (204, 51, 0), (202, 53, 0), (199, 56, 0), (196, 59, 0), (194, 61, 0),
    (191, 64, 0), (188, 67, 0), (186, 69, 0), (183, 72, 0), (180, 75, 0), (178, 77, 0),
    (175, 80, 0), (172, 83, 0), (170, 85, 0), (170, 88, 0), (170, 91, 0), (170, 93, 0),
    (170, 96, 0), (170, 99, 0), (170, 101, 0), (170, 104, 0), (170, 107, 0), (170, 109, 0),
    (170, 112, 0), (170, 115, 0), (170, 117, 0), (170, 120, 0), (170, 123, 0), (170, 125, 0),
    (170, 128, 0), (170, 131, 0), (170, 133, 0), (170, 136, 0), (170, 139, 0), (170, 141, 0),
    (170, 144, 0), (170, 147, 0), (170, 149, 0), (170, 152, 0), (170, 155, 0), (170, 157, 0),
    (170, 160, 0), (170, 163, 0), (170, 165, 0), (170, 168, 0), (169, 171, 0), (163, 173, 0),
    (158, 176, 0), (153, 179, 0), (147, 181, 0), (142, 184, 0), (137, 187, 0), (131, 189, 0),
    (126, 192, 0), (121, 195, 0), (115, 197, 0), (110, 200, 0), (105, 203, 0), (99, 205, 0),
    (94, 208, 0), (89, 211, 0), (83, 213, 0), (78, 216, 0), (73, 219, 0), (67, 221, 0),
    (62, 224, 0), (57, 227, 0), (51, 229, 0), (46, 232, 0), (41, 235, 0), (35, 237, 0),
    (30, 240, 0), (25, 243, 0), (19, 245, 0), (14, 248, 0), (9, 251, 0), (3, 253, 0),
    (0, 254, 1), (0, 251, 4), (0, 249, 6), (0, 246, 9), (0, 243, 12), (0, 241, 14),
    (0, 238, 17), (0, 235, 20), (0, 233, 22), (0, 230, 25), (0, 227, 28), (0, 225, 30),
    (0, 222, 33), (0, 219, 36), (0, 217, 38), (0, 214, 41), (0, 211, 44), (0, 209, 46),
    (0, 206, 49), (0, 203, 52), (0, 201, 54), (0, 198, 57), (0, 195, 60), (0, 193, 62),
    (0, 190, 65), (0, 187, 68), (0, 185, 70), (0, 182, 73), (0, 179, 76), (0, 177, 78),
    (0, 174, 81), (0, 171, 84), (0, 167, 88), (0, 162, 93), (0, 157, 98), (0, 151, 104),
    (0, 146, 109), (0, 141, 114), (0, 135, 120), (0, 130, 125), (0, 125, 130), (0, 119, 136),
    (0, 114, 141), (0, 109, 146), (0, 103, 152), (0, 98, 157), (0, 93, 162), (0, 87, 168),
    (0, 82, 173), (0, 77, 178), (0, 71, 184), (0, 66, 189), (0, 61, 194), (0, 55, 200),
    (0, 50, 205), (0, 45, 210), (0, 39, 216), (0, 34, 221), (0, 29, 226), (0, 23, 232),
    (0, 18, 237), (0, 13, 242), (0, 7, 248), (0, 2, 253), (2, 0, 253), (4, 0, 251),
    (7, 0, 248), (10, 0, 245), (12, 0, 243), (15, 0, 240), (18, 0, 237), (20, 0, 235),
    (23, 0, 232), (26, 0, 229), (28, 0, 227), (31, 0, 224), (34, 0, 221), (36, 0, 219),
    (39, 0, 216), (42, 0, 213), (44, 0, 211), (47, 0, 208), (50, 0, 205), (52, 0, 203),
    (55, 0, 200), (58, 0, 197), (60, 0, 195), (63, 0, 192), (66, 0, 189), (68, 0, 187),
    (71, 0, 184), (74, 0, 181), (76, 0, 179), (79, 0, 176), (82, 0, 173), (84, 0, 171),
    (87, 0, 168), (90, 0, 165), (92, 0, 163), (95, 0, 160), (98, 0, 157), (100, 0, 155),
    (103, 0, 152), (106, 0, 149), (108, 0, 147), (111, 0, 144), (114, 0, 141), (116, 0, 139),
    (119, 0, 136), (122, 0, 133), (124, 0, 131), (127, 0, 128), (130, 0, 125), (132, 0, 123),
    (135, 0, 120), (138, 0, 117), (140, 0, 115), (143, 0, 112), (146, 0, 109), (148, 0, 107),
    (151, 0, 104), (154, 0, 101), (156, 0, 99), (159, 0, 96), (162, 0, 93), (164, 0, 91),
    (167, 0, 88), (170, 0, 85), (172, 0, 83), (175, 0, 80), (178, 0, 77), (180, 0, 75),
    (183, 0, 72), (186, 0, 69), (188, 0, 67), (191, 0, 64), (194, 0, 61), (196, 0, 59),
    (199, 0, 56), (202, 0, 53), (204, 0, 51), (207, 0, 48), (210, 0, 45), (212, 0, 43),
    (215, 0, 40), (218, 0, 37), (220, 0, 35), (223, 0, 32), (226, 0, 29), (228, 0, 27),
    (231, 0, 24), (234, 0, 21), (236, 0, 19), (239, 0, 16), (242, 0, 13), (244, 0, 11),
    (247, 0, 8), (250, 0, 5), (252, 0, 3), (255, 0, 0),
];

/// The colormap index a velocity maps to, with the provisional defaults of
/// the velocity-to-color curve (offset 210, scale 120, linear curve): the
/// velocity is scaled to `255 * (velocity / 127) * (120 / 100)` in exact
/// rational arithmetic, reduced modulo the table size, shifted by the
/// offset, and reduced again.
pub open spec fn rainbow_index_spec(velocity: u8) -> int {
    ((306 * velocity / 127) % 256 + 210) % 256
}

/// Calculates the color for a note velocity using the rainbow colormap.
pub fn velocityrainbow_color(velocity: u8) -> (color: (u8, u8, u8))
    ensures
        color == RAINBOW_FAST_LED@[rainbow_index_spec(velocity)],
{
    let index: u32 = ((306 * velocity as u32 / 127) % 256 + 210) % 256;
    RAINBOW_FAST_LED[index as usize]
}


/// Paces MIDI playback: converts tick counts into wall-clock sleeps under
/// a changeable tempo. Implementations hold the clock and do the actual
/// sleeping; all durations are microsecond counts.
///
/// A timer carries two specification-level histories: the tempo values it
/// has been handed and the sleeps it has performed. The playback loops'
/// contracts are stated against them, so implementations must let them
/// mean exactly that.
pub trait Timer {
    /// The tempo values this timer has been handed, oldest first.
    /// Implementations outside the verified world inherit this unspecified
    /// default; a verified implementation overrides it with its real log.
    open spec fn tempos(&self) -> Seq<u32> {
        vstd::pervasive::arbitrary()
    }

    /// The sleeps this timer has performed, oldest first: the tick count
    /// and the measured processing time subtracted from it. Implementations
    /// outside the verified world inherit this unspecified default.
    open spec fn slept(&self) -> Seq<(u32, u64)> {
        vstd::pervasive::arbitrary()
    }

    /// The number of microseconds that should be slept for `n_ticks` ticks.
    /// Computes only; neither history grows.
    fn sleep_duration(&mut self, n_ticks: u32) -> (micros: u64)
        ensures
            final(self).tempos() == old(self).tempos(),
            final(self).slept() == old(self).slept(),
    ;

    /// Changes the timer's tempo, in microseconds per beat, appending the
    /// value to the tempo history.
    fn change_tempo(&mut self, tempo: u32)
        ensures
            final(self).tempos() == old(self).tempos().push(tempo),
            final(self).slept() == old(self).slept(),
    ;

    /// Sleeps for the duration of `n_ticks` ticks, appending the sleep to
    /// the history with no processing time subtracted.
    fn sleep(&mut self, n_ticks: u32)
        ensures
            final(self).tempos() == old(self).tempos(),
            final(self).slept() == old(self).slept().push((n_ticks, 0u64)),
    ;

    /// Sleeps for the duration of `n_ticks` ticks, less the given measured
    /// processing time that a blocking wait already consumed; the pair is
    /// appended to the sleep history.
    fn sleep_with_adjustment(&mut self, n_ticks: u32, process_micros: u64)
        ensures
            final(self).tempos() == old(self).tempos(),
            final(self).slept() == old(self).slept().push((n_ticks, process_micros)),
    ;

    /// The length in microseconds of a slice of moments. Tempo events in
    /// the slice change the timer's tempo as a side effect, so the
    /// histories after a call are unspecified.
    fn duration(&mut self, moments: &[crate::event::Moment]) -> u64;
}

} // verus!
