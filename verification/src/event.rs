//! The event model: a single scheduled occurrence of the score (a tempo
//! change or a channel message), the timed entries of a raw track, and the
//! [`Moment`] holding all events that fall on one tick.

use vstd::prelude::*;

verus! {

/// A MIDI channel message, held as plain values.
///
/// The core inspects only `NoteOn` and `NoteOff`; the remaining variants are
/// carried through untouched so that an output sink can still reproduce
/// them.
#[derive(Clone, Copy, Debug, PartialEq, Eq)]
pub enum MidiMessage {
    /// A key was struck with the given velocity.
    NoteOn { key: u8, vel: u8 },
    /// A key was released with the given velocity.
    NoteOff { key: u8, vel: u8 },
    /// Polyphonic aftertouch on one key.
    Aftertouch { key: u8, vel: u8 },
    /// A controller value changed.
    Controller { controller: u8, value: u8 },
    /// The channel switched to another program.
    ProgramChange { program: u8 },
    /// Channel-wide aftertouch.
    ChannelAftertouch { vel: u8 },
    /// The pitch-bend wheel moved; 14 significant bits.
    PitchBend { bend: u16 },
}

/// A channel message together with the track it came from and its channel.
#[derive(Clone, Copy, Debug, PartialEq, Eq)]
pub struct MidiEvent {
    /// Index of the originating track within the score.
    pub track: usize,
    /// The MIDI channel, at most 15.
    pub channel: u8,
    /// The message itself.
    pub message: MidiMessage,
}

/// A single scheduled occurrence: a tempo change (microseconds per beat) or
/// a channel message. Immutable once constructed.
#[derive(Clone, Copy, Debug, PartialEq, Eq)]
pub enum Event {
    /// A new tempo, in microseconds per beat.
    Tempo(u32),
    /// A channel message with its origin.
    Midi(MidiEvent),
}

/// One timed entry of a raw track: the tick delay since the previous entry,
/// and the event standing there, if it is one the core models. Entries whose
/// event is `None` still advance the tick position.
#[derive(Clone, Copy, Debug, PartialEq, Eq)]
pub struct TrackEntry {
    /// Ticks since the previous entry of the same track.
    pub delta: u32,
    /// The event at this offset, if any.
    pub event: Option<Event>,
}

/// Whether an event is a channel message (as opposed to a tempo change).
pub open spec fn is_midi(e: Event) -> bool {
    e is Midi
}

/// All events of a moment are simultaneous: they occur at the same tick
/// offset from the previous moment. A moment may be empty, which the
/// scheduler treats as "advance the tick counter with no side effects".
#[derive(Clone, Debug, PartialEq, Eq)]
pub struct Moment {
    /// The simultaneous events, in score order.
    pub events: Vec<Event>,
}

impl View for Moment {
    type V = Seq<Event>;

    open spec fn view(&self) -> Seq<Event> {
        self.events@
    }
}

impl Default for Moment {
    /// The canonical empty moment.
    fn default() -> (m: Moment)
        ensures
            m@ == Seq::<Event>::empty(),
    {
        Moment { events: Vec::new() }
    }
}

impl Moment {
    /// True when the moment holds no event.
    pub fn is_empty(&self) -> (r: bool)
        ensures
            r == (self@.len() == 0),
    {
        self.events.len() == 0
    }

    /// Appends one event to the moment.
    pub fn push(&mut self, e: Event)
        ensures
            final(self)@ == old(self)@.push(e),
    {
        self.events.push(e);
    }

    /// Appends all events of `other`, keeping both orders: the result plays
    /// `self`'s events first, then `other`'s.
    pub fn merge(&mut self, other: Moment)
        ensures
            final(self)@ == old(self)@ + other@,
    {
        let mut rest = other;
        let ghost pre = self.events@;
        let ghost incoming = rest.events@;
        let mut i: usize = 0;
        while i < rest.events.len()
            invariant
                i <= rest.events.len(),
                rest.events@ == incoming,
                self.events@ == pre + incoming.take(i as int),
            decreases rest.events.len() - i,
        {
            self.events.push(rest.events[i]);
            proof {
                assert(incoming.take(i + 1) == incoming.take(i as int).push(incoming[i as int]));
            }
            i = i + 1;
        }
        proof {
            assert(incoming.take(rest.events@.len() as int) == incoming);
        }
    }
}

} // verus!
