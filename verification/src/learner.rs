//! Interactive playback: the shared state a background input listener and
//! the foreground scheduling loop exchange, the listener's decision rules,
//! and the learner's moment loop that withholds practice-track notes until
//! the right keys are physically pressed.
//!
//! Ownership follows the design: the foreground loop owns the lifecycle of
//! the shared structures (creates and clears them); the listener only
//! mutates their contents, each structure under its own lock, in the
//! smallest possible critical section. The methods of [`ExpectedKeys`] and
//! [`PressedKeys`] are those critical sections; [`handle_midi_message`] is
//! the listener's whole decision over one owned state, and what it proves
//! holds step by step for the split sections as well.

use vstd::prelude::*;

use crate::event::{Event, MidiEvent, MidiMessage, Moment};
use crate::player::{Connection, event_key_on_strip, lemma_partial_msgs_prefix, moment_sink_msgs,
    moment_tempo_vals, sent_msgs, sheet_keys_on_strip, sheet_sink_msgs, sheet_tempo_vals,
    sleep_gaps, slept_ticks};
use crate::sheet::moments_view;
use crate::{Timer, get_led_index, key_on_strip, led_index_spec};

verus! {

/// What the strip should show for one key in the expected mapping's terms.
enum KeySlot {
    /// The key is not in the mapping.
    Absent,
    /// The key is required and has not been pressed since it was required.
    Waiting,
    /// The key is required and a press has been observed.
    Done,
}

/// The per-moment mapping from key number to a "has been pressed since
/// required" flag, scoped to one moment's wait and cleared after it.
pub struct ExpectedKeys {
    slots: Vec<KeySlot>,
}

/// The wait predicate: the mapping is empty or every required key has been
/// pressed. The foreground loop blocks until this holds.
pub open spec fn expected_satisfied(m: Map<u8, bool>) -> bool {
    forall|k: u8| #[trigger] m.dom().contains(k) ==> m[k]
}

impl View for ExpectedKeys {
    type V = Map<u8, bool>;

    closed spec fn view(&self) -> Map<u8, bool> {
        Map::new(
            |k: u8| k < 128 && !(self.slots@[k as int] is Absent),
            |k: u8| self.slots@[k as int] is Done,
        )
    }
}

impl ExpectedKeys {
    /// One slot per possible key.
    pub closed spec fn wf(&self) -> bool {
        self.slots@.len() == 128
    }

    /// An empty mapping: nothing is required.
    pub fn new() -> (e: ExpectedKeys)
        ensures
            e.wf(),
            e@ == Map::<u8, bool>::empty(),
    {
        let mut slots: Vec<KeySlot> = Vec::new();
        while slots.len() < 128
            invariant
                slots@.len() <= 128,
                forall|k: int| 0 <= k < slots@.len() ==> slots@[k] is Absent,
            decreases 128 - slots@.len(),
        {
            slots.push(KeySlot::Absent);
        }
        let e = ExpectedKeys { slots };
        proof {
            assert(e@ =~= Map::<u8, bool>::empty());
        }
        e
    }

    /// Requires a key: inserts it with the flag still unpressed.
    pub fn expect(&mut self, key: u8)
        requires
            old(self).wf(),
            key < 128,
        ensures
            final(self).wf(),
            final(self)@ == old(self)@.insert(key, false),
    {
        self.slots.set(key as usize, KeySlot::Waiting);
        proof {
            assert(self@ =~= old(self)@.insert(key, false));
        }
    }

    /// The listener observed a press: if the key is required, its flag
    /// becomes pressed and the caller must signal the waiter. A key not in
    /// the mapping is left alone.
    pub fn observe_on(&mut self, key: u8) -> (was_expected: bool)
        requires
            old(self).wf(),
            key < 128,
        ensures
            final(self).wf(),
            was_expected == old(self)@.dom().contains(key),
            was_expected ==> final(self)@ == old(self)@.insert(key, true),
            !was_expected ==> *final(self) == *old(self),
    {
        match self.slots[key as usize] {
            KeySlot::Absent => false,
            _ => {
                self.slots.set(key as usize, KeySlot::Done);
                proof {
                    assert(self@ =~= old(self)@.insert(key, true));
                }
                true
            },
        }
    }

    /// The listener observed a release: if the key is required, its flag
    /// goes back to unpressed. A key not in the mapping is left alone.
    pub fn observe_off(&mut self, key: u8) -> (was_expected: bool)
        requires
            old(self).wf(),
            key < 128,
        ensures
            final(self).wf(),
            was_expected == old(self)@.dom().contains(key),
            was_expected ==> final(self)@ == old(self)@.insert(key, false),
            !was_expected ==> *final(self) == *old(self),
    {
        match self.slots[key as usize] {
            KeySlot::Absent => false,
            _ => {
                self.slots.set(key as usize, KeySlot::Waiting);
                proof {
                    assert(self@ =~= old(self)@.insert(key, false));
                }
                true
            },
        }
    }

    /// Whether the wait predicate holds: the mapping is empty or every
    /// required key has been pressed. Checked again after every wake, so
    /// spurious wakeups are harmless.
    pub fn satisfied(&self) -> (r: bool)
        requires
            self.wf(),
        ensures
            r == expected_satisfied(self@),
    {
        let mut i: usize = 0;
        while i < 128
            invariant
                self.wf(),
                i <= 128,
                forall|k: int| 0 <= k < i ==> !(self.slots@[k] is Waiting),
            decreases 128 - i,
        {
            if let KeySlot::Waiting = self.slots[i] {
                proof {
                    assert(self@.dom().contains(i as u8));
                    assert(!self@[i as u8]);
                }
                return false;
            }
            i = i + 1;
        }
        proof {
            assert forall|k: u8| self@.dom().contains(k) implies self@[k] by {
                assert(!(self.slots@[k as int] is Waiting));
            }
        }
        true
    }

    /// Empties the mapping; done by the foreground loop once a moment's
    /// wait is over.
    pub fn clear(&mut self)
        requires
            old(self).wf(),
        ensures
            final(self).wf(),
            final(self)@ == Map::<u8, bool>::empty(),
    {
        let mut i: usize = 0;
        while i < 128
            invariant
                self.wf(),
                i <= 128,
                forall|k: int| 0 <= k < i ==> self.slots@[k] is Absent,
            decreases 128 - i,
        {
            self.slots.set(i, KeySlot::Absent);
            i = i + 1;
        }
        proof {
            assert(self@ =~= Map::<u8, bool>::empty());
        }
    }
}

/// The set of keys currently physically held, persistent across moments.
pub struct PressedKeys {
    held: Vec<bool>,
}

impl View for PressedKeys {
    type V = Set<u8>;

    closed spec fn view(&self) -> Set<u8> {
        Set::new(|k: u8| k < 128 && self.held@[k as int])
    }
}

impl PressedKeys {
    /// One flag per possible key.
    pub closed spec fn wf(&self) -> bool {
        self.held@.len() == 128
    }

    /// No key held.
    pub fn new() -> (p: PressedKeys)
        ensures
            p.wf(),
            p@ == Set::<u8>::empty(),
    {
        let mut held: Vec<bool> = Vec::new();
        while held.len() < 128
            invariant
                held@.len() <= 128,
                forall|k: int| 0 <= k < held@.len() ==> !held@[k],
            decreases 128 - held@.len(),
        {
            held.push(false);
        }
        let p = PressedKeys { held };
        proof {
            assert(p@ =~= Set::<u8>::empty());
        }
        p
    }

    /// The key went down.
    pub fn insert(&mut self, key: u8)
        requires
            old(self).wf(),
            key < 128,
        ensures
            final(self).wf(),
            final(self)@ == old(self)@.insert(key),
    {
        self.held.set(key as usize, true);
        proof {
            assert(self@ =~= old(self)@.insert(key));
        }
    }

    /// The key came up.
    pub fn remove(&mut self, key: u8)
        requires
            old(self).wf(),
            key < 128,
        ensures
            final(self).wf(),
            final(self)@ == old(self)@.remove(key),
    {
        self.held.set(key as usize, false);
        proof {
            assert(self@ =~= old(self)@.remove(key));
        }
    }

    /// Whether the key is currently held.
    pub fn contains(&self, key: u8) -> (r: bool)
        requires
            self.wf(),
            key < 128,
        ensures
            r == self@.contains(key),
    {
        self.held[key as usize]
    }
}

/// The whole shared learning state as one owned value: the expected
/// mapping, the pressed set, and the signal flag that accompanies the
/// condition variable. The running system keeps the three parts under
/// separate locks; this value is their joint model, and the tests drive it.
pub struct LearnerState {
    /// The per-moment expected mapping.
    pub expected: ExpectedKeys,
    /// The persistent set of held keys.
    pub pressed: PressedKeys,
    /// Raised whenever an expected key is pressed; the waiter is notified
    /// at the same time.
    pub signal: bool,
}

impl LearnerState {
    /// Both structures sized for every possible key.
    pub open spec fn wf(&self) -> bool {
        self.expected.wf() && self.pressed.wf()
    }

    /// Fresh state: nothing expected, nothing held, no signal.
    pub fn new() -> (s: LearnerState)
        ensures
            s.wf(),
            s.expected@ == Map::<u8, bool>::empty(),
            s.pressed@ == Set::<u8>::empty(),
            !s.signal,
    {
        LearnerState { expected: ExpectedKeys::new(), pressed: PressedKeys::new(), signal: false }
    }
}

/// What the listener does to the LED strip for one message: nothing, or
/// paint one pixel and write the frame.
#[derive(Debug, Clone, Copy, PartialEq, Eq)]
pub enum LedCommand {
    /// Leave the strip as it is.
    NoChange,
    /// Paint the pixel at `index` in `color` and write the frame.
    Paint { index: usize, color: (u8, u8, u8) },
}

/// One listener delivery's effect on the expected mapping: a press marks a
/// required key pressed, a release marks it unpressed, any other key is
/// left alone.
pub open spec fn deliver(m: Map<u8, bool>, press: bool, key: u8) -> Map<u8, bool> {
    if m.dom().contains(key) {
        m.insert(key, press)
    } else {
        m
    }
}

/// The expected mapping after a whole sequence of deliveries, oldest
/// first; each element is a press flag and a key.
pub open spec fn deliver_all(m: Map<u8, bool>, ds: Seq<(bool, u8)>) -> Map<u8, bool>
    decreases ds.len(),
{
    if ds.len() == 0 {
        m
    } else {
        deliver_all(deliver(m, ds.first().0, ds.first().1), ds.drop_first())
    }
}

/// The decisions the background input listener takes for one raw input
/// message, applied to the shared state.
///
/// The first byte's high nibble classifies the message. A note-on adds the
/// key to the pressed set; if the key is required, its flag becomes
/// pressed and the signal is raised (the caller notifies the condition
/// variable), otherwise the key's LED turns red to flag a wrong key. A
/// note-off removes the key from the pressed set; if the key is required,
/// its flag goes back to unpressed, otherwise the key's LED is cleared.
/// Anything else changes nothing. The listener never touches the LED
/// buffer when the expected mapping was touched, so it never holds the LED
/// lock while the waiter holds the mapping's.
pub fn handle_midi_message(state: &mut LearnerState, message: &[u8]) -> (cmd: LedCommand)
    requires
        old(state).wf(),
        message@.len() >= 2,
        key_on_strip(message@[1]),
    ensures
        final(state).wf(),
        ({
            let key = message@[1];
            let status = message@[0] & 0xf0;
            if status == 0x90 {
                &&& final(state).pressed@ == old(state).pressed@.insert(key)
                &&& final(state).expected@ == deliver(old(state).expected@, true, key)
                &&& if old(state).expected@.dom().contains(key) {
                    final(state).signal && cmd == LedCommand::NoChange
                } else {
                    final(state).signal == old(state).signal && cmd == (LedCommand::Paint {
                        index: led_index_spec(key) as usize,
                        color: (1u8, 0u8, 0u8),
                    })
                }
            } else if status == 0x80 {
                &&& final(state).pressed@ == old(state).pressed@.remove(key)
                &&& final(state).expected@ == deliver(old(state).expected@, false, key)
                &&& final(state).signal == old(state).signal
                &&& if old(state).expected@.dom().contains(key) {
                    cmd == LedCommand::NoChange
                } else {
                    cmd == (LedCommand::Paint {
                        index: led_index_spec(key) as usize,
                        color: (0u8, 0u8, 0u8),
                    })
                }
            } else {
                *final(state) == *old(state) && cmd == LedCommand::NoChange
            }
        }),
{
    let key = message[1];
    let index = get_led_index(key);
    let status = message[0] & 0xf0;

    if status == 0x90 {
        state.pressed.insert(key);
        let was_expected = state.expected.observe_on(key);
        if was_expected {
            state.signal = true;
            LedCommand::NoChange
        } else {
            LedCommand::Paint { index, color: (1, 0, 0) }
        }
    } else if status == 0x80 {
        state.pressed.remove(key);
        let was_expected = state.expected.observe_off(key);
        if was_expected {
            LedCommand::NoChange
        } else {
            LedCommand::Paint { index, color: (0, 0, 0) }
        }
    } else {
        LedCommand::NoChange
    }
}

proof fn lemma_deliver_all_snoc(m: Map<u8, bool>, ds: Seq<(bool, u8)>, d: (bool, u8))
    ensures
        deliver_all(m, ds.push(d)) == deliver(deliver_all(m, ds), d.0, d.1),
    decreases ds.len(),
{
    if ds.len() == 0 {
        let m1 = deliver(m, d.0, d.1);
        assert(ds.push(d).first() == d);
        assert(ds.push(d).drop_first() =~= Seq::<(bool, u8)>::empty());
        assert(deliver_all(m1, Seq::<(bool, u8)>::empty()) == m1);
        assert(deliver_all(m, ds) == m);
    } else {
        let m1 = deliver(m, ds.first().0, ds.first().1);
        assert(ds.push(d).first() == ds.first());
        assert(ds.push(d).drop_first() =~= ds.drop_first().push(d));
        assert(deliver_all(m, ds.push(d)) == deliver_all(m1, ds.drop_first().push(d)));
        assert(deliver_all(m, ds) == deliver_all(m1, ds.drop_first()));
        lemma_deliver_all_snoc(m1, ds.drop_first(), d);
    }
}

proof fn lemma_deliver_all_dom(m: Map<u8, bool>, ds: Seq<(bool, u8)>)
    ensures
        deliver_all(m, ds).dom() == m.dom(),
    decreases ds.len(),
{
    if ds.len() > 0 {
        let m1 = deliver(m, ds.first().0, ds.first().1);
        assert(m1.dom() =~= m.dom());
        lemma_deliver_all_dom(m1, ds.drop_first());
    }
}

/// A key whose last delivery was a press ends up marked pressed.
proof fn lemma_deliver_all_last_press(m: Map<u8, bool>, ds: Seq<(bool, u8)>, k: u8, i: int)
    requires
        m.dom().contains(k),
        0 <= i < ds.len(),
        ds[i].1 == k,
        ds[i].0,
        forall|j: int| i < j < ds.len() ==> ds[j].1 != k,
    ensures
        deliver_all(m, ds)[k],
    decreases ds.len(),
{
    let last = ds.last();
    assert(ds =~= ds.drop_last().push(last));
    lemma_deliver_all_snoc(m, ds.drop_last(), last);
    lemma_deliver_all_dom(m, ds.drop_last());
    if i == ds.len() - 1 {
        assert(last.1 == k && last.0);
        assert(deliver_all(m, ds) == deliver(deliver_all(m, ds.drop_last()), true, k));
    } else {
        assert(last.1 != k);
        lemma_deliver_all_last_press(m, ds.drop_last(), k, i);
    }
}

/// What the foreground loop does with one channel message of a moment:
/// possibly paint a pixel, possibly withhold the note and require its key,
/// and whether to forward the message to the output sink.
#[derive(Debug, Clone, Copy, PartialEq, Eq)]
pub struct EventDecision {
    /// The pixel to paint and its color, if the message touches a key.
    pub paint: Option<(usize, (u8, u8, u8))>,
    /// The key to add to the expected mapping, withholding playback of
    /// this note until the learner presses it.
    pub expect: Option<u8>,
    /// Whether the message is forwarded to the output sink.
    pub play: bool,
}

/// The range of keys the physical keyboard can deliver; notes outside it
/// cannot be practised and play automatically.
pub open spec fn key_on_keyboard(key: u8) -> bool {
    36 <= key <= 96
}

/// The foreground loop's decision for one channel message while learning.
///
/// A NoteOn paints the key's LED: off for velocity zero, a right-hand
/// color for the right-hand track, another color for every other track;
/// the color deepens when the key is already held, signalling that it must
/// be released and struck again. A sounded NoteOn on the practice track
/// whose key the keyboard can deliver is withheld from the sink and its
/// key becomes required. A NoteOff darkens the key's LED and is withheld
/// under the same track and range test. Everything else passes through.
pub fn learn_event_decision(
    msg: &MidiEvent,
    right_hand_track: usize,
    learn_track: usize,
    already_pressed: bool,
) -> (d: EventDecision)
    requires
        event_key_on_strip(Event::Midi(*msg)),
    ensures
        match msg.message {
            MidiMessage::NoteOn { key, vel } => {
                let value: u8 = if already_pressed {
                    2
                } else {
                    1
                };
                let withhold = vel != 0 && msg.track == learn_track && key_on_keyboard(key);
                &&& d.paint == Some(
                    (
                        led_index_spec(key) as usize,
                        if vel == 0 {
                            (0u8, 0u8, 0u8)
                        } else if msg.track == right_hand_track {
                            (0u8, value, 0u8)
                        } else {
                            (0u8, 0u8, value)
                        },
                    ),
                )
                &&& d.expect == if withhold {
                    Some(key)
                } else {
                    None::<u8>
                }
                &&& d.play == !withhold
            },
            MidiMessage::NoteOff { key, .. } => {
                let withhold = msg.track == learn_track && key_on_keyboard(key);
                &&& d.paint == Some((led_index_spec(key) as usize, (0u8, 0u8, 0u8)))
                &&& d.expect is None
                &&& d.play == !withhold
            },
            _ => d.paint is None && d.expect is None && d.play,
        },
{
    match msg.message {
        MidiMessage::NoteOn { key, vel } => {
            let index = get_led_index(key);
            let value: u8 = if already_pressed {
                2
            } else {
                1
            };
            let color: (u8, u8, u8);
            if vel == 0 {
                color = (0, 0, 0);
            } else if msg.track == right_hand_track {
                color = (0, value, 0);
            } else {
                color = (0, 0, value);
            }
            if vel != 0 && msg.track == learn_track && key >= 36 && key <= 96 {
                EventDecision { paint: Some((index, color)), expect: Some(key), play: false }
            } else {
                EventDecision { paint: Some((index, color)), expect: None, play: true }
            }
        },
        MidiMessage::NoteOff { key, .. } => {
            let index = get_led_index(key);
            if msg.track == learn_track && key >= 36 && key <= 96 {
                EventDecision { paint: Some((index, (0, 0, 0))), expect: None, play: false }
            } else {
                EventDecision { paint: Some((index, (0, 0, 0))), expect: None, play: true }
            }
        },
        _ => EventDecision { paint: None, expect: None, play: true },
    }
}

/// Whether the learner forwards a channel message to the sink rather than
/// withholding it: sounded NoteOns and NoteOffs of the practice track
/// whose key the keyboard can deliver are withheld, everything else plays.
pub open spec fn plays_through(m: MidiEvent, learn_track: usize) -> bool {
    match m.message {
        MidiMessage::NoteOn { key, vel } => !(vel != 0 && m.track == learn_track
            && key_on_keyboard(key)),
        MidiMessage::NoteOff { key, .. } => !(m.track == learn_track && key_on_keyboard(key)),
        _ => true,
    }
}

/// The learner's sink filter for a given practice track.
pub open spec fn learn_pred(learn_track: usize) -> spec_fn(MidiEvent) -> bool {
    |m: MidiEvent| plays_through(m, learn_track)
}

/// One call the foreground loop makes on the expected mapping through its
/// host: requiring a key, blocking until the wait predicate holds, or
/// clearing the mapping.
#[derive(Debug, Clone, Copy, PartialEq, Eq)]
pub enum HostCall {
    /// A key was added to the expected mapping, initially unpressed.
    Expect(u8),
    /// The loop blocked until the mapping was empty or fully pressed.
    WaitKeys,
    /// The mapping was emptied.
    ClearExpected,
}

/// The keys one channel message adds to the expected mapping: the key of a
/// withheld, sounded practice-track NoteOn; nothing otherwise.
pub open spec fn expect_of(m: MidiEvent, learn_track: usize) -> Seq<HostCall> {
    match m.message {
        MidiMessage::NoteOn { key, vel } => if vel != 0 && m.track == learn_track
            && key_on_keyboard(key) {
            seq![HostCall::Expect(key)]
        } else {
            Seq::empty()
        },
        _ => Seq::empty(),
    }
}

/// The expect calls one moment's events produce, in score order.
pub open spec fn moment_expect_calls(events: Seq<Event>, learn_track: usize) -> Seq<HostCall>
    decreases events.len(),
{
    if events.len() == 0 {
        Seq::empty()
    } else {
        moment_expect_calls(events.drop_last(), learn_track) + (match events.last() {
            Event::Midi(m) => expect_of(m, learn_track),
            _ => Seq::empty(),
        })
    }
}

/// The expected mapping's whole lifecycle over a timeline: for every
/// non-empty moment, its required keys are added, the loop waits for them,
/// and the mapping is cleared — so it is empty again before any later
/// moment's events begin. Empty moments touch the mapping not at all.
pub open spec fn sheet_host_calls(tl: Seq<Seq<Event>>, learn_track: usize) -> Seq<HostCall>
    decreases tl.len(),
{
    if tl.len() == 0 {
        Seq::empty()
    } else {
        sheet_host_calls(tl.drop_last(), learn_track) + (if tl.last().len() == 0 {
            Seq::empty()
        } else {
            moment_expect_calls(tl.last(), learn_track) + seq![
                HostCall::WaitKeys,
                HostCall::ClearExpected,
            ]
        })
    }
}

/// The learner's environment: the shared structures that the background
/// listener also mutates, the LED strip behind them, and a monotonic
/// clock. The foreground loop reaches them only through this trait; an
/// implementation takes each structure's own lock for exactly one call, so
/// the loop never holds two locks at once.
pub trait LearnerHost {
    /// Paints one pixel and writes the frame to the strip.
    fn led_set(&mut self, index: usize, color: (u8, u8, u8));

    /// Darkens the whole strip and writes the frame.
    fn led_clear(&mut self);

    /// Whether the key is currently physically held.
    fn pressed_contains(&mut self, key: u8) -> bool;

    /// Adds a key to the expected mapping, initially unpressed.
    fn expect_key(&mut self, key: u8);

    /// Blocks until the expected mapping is empty or every required key
    /// has been pressed, waiting on the condition variable and re-checking
    /// the predicate after every wake.
    fn wait_for_keys(&mut self);

    /// Empties the expected mapping.
    fn clear_expected(&mut self);

    /// A monotonic clock reading, in microseconds.
    fn now_micros(&mut self) -> u64;
}

/// Interactive playback over a sheet: like the player, but notes of the
/// designated practice track wait for the learner's fingers.
pub struct Learner<T: Timer, C: Connection> {
    /// The output sink that sounds the notes.
    pub con: C,
    /// Index of the input device the listener is bound to.
    pub device_no: usize,
    /// The timer pacing playback.
    pub timer: T,
}

impl<T: Timer, C: Connection> Learner<T, C> {
    /// A learner over the given timer, sink and input device index.
    pub fn new(timer: T, con: C, device_no: usize) -> (l: Learner<T, C>)
        ensures
            l.timer == timer,
            l.con == con,
            l.device_no == device_no,
    {
        Learner { con, device_no, timer }
    }

    /// Installs a new timer, returning the old one.
    pub fn set_timer(&mut self, timer: T) -> (t: T)
        ensures
            final(self).timer == timer,
            t == old(self).timer,
            final(self).con == old(self).con,
            final(self).device_no == old(self).device_no,
    {
        let mut t = timer;
        core::mem::swap(&mut t, &mut self.timer);
        t
    }

    /// Plays the given moments interactively. The caller has already bound
    /// the background listener to the live input source and hands the
    /// shared structures over as `host`.
    ///
    /// Moments are paced like the player's, except that the tick sleep is
    /// shortened by the real time the previous moment's wait consumed.
    /// Each channel message is decided by [`learn_event_decision`]:
    /// withheld practice notes become required keys instead of sounding.
    /// After a moment's events the loop blocks until every required key
    /// has been pressed, measures how long the moment took, clears the
    /// mapping and moves on. Stops and returns `false` as soon as the sink
    /// refuses a message; returns `true` after the last moment, with the
    /// strip cleared either way.
    ///
    /// The result carries ghost logs that the contract ties to the sink's
    /// and the timer's own histories. The sink received exactly the
    /// sheet's channel messages that [`plays_through`] keeps, in score
    /// order — all of them on completion; on a rejection a non-empty
    /// prefix ending at the refused message, with nothing forwarded after
    /// it, and the run is incomplete exactly when the last answer was a
    /// refusal. The timer was handed the sheet's tempo values and one
    /// drift-adjusted sleep per non-empty moment, of the ticks accumulated
    /// since the previous non-empty one. A sheet without such messages
    /// always completes. A further ghost log records
    /// the expected mapping's lifecycle through the host: on completion,
    /// for every non-empty moment exactly its withheld keys were required,
    /// then the loop waited, then the mapping was cleared — so the mapping
    /// is empty again before any later moment's events begin (through the
    /// host these calls are [`ExpectedKeys::expect`],
    /// [`ExpectedKeys::satisfied`] re-checked until it holds, and
    /// [`ExpectedKeys::clear`], whose contracts fix their effect).
    pub fn learn<H: LearnerHost>(
        &mut self,
        sheet: &[Moment],
        host: &mut H,
        right_hand_track: usize,
        left_hand_track: usize,
        learn_track: usize,
    ) -> (r: (bool, LearnLog))
        requires
            sheet_keys_on_strip(moments_view(sheet@)),
            sheet@.len() <= u32::MAX,
        ensures
            final(self).con.sent() == old(self).con.sent() + r.1.sent@,
            ({
                let msgs = sheet_sink_msgs(moments_view(sheet@), learn_pred(learn_track));
                let handed = sent_msgs(r.1.sent@);
                &&& handed.len() <= msgs.len()
                &&& handed == msgs.take(handed.len() as int)
                &&& r.0 ==> handed == msgs
            }),
            forall|k: int| 0 <= k < r.1.sent@.len() - 1 ==> (#[trigger] r.1.sent@[k]).1,
            r.0 ==> (r.1.sent@.len() == 0 || r.1.sent@.last().1),
            !r.0 ==> r.1.sent@.len() > 0 && !r.1.sent@.last().1,
            final(self).timer.tempos() == old(self).timer.tempos() + r.1.tempos@,
            r.0 ==> r.1.tempos@ == sheet_tempo_vals(moments_view(sheet@)),
            final(self).timer.slept() == old(self).timer.slept() + r.1.sleeps@,
            slept_ticks(r.1.sleeps@) == sleep_gaps(moments_view(sheet@), 0).take(
                r.1.sleeps@.len() as int,
            ),
            r.0 ==> slept_ticks(r.1.sleeps@) == sleep_gaps(moments_view(sheet@), 0),
            r.0 ==> r.1.host@ == sheet_host_calls(moments_view(sheet@), learn_track),
    {
        let _ = left_hand_track;
        let ghost tl = moments_view(sheet@);
        let ghost pred = learn_pred(learn_track);
        let ghost mut sent: Seq<(MidiEvent, bool)> = Seq::empty();
        let ghost mut sleeps: Seq<(u32, u64)> = Seq::empty();
        let ghost mut calls: Seq<HostCall> = Seq::empty();
        let ghost mut tempos: Seq<u32> = Seq::empty();
        let mut counter: u32 = 0;
        let mut process_micros: u64 = 0;
        host.led_clear();
        proof {
            assert(tl.skip(0) =~= tl);
            assert(slept_ticks(sleeps) =~= Seq::<int>::empty());
            assert(Seq::<int>::empty() + sleep_gaps(tl, 0) =~= sleep_gaps(tl, 0));
            assert(slept_ticks(sleeps) =~= sleep_gaps(tl, 0).take(0));
            assert(sent_msgs(sent) =~= Seq::<MidiEvent>::empty());
            assert(old(self).con.sent() + sent =~= old(self).con.sent());
            assert(old(self).timer.slept() + sleeps =~= old(self).timer.slept());
            assert(tl.take(0) =~= Seq::<Seq<Event>>::empty());
            assert(sheet_tempo_vals(tl.take(0)) + Seq::<u32>::empty() =~= sheet_tempo_vals(
                tl.take(0),
            ));
            assert(old(self).timer.tempos() + Seq::<u32>::empty() =~= old(self).timer.tempos());
            assert(calls =~= sheet_host_calls(tl.take(0), learn_track));
            assert(tempos =~= sheet_tempo_vals(tl.take(0)));
        }

        let mut i: usize = 0;
        while i < sheet.len()
            invariant
                i <= sheet@.len(),
                sheet@.len() <= u32::MAX,
                counter <= i,
                sheet_keys_on_strip(tl),
                tl == moments_view(sheet@),
                pred == learn_pred(learn_track),
                self.con.sent() == old(self).con.sent() + sent,
                forall|k: int| 0 <= k < sent.len() ==> (#[trigger] sent[k]).1,
                sent_msgs(sent) == sheet_sink_msgs(tl.take(i as int), pred),
                self.timer.slept() == old(self).timer.slept() + sleeps,
                sleep_gaps(tl, 0) == slept_ticks(sleeps) + sleep_gaps(
                    tl.skip(i as int),
                    counter as int,
                ),
                slept_ticks(sleeps) == sleep_gaps(tl, 0).take(sleeps.len() as int),
                self.timer.tempos() == old(self).timer.tempos() + sheet_tempo_vals(
                    tl.take(i as int),
                ),
                tempos == sheet_tempo_vals(tl.take(i as int)),
                calls == sheet_host_calls(tl.take(i as int), learn_track),
            decreases sheet@.len() - i,
        {
            let moment = &sheet[i];
            proof {
                assert(tl[i as int] == sheet@[i as int]@);
                assert(tl.take(i + 1).drop_last() =~= tl.take(i as int));
                assert(tl.take(i + 1).last() == tl[i as int]);
                assert(tl[i as int].take(0) =~= Seq::<Event>::empty());
                assert(tl.skip(i as int).first() == tl[i as int]);
                assert(tl.skip(i as int).drop_first() =~= tl.skip(i + 1));
            }
            if !moment.is_empty() {
                self.timer.sleep_with_adjustment(counter, process_micros);
                let ghost slept_before = sleeps;
                proof {
                    sleeps = sleeps.push((counter, process_micros));
                    assert(slept_ticks(sleeps) =~= slept_ticks(slept_before).push(
                        counter as int,
                    ));
                    assert(sleep_gaps(tl.skip(i as int), counter as int) == seq![counter as int]
                        + sleep_gaps(tl.skip(i + 1), 1));
                    assert(slept_ticks(sleeps) + sleep_gaps(tl.skip(i + 1), 1) =~= (slept_ticks(
                        slept_before,
                    ) + seq![counter as int]) + sleep_gaps(tl.skip(i + 1), 1));
                    assert(sleep_gaps(tl, 0) == slept_ticks(sleeps) + sleep_gaps(
                        tl.skip(i + 1),
                        1,
                    ));
                    assert(slept_ticks(sleeps) =~= sleep_gaps(tl, 0).take(sleeps.len() as int));
                }
                counter = 0;
                process_micros = 0;

                let start = host.now_micros();

                let mut j: usize = 0;
                while j < moment.events.len()
                    invariant
                        j <= moment.events@.len(),
                        sheet_keys_on_strip(tl),
                        moment.events@ == tl[i as int],
                        0 <= i < tl.len(),
                        tl == moments_view(sheet@),
                        pred == learn_pred(learn_track),
                        self.con.sent() == old(self).con.sent() + sent,
                        forall|k: int| 0 <= k < sent.len() ==> (#[trigger] sent[k]).1,
                        sent_msgs(sent) == sheet_sink_msgs(tl.take(i as int), pred)
                            + moment_sink_msgs(tl[i as int].take(j as int), pred),
                        self.timer.slept() == old(self).timer.slept() + sleeps,
                        slept_ticks(sleeps) == sleep_gaps(tl, 0).take(sleeps.len() as int),
                        self.timer.tempos() == old(self).timer.tempos() + (sheet_tempo_vals(
                            tl.take(i as int),
                        ) + moment_tempo_vals(tl[i as int].take(j as int))),
                        tempos == sheet_tempo_vals(tl.take(i as int)) + moment_tempo_vals(
                            tl[i as int].take(j as int),
                        ),
                        calls == sheet_host_calls(tl.take(i as int), learn_track)
                            + moment_expect_calls(tl[i as int].take(j as int), learn_track),
                    decreases moment.events@.len() - j,
                {
                    proof {
                        assert(event_key_on_strip(tl[i as int][j as int]));
                        assert(tl[i as int].take(j + 1).drop_last() =~= tl[i as int].take(j as int));
                        assert(tl[i as int].take(j + 1).last() == tl[i as int][j as int]);
                    }
                    match moment.events[j] {
                        Event::Tempo(val) => {
                            self.timer.change_tempo(val);
                            proof {
                                tempos = tempos.push(val);
                                assert(moment_tempo_vals(tl[i as int].take(j + 1))
                                    =~= moment_tempo_vals(tl[i as int].take(j as int)).push(val));
                                assert(self.timer.tempos() =~= old(self).timer.tempos() + (
                                sheet_tempo_vals(tl.take(i as int)) + moment_tempo_vals(
                                    tl[i as int].take(j + 1),
                                )));
                                assert(tempos =~= sheet_tempo_vals(tl.take(i as int))
                                    + moment_tempo_vals(tl[i as int].take(j + 1)));
                                assert(moment_expect_calls(tl[i as int].take(j + 1), learn_track)
                                    =~= moment_expect_calls(
                                    tl[i as int].take(j as int),
                                    learn_track,
                                ));
                            }
                        },
                        Event::Midi(msg) => {
                            proof {
                                assert(moment_tempo_vals(tl[i as int].take(j + 1))
                                    =~= moment_tempo_vals(tl[i as int].take(j as int)));
                                assert(moment_expect_calls(tl[i as int].take(j + 1), learn_track)
                                    =~= moment_expect_calls(tl[i as int].take(j as int), learn_track)
                                    + expect_of(msg, learn_track));
                            }
                            let already_pressed: bool;
                            match msg.message {
                                MidiMessage::NoteOn { key, .. } => {
                                    already_pressed = host.pressed_contains(key);
                                },
                                _ => {
                                    already_pressed = false;
                                },
                            }
                            let d = learn_event_decision(
                                &msg,
                                right_hand_track,
                                learn_track,
                                already_pressed,
                            );
                            proof {
                                assert(d.play == plays_through(msg, learn_track));
                            }
                            if let Some((index, color)) = d.paint {
                                host.led_set(index, color);
                            }
                            if let Some(key) = d.expect {
                                host.expect_key(key);
                                proof {
                                    calls = calls.push(HostCall::Expect(key));
                                    assert(expect_of(msg, learn_track) =~= seq![
                                        HostCall::Expect(key),
                                    ]);
                                    assert(calls =~= sheet_host_calls(tl.take(i as int), learn_track)
                                        + moment_expect_calls(
                                        tl[i as int].take(j + 1),
                                        learn_track,
                                    ));
                                }
                            } else {
                                proof {
                                    assert(expect_of(msg, learn_track) =~= Seq::<HostCall>::empty());
                                    assert(calls =~= sheet_host_calls(tl.take(i as int), learn_track)
                                        + moment_expect_calls(
                                        tl[i as int].take(j + 1),
                                        learn_track,
                                    ));
                                }
                            }
                            if d.play {
                                let accepted = self.con.play(msg);
                                let ghost sent_before = sent;
                                proof {
                                    sent = sent.push((msg, accepted));
                                    assert(sent_msgs(sent) =~= sent_msgs(sent_before).push(msg));
                                    assert(sent_msgs(sent) =~= sheet_sink_msgs(
                                        tl.take(i as int),
                                        pred,
                                    ) + moment_sink_msgs(tl[i as int].take(j + 1), pred));
                                }
                                if !accepted {
                                    proof {
                                        lemma_partial_msgs_prefix(tl, pred, i as int, j + 1);
                                    }
                                    host.led_clear();
                                    return (
                                        false,
                                        LearnLog {
                                            sent: Ghost(sent),
                                            sleeps: Ghost(sleeps),
                                            tempos: Ghost(tempos),
                                            host: Ghost(calls),
                                        },
                                    );
                                }
                            }
                        },
                    }
                    j = j + 1;
                }
                proof {
                    assert(tl[i as int].take(tl[i as int].len() as int) =~= tl[i as int]);
                    assert(sent_msgs(sent) == sheet_sink_msgs(tl.take(i + 1), pred));
                    assert(self.timer.tempos() =~= old(self).timer.tempos() + sheet_tempo_vals(
                        tl.take(i + 1),
                    ));
                    assert(tempos =~= sheet_tempo_vals(tl.take(i + 1)));
                }

                host.wait_for_keys();
                proof {
                    calls = calls.push(HostCall::WaitKeys);
                }

                let end = host.now_micros();
                process_micros = if end > start {
                    end - start
                } else {
                    0
                };

                host.clear_expected();
                proof {
                    calls = calls.push(HostCall::ClearExpected);
                    assert(tl[i as int].len() != 0);
                    assert(calls =~= sheet_host_calls(tl.take(i as int), learn_track) + (
                    moment_expect_calls(tl[i as int], learn_track) + seq![
                        HostCall::WaitKeys,
                        HostCall::ClearExpected,
                    ]));
                    assert(calls == sheet_host_calls(tl.take(i + 1), learn_track));
                }
            } else {
                proof {
                    assert(moment_sink_msgs(tl[i as int], pred) =~= Seq::<MidiEvent>::empty());
                    assert(sent_msgs(sent) + Seq::<MidiEvent>::empty() =~= sent_msgs(sent));
                    assert(sent_msgs(sent) == sheet_sink_msgs(tl.take(i + 1), pred));
                    assert(moment_tempo_vals(tl[i as int]) =~= Seq::<u32>::empty());
                    assert(self.timer.tempos() =~= old(self).timer.tempos() + sheet_tempo_vals(
                        tl.take(i + 1),
                    ));
                    assert(tempos =~= sheet_tempo_vals(tl.take(i + 1)));
                    assert(calls + Seq::<HostCall>::empty() =~= calls);
                    assert(calls == sheet_host_calls(tl.take(i + 1), learn_track));
                }
            }
            counter = counter + 1;
            i = i + 1;
        }

        proof {
            assert(tl.take(sheet@.len() as int) =~= tl);
            assert(sheet_sink_msgs(tl, pred).take(sent_msgs(sent).len() as int)
                =~= sent_msgs(sent));
            assert(tl.skip(sheet@.len() as int) =~= Seq::<Seq<Event>>::empty());
            assert(slept_ticks(sleeps) + Seq::<int>::empty() =~= slept_ticks(sleeps));
        }
        host.led_clear();
        (
            true,
            LearnLog {
                sent: Ghost(sent),
                sleeps: Ghost(sleeps),
                tempos: Ghost(tempos),
                host: Ghost(calls),
            },
        )
    }
}

/// What a learning run handed to its sink and timer, recorded for
/// specification only: ghost data that compiles to nothing.
pub struct LearnLog {
    /// The sink calls made: each channel message handed over, with the
    /// answer the sink gave, in order.
    pub sent: Ghost<Seq<(MidiEvent, bool)>>,
    /// The sleeps handed to the timer: the tick count and the measured
    /// processing time subtracted from it, in order.
    pub sleeps: Ghost<Seq<(u32, u64)>>,
    /// The tempo values handed to the timer, in order.
    pub tempos: Ghost<Seq<u32>>,
    /// The calls made on the expected mapping through the host, in order.
    pub host: Ghost<Seq<HostCall>>,
}

/// An input source the learner's listener can be bound to.
pub trait InputConnection {

}

/// Law (no missed wakeup): however listener deliveries interleave with the
/// waiting foreground loop, once every required key has been pressed at
/// least once and not been released again afterwards, the expected mapping
/// is fully satisfied — so the waiter, which is signalled at every press
/// of a required key and re-checks the predicate on every wake, does not
/// stay blocked. A release of a required key after its press puts that key
/// back to unpressed, which is why the press must be the key's last
/// delivery.
pub proof fn lemma_no_missed_wakeup(m: Map<u8, bool>, ds: Seq<(bool, u8)>)
    requires
        forall|k: u8|
            #[trigger] m.dom().contains(k) ==> exists|i: int|
                0 <= i < ds.len() && (#[trigger] ds[i]) == (true, k) && (forall|j: int|
                    i < j < ds.len() ==> ds[j].1 != k),
    ensures
        expected_satisfied(deliver_all(m, ds)),
{
    lemma_deliver_all_dom(m, ds);
    assert forall|k: u8| deliver_all(m, ds).dom().contains(k) implies deliver_all(m, ds)[k] by {
        assert(m.dom().contains(k));
        let i = choose|i: int|
            0 <= i < ds.len() && ds[i] == (true, k) && (forall|j: int|
                i < j < ds.len() ==> ds[j].1 != k);
        assert(ds[i].0 && ds[i].1 == k);
        lemma_deliver_all_last_press(m, ds, k, i);
    }
}

} // verus!
