//! Non-interactive playback: drives a timer across a sheet, forwarding
//! every channel message to an output sink and mirroring struck keys on the
//! LED strip.

use vstd::prelude::*;

use crate::event::{Event, MidiEvent, MidiMessage, Moment, is_midi};
use crate::sheet::{extract_spec, lemma_merge_back_preserves_midi, merge_spec, midi_only,
    moments_view, timeline_midi};
use crate::{NUM_LEDS, Timer, get_led_index, key_on_strip, velocityrainbow_color};

verus! {

/// Whether an event's key, if it strikes or releases one, lies on the LED
/// strip. Events without a key place no demand.
pub open spec fn event_key_on_strip(e: Event) -> bool {
    match e {
        Event::Midi(m) => match m.message {
            MidiMessage::NoteOn { key, .. } => key_on_strip(key),
            MidiMessage::NoteOff { key, .. } => key_on_strip(key),
            _ => true,
        },
        _ => true,
    }
}

/// Whether every note struck or released anywhere in a timeline lies on
/// the LED strip: what playback needs to address the strip safely.
pub open spec fn sheet_keys_on_strip(tl: Seq<Seq<Event>>) -> bool {
    forall|i: int, j: int|
        0 <= i < tl.len() && 0 <= j < tl[i].len() ==> #[trigger] event_key_on_strip(tl[i][j])
}

/// The frame buffer of the LED strip: one RGB value per pixel, always
/// exactly [`NUM_LEDS`] of them.
#[derive(Debug, PartialEq, Eq)]
pub struct LedBuffer {
    data: Vec<(u8, u8, u8)>,
}

impl View for LedBuffer {
    type V = Seq<(u8, u8, u8)>;

    closed spec fn view(&self) -> Seq<(u8, u8, u8)> {
        self.data@
    }
}

impl LedBuffer {
    /// Every frame holds exactly one RGB value per physical LED.
    pub open spec fn wf(&self) -> bool {
        self@.len() == NUM_LEDS
    }

    /// A dark strip: every pixel off.
    pub fn new() -> (buf: LedBuffer)
        ensures
            buf.wf(),
            buf@ == Seq::new(NUM_LEDS as nat, |i: int| (0u8, 0u8, 0u8)),
    {
        let mut data: Vec<(u8, u8, u8)> = Vec::new();
        while data.len() < NUM_LEDS
            invariant
                data@.len() <= NUM_LEDS,
                forall|i: int| 0 <= i < data@.len() ==> data@[i] == (0u8, 0u8, 0u8),
            decreases NUM_LEDS - data@.len(),
        {
            data.push((0, 0, 0));
        }
        proof {
            assert(data@ =~= Seq::new(NUM_LEDS as nat, |i: int| (0u8, 0u8, 0u8)));
        }
        LedBuffer { data }
    }

    /// Paints one pixel.
    pub fn set_pixel(&mut self, index: usize, color: (u8, u8, u8))
        requires
            old(self).wf(),
            index < NUM_LEDS,
        ensures
            final(self).wf(),
            final(self)@ == old(self)@.update(index as int, color),
    {
        self.data.set(index, color);
    }

    /// Turns every pixel off.
    pub fn clear(&mut self)
        requires
            old(self).wf(),
        ensures
            final(self).wf(),
            final(self)@ == Seq::new(NUM_LEDS as nat, |i: int| (0u8, 0u8, 0u8)),
    {
        let mut i: usize = 0;
        while i < self.data.len()
            invariant
                old(self).wf(),
                self@.len() == NUM_LEDS,
                i <= NUM_LEDS,
                forall|k: int| 0 <= k < i ==> self@[k] == (0u8, 0u8, 0u8),
            decreases NUM_LEDS - i,
        {
            self.data.set(i, (0, 0, 0));
            i = i + 1;
        }
        proof {
            assert(self@ =~= Seq::new(NUM_LEDS as nat, |i: int| (0u8, 0u8, 0u8)));
        }
    }

    /// The frame as it would be written to the strip.
    pub fn frame(&self) -> (frame: &Vec<(u8, u8, u8)>)
        ensures
            frame@ == self@,
    {
        &self.data
    }
}

/// The LED strip transport: writes whole frames, fire and forget. A failed
/// write is fatal to the session, since a partially written frame would
/// desynchronize the physical display; implementations halt rather than
/// guess pixel state.
pub trait LedTransport {
    /// Writes one frame, one RGB value per LED.
    fn write_frame(&mut self, frame: &Vec<(u8, u8, u8)>);
}

/// The channel messages of one moment that a playback loop hands to its
/// sink, in score order: those the filter keeps. Tempo events are never
/// handed to a sink.
pub open spec fn moment_sink_msgs(
    events: Seq<Event>,
    pred: spec_fn(MidiEvent) -> bool,
) -> Seq<MidiEvent>
    decreases events.len(),
{
    if events.len() == 0 {
        Seq::empty()
    } else {
        moment_sink_msgs(events.drop_last(), pred) + (match events.last() {
            Event::Midi(m) => if pred(m) {
                seq![m]
            } else {
                Seq::empty()
            },
            _ => Seq::empty(),
        })
    }
}

/// The channel messages of a whole timeline that a playback loop hands to
/// its sink, moment after moment.
pub open spec fn sheet_sink_msgs(
    tl: Seq<Seq<Event>>,
    pred: spec_fn(MidiEvent) -> bool,
) -> Seq<MidiEvent>
    decreases tl.len(),
{
    if tl.len() == 0 {
        Seq::empty()
    } else {
        sheet_sink_msgs(tl.drop_last(), pred) + moment_sink_msgs(tl.last(), pred)
    }
}

/// The player's filter: every channel message is forwarded.
pub open spec fn forward_pred() -> spec_fn(MidiEvent) -> bool {
    |m: MidiEvent| true
}

/// The tick counts a playback loop sleeps, one per non-empty moment: the
/// number of moments since the previous non-empty one (`carry` ticks have
/// accumulated before the timeline starts). Empty moments only accumulate
/// ticks.
pub open spec fn sleep_gaps(tl: Seq<Seq<Event>>, carry: int) -> Seq<int>
    decreases tl.len(),
{
    if tl.len() == 0 {
        Seq::empty()
    } else if tl.first().len() == 0 {
        sleep_gaps(tl.drop_first(), carry + 1)
    } else {
        seq![carry] + sleep_gaps(tl.drop_first(), 1)
    }
}

/// The tempo values of one moment, in score order: what a playback loop
/// hands to its timer while processing the moment.
pub open spec fn moment_tempo_vals(events: Seq<Event>) -> Seq<u32>
    decreases events.len(),
{
    if events.len() == 0 {
        Seq::empty()
    } else {
        moment_tempo_vals(events.drop_last()) + (match events.last() {
            Event::Tempo(v) => seq![v],
            _ => Seq::empty(),
        })
    }
}

/// The tempo values of a whole timeline, moment after moment.
pub open spec fn sheet_tempo_vals(tl: Seq<Seq<Event>>) -> Seq<u32>
    decreases tl.len(),
{
    if tl.len() == 0 {
        Seq::empty()
    } else {
        sheet_tempo_vals(tl.drop_last()) + moment_tempo_vals(tl.last())
    }
}

/// The tick components of a sleep history.
pub open spec fn slept_ticks(log: Seq<(u32, u64)>) -> Seq<int> {
    log.map_values(|p: (u32, u64)| p.0 as int)
}

/// A shorter sequence is a take-prefix of a longer one appended to.
proof fn lemma_take_prefix_extends(x: Seq<MidiEvent>, a: Seq<MidiEvent>, b: Seq<MidiEvent>)
    requires
        x.len() <= a.len(),
        x == a.take(x.len() as int),
    ensures
        x.len() <= (a + b).len(),
        x == (a + b).take(x.len() as int),
{
    assert((a + b).take(x.len() as int) =~= a.take(x.len() as int));
}

/// The messages of a prefix of a moment's events are a take-prefix of the
/// whole moment's messages.
pub proof fn lemma_moment_msgs_prefix(events: Seq<Event>, pred: spec_fn(MidiEvent) -> bool, j: int)
    requires
        0 <= j <= events.len(),
    ensures
        moment_sink_msgs(events.take(j), pred).len() <= moment_sink_msgs(events, pred).len(),
        moment_sink_msgs(events.take(j), pred) == moment_sink_msgs(events, pred).take(
            moment_sink_msgs(events.take(j), pred).len() as int,
        ),
    decreases events.len() - j,
{
    let p = moment_sink_msgs(events.take(j), pred);
    if j == events.len() {
        assert(events.take(j) =~= events);
        assert(moment_sink_msgs(events, pred).take(p.len() as int) =~= p);
    } else {
        lemma_moment_msgs_prefix(events, pred, j + 1);
        let q = moment_sink_msgs(events.take(j + 1), pred);
        assert(events.take(j + 1).drop_last() =~= events.take(j));
        assert(events.take(j + 1).last() == events[j]);
        assert(p.take(p.len() as int) =~= p);
        lemma_take_prefix_extends(
            p,
            p,
            match events[j] {
                Event::Midi(m) => if pred(m) {
                    seq![m]
                } else {
                    Seq::<MidiEvent>::empty()
                },
                _ => Seq::<MidiEvent>::empty(),
            },
        );
        assert(p == q.take(p.len() as int));
        assert(moment_sink_msgs(events, pred).take(q.len() as int).take(p.len() as int)
            =~= moment_sink_msgs(events, pred).take(p.len() as int));
    }
}

/// The messages of a prefix of a timeline are a take-prefix of the whole
/// timeline's messages.
pub proof fn lemma_sheet_msgs_prefix(tl: Seq<Seq<Event>>, pred: spec_fn(MidiEvent) -> bool, i: int)
    requires
        0 <= i <= tl.len(),
    ensures
        sheet_sink_msgs(tl.take(i), pred).len() <= sheet_sink_msgs(tl, pred).len(),
        sheet_sink_msgs(tl.take(i), pred) == sheet_sink_msgs(tl, pred).take(
            sheet_sink_msgs(tl.take(i), pred).len() as int,
        ),
    decreases tl.len() - i,
{
    let p = sheet_sink_msgs(tl.take(i), pred);
    if i == tl.len() {
        assert(tl.take(i) =~= tl);
        assert(sheet_sink_msgs(tl, pred).take(p.len() as int) =~= p);
    } else {
        lemma_sheet_msgs_prefix(tl, pred, i + 1);
        let q = sheet_sink_msgs(tl.take(i + 1), pred);
        assert(tl.take(i + 1).drop_last() =~= tl.take(i));
        assert(tl.take(i + 1).last() == tl[i]);
        assert(p.take(p.len() as int) =~= p);
        lemma_take_prefix_extends(p, p, moment_sink_msgs(tl[i], pred));
        assert(p == q.take(p.len() as int));
        assert(sheet_sink_msgs(tl, pred).take(q.len() as int).take(p.len() as int)
            =~= sheet_sink_msgs(tl, pred).take(p.len() as int));
    }
}

/// A partly processed moment's messages, appended to the messages of the
/// moments before it, are a take-prefix of the whole timeline's messages.
pub proof fn lemma_partial_msgs_prefix(
    tl: Seq<Seq<Event>>,
    pred: spec_fn(MidiEvent) -> bool,
    i: int,
    j: int,
)
    requires
        0 <= i < tl.len(),
        0 <= j <= tl[i].len(),
    ensures
        ({
            let p = sheet_sink_msgs(tl.take(i), pred) + moment_sink_msgs(tl[i].take(j), pred);
            p.len() <= sheet_sink_msgs(tl, pred).len() && p == sheet_sink_msgs(tl, pred).take(
                p.len() as int,
            )
        }),
{
    let p = sheet_sink_msgs(tl.take(i), pred) + moment_sink_msgs(tl[i].take(j), pred);
    let q = sheet_sink_msgs(tl.take(i + 1), pred);
    assert(tl.take(i + 1).drop_last() =~= tl.take(i));
    assert(tl.take(i + 1).last() == tl[i]);
    lemma_moment_msgs_prefix(tl[i], pred, j);
    let mp = moment_sink_msgs(tl[i].take(j), pred);
    assert(p == q.take(p.len() as int)) by {
        assert(q == sheet_sink_msgs(tl.take(i), pred) + moment_sink_msgs(tl[i], pred));
        assert(q.take(p.len() as int) =~= sheet_sink_msgs(tl.take(i), pred)
            + moment_sink_msgs(tl[i], pred).take(mp.len() as int));
    }
    lemma_sheet_msgs_prefix(tl, pred, i + 1);
    assert(sheet_sink_msgs(tl, pred).take(q.len() as int).take(p.len() as int)
        =~= sheet_sink_msgs(tl, pred).take(p.len() as int));
}

/// A moment's sink messages depend only on its channel messages.
proof fn lemma_moment_msgs_ignore_non_midi(events: Seq<Event>, pred: spec_fn(MidiEvent) -> bool)
    ensures
        moment_sink_msgs(events, pred) == moment_sink_msgs(midi_only(events), pred),
    decreases events.len(),
{
    reveal(Seq::filter);
    if events.len() > 0 {
        let dl = events.drop_last();
        lemma_moment_msgs_ignore_non_midi(dl, pred);
        if is_midi(events.last()) {
            assert(midi_only(events) == midi_only(dl).push(events.last()));
            assert(midi_only(dl).push(events.last()).drop_last() =~= midi_only(dl));
        } else {
            assert(midi_only(events) == midi_only(dl));
            assert(moment_sink_msgs(events, pred) =~= moment_sink_msgs(dl, pred));
        }
    }
}

/// Two timelines with the same Midi content at every tick hand a sink the
/// same messages.
proof fn lemma_sheet_msgs_same_midi(
    tl1: Seq<Seq<Event>>,
    tl2: Seq<Seq<Event>>,
    pred: spec_fn(MidiEvent) -> bool,
)
    requires
        tl1.len() == tl2.len(),
        forall|i: int| 0 <= i < tl1.len() ==> #[trigger] midi_only(tl1[i]) == midi_only(tl2[i]),
    ensures
        sheet_sink_msgs(tl1, pred) == sheet_sink_msgs(tl2, pred),
    decreases tl1.len(),
{
    if tl1.len() > 0 {
        assert(forall|i: int|
            0 <= i < tl1.len() - 1 ==> tl1.drop_last()[i] == tl1[i] && tl2.drop_last()[i]
                == tl2[i]);
        lemma_sheet_msgs_same_midi(tl1.drop_last(), tl2.drop_last(), pred);
        assert(midi_only(tl1.last()) == midi_only(tl2.last()));
        lemma_moment_msgs_ignore_non_midi(tl1.last(), pred);
        lemma_moment_msgs_ignore_non_midi(tl2.last(), pred);
    }
}

/// Law: extracting a sheet's non-channel events and merging them back into
/// the original sheet never changes what playback hands to a sink — under
/// any forwarding filter, the merged and the unmerged timeline produce the
/// same sink call sequence, since the merge introduces no channel message.
pub proof fn lemma_merge_back_same_sink_msgs(
    tl: Seq<Seq<Event>>,
    pred: spec_fn(MidiEvent) -> bool,
)
    ensures
        sheet_sink_msgs(merge_spec(tl, extract_spec(tl)), pred) == sheet_sink_msgs(tl, pred),
{
    lemma_merge_back_preserves_midi(tl);
    let merged = merge_spec(tl, extract_spec(tl));
    assert forall|i: int| 0 <= i < merged.len() implies #[trigger] midi_only(merged[i])
        == midi_only(tl[i]) by {
        assert(timeline_midi(merged)[i] == midi_only(merged[i]));
        assert(timeline_midi(tl)[i] == midi_only(tl[i]));
    }
    lemma_sheet_msgs_same_midi(merged, tl, pred);
}

/// The fixed sequence of messages that silences everything: one NoteOff
/// for every channel and key pair, channels ascending, keys ascending
/// within each channel.
pub open spec fn all_notes_off_seq() -> Seq<MidiEvent> {
    Seq::new(
        2048,
        |i: int|
            MidiEvent {
                track: 0,
                channel: (i / 128) as u8,
                message: MidiMessage::NoteOff { key: (i % 128) as u8, vel: 127 },
            },
    )
}

/// Builds [`all_notes_off_seq`] as a vector: the messages a sink sends to
/// turn every note off, in their fixed order.
pub fn all_notes_off_events() -> (events: Vec<MidiEvent>)
    ensures
        events@ == all_notes_off_seq(),
{
    let mut events: Vec<MidiEvent> = Vec::new();
    let mut i: usize = 0;
    while i < 2048
        invariant
            i <= 2048,
            events@.len() == i,
            events@ == all_notes_off_seq().take(i as int),
        decreases 2048 - i,
    {
        events.push(
            MidiEvent {
                track: 0,
                channel: (i / 128) as u8,
                message: MidiMessage::NoteOff { key: (i % 128) as u8, vel: 127 },
            },
        );
        proof {
            assert(events@ =~= all_notes_off_seq().take(i + 1));
        }
        i = i + 1;
    }
    proof {
        assert(all_notes_off_seq().take(2048) =~= all_notes_off_seq());
    }
    events
}

/// The message components of a sink history: what was handed over, the
/// answers dropped.
pub open spec fn sent_msgs(log: Seq<(MidiEvent, bool)>) -> Seq<MidiEvent> {
    log.map_values(|p: (MidiEvent, bool)| p.0)
}

/// An output sink: anything that can sound a channel message.
///
/// A sink carries its history as specification-level state: every message
/// it has been handed, paired with the answer it gave, oldest first. The
/// contracts of the playback loops are stated against this history, so
/// implementations must let `sent` mean exactly that.
pub trait Connection {
    /// The sink's history: each message handed to [`play`](Self::play)
    /// with the answer it returned, oldest first. Implementations outside
    /// the verified world inherit this unspecified default; a verified
    /// implementation overrides it with its real log.
    open spec fn sent(&self) -> Seq<(MidiEvent, bool)> {
        vstd::pervasive::arbitrary()
    }

    /// Plays the message, appending it and the answer to the history.
    /// Returning `false` tells the caller to stop playing and return.
    fn play(&mut self, event: MidiEvent) -> (accepted: bool)
        ensures
            final(self).sent() == old(self).sent().push((event, accepted)),
    ;

    /// Turns all notes off by blasting every channel with a NoteOff for
    /// every possible key: `16 * 128 == 2048` messages, in the fixed order
    /// of [`all_notes_off_seq`], so every call hands the sink the same
    /// sequence, whatever it answers.
    fn all_notes_off(&mut self)
        ensures
            sent_msgs(final(self).sent()) == sent_msgs(old(self).sent()) + all_notes_off_seq(),
    {
        let events = all_notes_off_events();
        proof {
            assert(all_notes_off_seq().take(0) =~= Seq::<MidiEvent>::empty());
            assert(sent_msgs(self.sent()) + Seq::<MidiEvent>::empty() =~= sent_msgs(self.sent()));
        }
        let mut i: usize = 0;
        while i < events.len()
            invariant
                i <= events@.len(),
                events@ == all_notes_off_seq(),
                sent_msgs(self.sent()) == sent_msgs(old(self).sent()) + all_notes_off_seq().take(
                    i as int,
                ),
            decreases events@.len() - i,
        {
            let e = events[i];
            let ghost before = self.sent();
            let accepted = self.play(e);
            proof {
                assert(self.sent() == before.push((e, accepted)));
                assert(sent_msgs(before.push((e, accepted))) =~= sent_msgs(before).push(e));
                assert(sent_msgs(before) == sent_msgs(old(self).sent()) + all_notes_off_seq().take(
                    i as int,
                ));
                assert(all_notes_off_seq().take(i + 1) =~= all_notes_off_seq().take(i as int).push(
                    all_notes_off_seq()[i as int],
                ));
                assert((sent_msgs(old(self).sent()) + all_notes_off_seq().take(i as int)).push(e)
                    =~= sent_msgs(old(self).sent()) + all_notes_off_seq().take(i + 1));
                assert(sent_msgs(self.sent()) == sent_msgs(old(self).sent())
                    + all_notes_off_seq().take(i + 1));
            }
            i = i + 1;
        }
        proof {
            assert(all_notes_off_seq().take(events@.len() as int) =~= all_notes_off_seq());
        }
    }
}

/// Plays a sheet without interaction: sleeps the accumulated ticks before
/// every non-empty moment, applies tempo events to its timer, mirrors
/// struck keys on the LED strip, and forwards every channel message to the
/// output sink.
pub struct Player<T: Timer, C: Connection, L: LedTransport> {
    /// The output sink that sounds the notes.
    pub con: C,
    /// The timer pacing playback.
    pub timer: T,
    /// The LED strip transport.
    pub led: L,
}

impl<T: Timer, C: Connection, L: LedTransport> Player<T, C, L> {
    /// A player over the given timer, sink and LED transport.
    pub fn new(timer: T, con: C, led: L) -> (p: Player<T, C, L>)
        ensures
            p.timer == timer,
            p.con == con,
            p.led == led,
    {
        Player { con, timer, led }
    }

    /// Installs a new timer, returning the old one.
    pub fn set_timer(&mut self, timer: T) -> (t: T)
        ensures
            final(self).timer == timer,
            t == old(self).timer,
            final(self).con == old(self).con,
            final(self).led == old(self).led,
    {
        let mut t = timer;
        core::mem::swap(&mut t, &mut self.timer);
        t
    }

    /// Plays the given moments.
    ///
    /// Tempo events are handed to the timer and sound to the sink. A
    /// NoteOn lights the struck key's LED in the velocity's rainbow color
    /// (off for velocity zero), a NoteOff darkens it, and each change is
    /// written to the strip. Stops and returns `false` as soon as the sink
    /// refuses a message; returns `true` after the last moment, with the
    /// strip cleared either way.
    ///
    /// Besides the completion flag, the result carries ghost logs of what
    /// was handed to the devices: the sink received exactly the sheet's
    /// channel messages in score order — all of them on completion, and on
    /// a rejection a non-empty prefix ending at the refused message, with
    /// nothing forwarded after it — and the last frame written to the
    /// strip is dark on both exit paths — and, on completion, the tick
    /// counts slept: one sleep per non-empty moment, of the moments
    /// accumulated since the previous non-empty one. A sheet without
    /// channel messages therefore always completes.
    pub fn play(&mut self, sheet: &[Moment]) -> (r: (bool, PlayLog))
        requires
            sheet_keys_on_strip(moments_view(sheet@)),
            sheet@.len() <= u32::MAX,
        ensures
            final(self).con.sent() == old(self).con.sent() + r.1.sent@,
            ({
                let msgs = sheet_sink_msgs(moments_view(sheet@), forward_pred());
                let handed = sent_msgs(r.1.sent@);
                &&& handed.len() <= msgs.len()
                &&& handed == msgs.take(handed.len() as int)
                &&& r.0 ==> handed == msgs
            }),
            forall|k: int| 0 <= k < r.1.sent@.len() - 1 ==> (#[trigger] r.1.sent@[k]).1,
            r.0 ==> (r.1.sent@.len() == 0 || r.1.sent@.last().1),
            !r.0 ==> r.1.sent@.len() > 0 && !r.1.sent@.last().1,
            r.1.frames@.len() > 0,
            r.1.frames@.last() == Seq::new(NUM_LEDS as nat, |i: int| (0u8, 0u8, 0u8)),
            final(self).timer.tempos() == old(self).timer.tempos() + r.1.tempos@,
            r.0 ==> r.1.tempos@ == sheet_tempo_vals(moments_view(sheet@)),
            final(self).timer.slept() == old(self).timer.slept() + r.1.sleeps@,
            slept_ticks(r.1.sleeps@) == sleep_gaps(moments_view(sheet@), 0).take(
                r.1.sleeps@.len() as int,
            ),
            r.0 ==> slept_ticks(r.1.sleeps@) == sleep_gaps(moments_view(sheet@), 0),
            forall|k: int| 0 <= k < r.1.sleeps@.len() ==> (#[trigger] r.1.sleeps@[k]).1 == 0,
    {
        let ghost tl = moments_view(sheet@);
        let ghost pred = forward_pred();
        let ghost mut sent: Seq<(MidiEvent, bool)> = Seq::empty();
        let ghost mut frames: Seq<Seq<(u8, u8, u8)>> = Seq::empty();
        let ghost mut sleeps: Seq<(u32, u64)> = Seq::empty();
        let ghost mut tempos: Seq<u32> = Seq::empty();
        let mut counter: u32 = 0;
        let mut data = LedBuffer::new();
        self.led.write_frame(data.frame());
        proof {
            frames = frames.push(data@);
            assert(tl.skip(0) =~= tl);
            assert(slept_ticks(sleeps) =~= Seq::<int>::empty());
            assert(Seq::<int>::empty() + sleep_gaps(tl, 0) =~= sleep_gaps(tl, 0));
            assert(slept_ticks(sleeps) =~= sleep_gaps(tl, 0).take(0));
            assert(sent_msgs(sent) =~= Seq::<MidiEvent>::empty());
            assert(old(self).con.sent() + sent =~= old(self).con.sent());
            assert(old(self).timer.slept() + sleeps =~= old(self).timer.slept());
            assert(tl.take(0) =~= Seq::<Seq<Event>>::empty());
            assert(sheet_tempo_vals(tl.take(0)) + Seq::<u32>::empty() =~= sheet_tempo_vals(
                tl.take(0),
            ));
            assert(old(self).timer.tempos() + Seq::<u32>::empty() =~= old(self).timer.tempos());
            assert(tempos =~= sheet_tempo_vals(tl.take(0)));
        }

        let mut i: usize = 0;
        while i < sheet.len()
            invariant
                i <= sheet@.len(),
                sheet@.len() <= u32::MAX,
                counter <= i,
                sheet_keys_on_strip(tl),
                tl == moments_view(sheet@),
                pred == forward_pred(),
                data.wf(),
                self.con.sent() == old(self).con.sent() + sent,
                forall|k: int| 0 <= k < sent.len() ==> (#[trigger] sent[k]).1,
                sent_msgs(sent) == sheet_sink_msgs(tl.take(i as int), pred),
                self.timer.slept() == old(self).timer.slept() + sleeps,
                forall|k: int| 0 <= k < sleeps.len() ==> (#[trigger] sleeps[k]).1 == 0,
                sleep_gaps(tl, 0) == slept_ticks(sleeps) + sleep_gaps(
                    tl.skip(i as int),
                    counter as int,
                ),
                slept_ticks(sleeps) == sleep_gaps(tl, 0).take(sleeps.len() as int),
                self.timer.tempos() == old(self).timer.tempos() + sheet_tempo_vals(
                    tl.take(i as int),
                ),
                tempos == sheet_tempo_vals(tl.take(i as int)),
            decreases sheet@.len() - i,
        {
            let moment = &sheet[i];
            proof {
                assert(tl[i as int] == sheet@[i as int]@);
                assert(tl.take(i + 1).drop_last() =~= tl.take(i as int));
                assert(tl.take(i + 1).last() == tl[i as int]);
                assert(tl[i as int].take(0) =~= Seq::<Event>::empty());
                assert(tl.skip(i as int).first() == tl[i as int]);
                assert(tl.skip(i as int).drop_first() =~= tl.skip(i + 1));
            }
            if !moment.is_empty() {
                self.timer.sleep(counter);
                let ghost slept_before = sleeps;
                proof {
                    sleeps = sleeps.push((counter, 0u64));
                    assert(slept_ticks(sleeps) =~= slept_ticks(slept_before).push(
                        counter as int,
                    ));
                    assert(sleep_gaps(tl.skip(i as int), counter as int) == seq![counter as int]
                        + sleep_gaps(tl.skip(i + 1), 1));
                    assert(slept_ticks(sleeps) + sleep_gaps(tl.skip(i + 1), 1) =~= (slept_ticks(
                        slept_before,
                    ) + seq![counter as int]) + sleep_gaps(tl.skip(i + 1), 1));
                    assert(sleep_gaps(tl, 0) == slept_ticks(sleeps) + sleep_gaps(
                        tl.skip(i + 1),
                        1,
                    ));
                    assert(slept_ticks(sleeps) =~= sleep_gaps(tl, 0).take(sleeps.len() as int));
                }
                counter = 0;

                let mut j: usize = 0;
                while j < moment.events.len()
                    invariant
                        j <= moment.events@.len(),
                        sheet_keys_on_strip(tl),
                        moment.events@ == tl[i as int],
                        0 <= i < tl.len(),
                        tl == moments_view(sheet@),
                        pred == forward_pred(),
                        data.wf(),
                        self.con.sent() == old(self).con.sent() + sent,
                        forall|k: int| 0 <= k < sent.len() ==> (#[trigger] sent[k]).1,
                        sent_msgs(sent) == sheet_sink_msgs(tl.take(i as int), pred)
                            + moment_sink_msgs(tl[i as int].take(j as int), pred),
                        self.timer.slept() == old(self).timer.slept() + sleeps,
                        forall|k: int| 0 <= k < sleeps.len() ==> (#[trigger] sleeps[k]).1 == 0,
                        slept_ticks(sleeps) == sleep_gaps(tl, 0).take(sleeps.len() as int),
                        self.timer.tempos() == old(self).timer.tempos() + (sheet_tempo_vals(
                            tl.take(i as int),
                        ) + moment_tempo_vals(tl[i as int].take(j as int))),
                        tempos == sheet_tempo_vals(tl.take(i as int)) + moment_tempo_vals(
                            tl[i as int].take(j as int),
                        ),
                    decreases moment.events@.len() - j,
                {
                    proof {
                        assert(event_key_on_strip(tl[i as int][j as int]));
                        assert(tl[i as int].take(j + 1).drop_last() =~= tl[i as int].take(j as int));
                        assert(tl[i as int].take(j + 1).last() == tl[i as int][j as int]);
                    }
                    match moment.events[j] {
                        Event::Tempo(val) => {
                            self.timer.change_tempo(val);
                            proof {
                                tempos = tempos.push(val);
                                assert(moment_tempo_vals(tl[i as int].take(j + 1))
                                    =~= moment_tempo_vals(tl[i as int].take(j as int)).push(val));
                                assert(self.timer.tempos() =~= old(self).timer.tempos() + (
                                sheet_tempo_vals(tl.take(i as int)) + moment_tempo_vals(
                                    tl[i as int].take(j + 1),
                                )));
                                assert(tempos =~= sheet_tempo_vals(tl.take(i as int))
                                    + moment_tempo_vals(tl[i as int].take(j + 1)));
                            }
                        },
                        Event::Midi(msg) => {
                            proof {
                                assert(moment_tempo_vals(tl[i as int].take(j + 1))
                                    =~= moment_tempo_vals(tl[i as int].take(j as int)));
                            }
                            match msg.message {
                                MidiMessage::NoteOn { key, vel } => {
                                    let index = get_led_index(key);
                                    let value: (u8, u8, u8);
                                    if vel == 0 {
                                        value = (0, 0, 0);
                                    } else {
                                        value = velocityrainbow_color(vel);
                                    }
                                    data.set_pixel(index, value);
                                    self.led.write_frame(data.frame());
                                    proof {
                                        frames = frames.push(data@);
                                    }
                                },
                                MidiMessage::NoteOff { key, .. } => {
                                    let index = get_led_index(key);
                                    data.set_pixel(index, (0, 0, 0));
                                    self.led.write_frame(data.frame());
                                    proof {
                                        frames = frames.push(data@);
                                    }
                                },
                                _ => {},
                            }
                            let accepted = self.con.play(msg);
                            let ghost sent_before = sent;
                            proof {
                                sent = sent.push((msg, accepted));
                                assert(sent_msgs(sent) =~= sent_msgs(sent_before).push(msg));
                                assert(sent_msgs(sent) =~= sheet_sink_msgs(tl.take(i as int), pred)
                                    + moment_sink_msgs(tl[i as int].take(j + 1), pred));
                            }
                            if !accepted {
                                proof {
                                    lemma_partial_msgs_prefix(tl, pred, i as int, j + 1);
                                }
                                data.clear();
                                self.led.write_frame(data.frame());
                                proof {
                                    frames = frames.push(data@);
                                }
                                return (
                                    false,
                                    PlayLog {
                                        sent: Ghost(sent),
                                        frames: Ghost(frames),
                                        sleeps: Ghost(sleeps),
                                        tempos: Ghost(tempos),
                                    },
                                );
                            }
                        },
                    }
                    j = j + 1;
                }
                proof {
                    assert(tl[i as int].take(tl[i as int].len() as int) =~= tl[i as int]);
                    assert(sent_msgs(sent) == sheet_sink_msgs(tl.take(i + 1), pred));
                    assert(self.timer.tempos() =~= old(self).timer.tempos() + sheet_tempo_vals(
                        tl.take(i + 1),
                    ));
                    assert(tempos =~= sheet_tempo_vals(tl.take(i + 1)));
                }
            } else {
                proof {
                    assert(moment_sink_msgs(tl[i as int], pred) =~= Seq::<MidiEvent>::empty());
                    assert(sent_msgs(sent) + Seq::<MidiEvent>::empty() =~= sent_msgs(sent));
                    assert(sent_msgs(sent) == sheet_sink_msgs(tl.take(i + 1), pred));
                    assert(moment_tempo_vals(tl[i as int]) =~= Seq::<u32>::empty());
                    assert(self.timer.tempos() =~= old(self).timer.tempos() + sheet_tempo_vals(
                        tl.take(i + 1),
                    ));
                    assert(tempos =~= sheet_tempo_vals(tl.take(i + 1)));
                }
            }
            counter = counter + 1;
            i = i + 1;
        }

        proof {
            assert(tl.take(sheet@.len() as int) =~= tl);
            assert(sheet_sink_msgs(tl, pred).take(sent_msgs(sent).len() as int)
                =~= sent_msgs(sent));
            assert(tl.skip(sheet@.len() as int) =~= Seq::<Seq<Event>>::empty());
            assert(slept_ticks(sleeps) + Seq::<int>::empty() =~= slept_ticks(sleeps));
        }
        data.clear();
        self.led.write_frame(data.frame());
        proof {
            frames = frames.push(data@);
        }
        (
            true,
            PlayLog {
                sent: Ghost(sent),
                frames: Ghost(frames),
                sleeps: Ghost(sleeps),
                tempos: Ghost(tempos),
            },
        )
    }
}

/// What a playback run handed to its devices, recorded for specification
/// only: ghost data that compiles to nothing.
pub struct PlayLog {
    /// The sink calls made: each channel message handed over, with the
    /// answer the sink gave, in order.
    pub sent: Ghost<Seq<(MidiEvent, bool)>>,
    /// The frames written to the LED strip, in order.
    pub frames: Ghost<Seq<Seq<(u8, u8, u8)>>>,
    /// The sleeps handed to the timer: the tick count and the processing
    /// time subtracted (always zero for the player), in order.
    pub sleeps: Ghost<Seq<(u32, u64)>>,
    /// The tempo values handed to the timer, in order.
    pub tempos: Ghost<Seq<u32>>,
}

} // verus!
