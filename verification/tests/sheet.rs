use learn_midi::event::{Event, MidiEvent, MidiMessage, Moment, TrackEntry};
use learn_midi::sheet::Sheet;
use learn_midi::timers::Ticker;

fn on(track: usize, key: u8, vel: u8) -> Event {
    Event::Midi(MidiEvent { track, channel: 0, message: MidiMessage::NoteOn { key, vel } })
}

fn off(track: usize, key: u8) -> Event {
    Event::Midi(MidiEvent { track, channel: 0, message: MidiMessage::NoteOff { key, vel: 0 } })
}

fn entry(delta: u32, event: Option<Event>) -> TrackEntry {
    TrackEntry { delta, event }
}

#[test]
fn single_places_events_at_their_ticks() {
    // Events at ticks 0, 0 and 2: a three-tick timeline.
    let track = vec![
        entry(0, Some(on(0, 60, 80))),
        entry(0, Some(Event::Tempo(500_000))),
        entry(2, Some(off(0, 60))),
    ];
    let sheet = Sheet::single(&track);
    assert_eq!(sheet.len(), 3);
    assert_eq!(sheet.moments[0].events, vec![on(0, 60, 80), Event::Tempo(500_000)]);
    assert!(sheet.moments[1].events.is_empty());
    assert_eq!(sheet.moments[2].events, vec![off(0, 60)]);
}

#[test]
fn single_counts_eventless_entries() {
    // An entry the core does not model still advances the tick position.
    let track = vec![entry(1, Some(on(0, 60, 80))), entry(3, None)];
    let sheet = Sheet::single(&track);
    assert_eq!(sheet.len(), 5);
    assert_eq!(sheet.moments[1].events, vec![on(0, 60, 80)]);
    assert!(sheet.moments[4].events.is_empty());
}

#[test]
fn single_of_empty_track_is_empty() {
    let track: Vec<TrackEntry> = vec![];
    let sheet = Sheet::single(&track);
    assert_eq!(sheet.len(), 0);
}

#[test]
fn parallel_length_is_max() {
    // Track spans 3, 5 and 2: the merged timeline spans 5 ticks.
    let t1 = vec![entry(2, Some(on(0, 60, 80)))];
    let t2 = vec![entry(1, Some(on(1, 62, 80))), entry(3, Some(off(1, 62)))];
    let t3 = vec![entry(1, Some(on(2, 64, 80)))];
    let tracks = vec![t1, t2, t3];
    let sheet = Sheet::parallel(&tracks);
    assert_eq!(sheet.len(), 5);
    // Simultaneous events keep track order within the moment.
    assert_eq!(sheet.moments[1].events, vec![on(1, 62, 80), on(2, 64, 80)]);
    assert_eq!(sheet.moments[2].events, vec![on(0, 60, 80)]);
    assert_eq!(sheet.moments[4].events, vec![off(1, 62)]);
}

#[test]
fn sequential_length_is_sum() {
    let t1 = vec![entry(2, Some(on(0, 60, 80)))];
    let t2 = vec![entry(1, Some(on(1, 62, 80))), entry(3, Some(off(1, 62)))];
    let t3 = vec![entry(1, Some(on(2, 64, 80)))];
    let tracks = vec![t1, t2, t3];
    let sheet = Sheet::sequential(&tracks);
    assert_eq!(sheet.len(), 3 + 5 + 2);
    // The second track's first event lands one tick after the first
    // track's timeline ends.
    assert_eq!(sheet.moments[2].events, vec![on(0, 60, 80)]);
    assert_eq!(sheet.moments[4].events, vec![on(1, 62, 80)]);
    assert_eq!(sheet.moments[7].events, vec![off(1, 62)]);
    assert_eq!(sheet.moments[9].events, vec![on(2, 64, 80)]);
}

#[test]
fn parallel_duration_is_max_span_times_tick() {
    // Tempo-free tracks of spans 3, 5 and 2 at a fixed tempo: the merged
    // sheet plays for max(3, 5, 2) ticks of 480000/480 = 1000 us each.
    let t1 = vec![entry(2, Some(on(0, 60, 80)))];
    let t2 = vec![entry(1, Some(on(1, 62, 80))), entry(3, Some(off(1, 62)))];
    let t3 = vec![entry(1, Some(on(2, 64, 80)))];
    let tracks = vec![t1, t2, t3];
    let sheet = Sheet::parallel(&tracks);
    let mut timer = Ticker::with_initial_tempo(480, 480_000);
    assert_eq!(timer.duration(&sheet.moments), 5 * 1000);
    let sequential = Sheet::sequential(&tracks);
    let mut timer = Ticker::with_initial_tempo(480, 480_000);
    assert_eq!(timer.duration(&sequential.moments), (3 + 5 + 2) * 1000);
}

#[test]
fn parallel_of_no_tracks_is_empty() {
    let tracks: Vec<Vec<TrackEntry>> = vec![];
    assert_eq!(Sheet::parallel(&tracks).len(), 0);
    assert_eq!(Sheet::sequential(&tracks).len(), 0);
}

#[test]
fn extract_non_midi_strips_channel_messages() {
    let track = vec![
        entry(0, Some(on(0, 60, 80))),
        entry(0, Some(Event::Tempo(500_000))),
        entry(1, Some(off(0, 60))),
    ];
    let sheet = Sheet::single(&track);
    let extracted = sheet.extract_non_midi();
    assert_eq!(extracted.len(), sheet.len());
    assert_eq!(extracted.moments[0].events, vec![Event::Tempo(500_000)]);
    // A moment left without events collapses to the canonical empty value.
    assert_eq!(extracted.moments[1], Moment::default());
    // The source sheet is untouched.
    assert_eq!(sheet.moments[0].events.len(), 2);
}

#[test]
fn merge_back_preserves_midi_content() {
    // Extracting the tempo skeleton and merging it back never changes the
    // channel messages already present.
    let track = vec![
        entry(0, Some(on(0, 60, 80))),
        entry(0, Some(Event::Tempo(500_000))),
        entry(1, Some(off(0, 60))),
        entry(1, Some(Event::Tempo(250_000))),
    ];
    let mut sheet = Sheet::single(&track);
    let skeleton = sheet.extract_non_midi();
    let before_midi: Vec<Vec<Event>> = sheet
        .moments
        .iter()
        .map(|m| {
            m.events
                .iter()
                .copied()
                .filter(|e| matches!(e, Event::Midi(_)))
                .collect()
        })
        .collect();
    sheet.merge_with(skeleton);
    let after_midi: Vec<Vec<Event>> = sheet
        .moments
        .iter()
        .map(|m| {
            m.events
                .iter()
                .copied()
                .filter(|e| matches!(e, Event::Midi(_)))
                .collect()
        })
        .collect();
    assert_eq!(before_midi, after_midi);
    // The donor's non-channel events were appended after this sheet's.
    assert_eq!(
        sheet.moments[0].events,
        vec![on(0, 60, 80), Event::Tempo(500_000), Event::Tempo(500_000)]
    );
    assert_eq!(sheet.moments[2].events, vec![Event::Tempo(250_000), Event::Tempo(250_000)]);
    assert_eq!(sheet.len(), 3);
}

#[test]
fn moment_push_merge_and_default() {
    let mut m = Moment::default();
    assert!(m.is_empty());
    m.push(on(0, 60, 80));
    assert!(!m.is_empty());
    let mut other = Moment::default();
    other.push(Event::Tempo(1));
    m.merge(other);
    assert_eq!(m.events, vec![on(0, 60, 80), Event::Tempo(1)]);
}
