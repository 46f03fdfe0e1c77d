use learn_midi::classify::{convert_hand_no_to_track, first_note_on};
use learn_midi::event::{Event, MidiEvent, MidiMessage, TrackEntry};

fn on(key: u8) -> Option<Event> {
    Some(Event::Midi(MidiEvent {
        track: 0,
        channel: 0,
        message: MidiMessage::NoteOn { key, vel: 80 },
    }))
}

fn entry(delta: u32, event: Option<Event>) -> TrackEntry {
    TrackEntry { delta, event }
}

fn track_with_first_note(key: u8) -> Vec<TrackEntry> {
    vec![
        entry(0, Some(Event::Tempo(500_000))),
        entry(0, None),
        entry(1, on(key)),
        entry(1, on(40)),
    ]
}

#[test]
fn first_note_on_skips_other_events() {
    assert_eq!(first_note_on(&track_with_first_note(72)), 72);
}

#[test]
fn first_note_on_of_noteless_track_is_zero() {
    let track = vec![entry(0, Some(Event::Tempo(1))), entry(2, None)];
    assert_eq!(first_note_on(&track), 0);
    assert_eq!(first_note_on(&Vec::new()), 0);
}

#[test]
fn higher_first_note_is_right_hand() {
    // Keys 60 and 72: whichever order the two tracks come in, the track
    // whose first note is 72 is the right hand, the other the left.
    let low_then_high = vec![track_with_first_note(60), track_with_first_note(72)];
    let (rh, lh, _) = convert_hand_no_to_track(&low_then_high, 0);
    assert_eq!((rh, lh), (1, 0));

    let high_then_low = vec![track_with_first_note(72), track_with_first_note(60)];
    let (rh, lh, _) = convert_hand_no_to_track(&high_then_low, 0);
    assert_eq!((rh, lh), (0, 1));
}

#[test]
fn only_last_two_tracks_are_inspected() {
    let tracks = vec![
        track_with_first_note(100),
        track_with_first_note(60),
        track_with_first_note(72),
    ];
    let (rh, lh, _) = convert_hand_no_to_track(&tracks, 0);
    assert_eq!((rh, lh), (2, 1));
}

#[test]
fn hand_selector_picks_practice_track() {
    let tracks = vec![track_with_first_note(60), track_with_first_note(72)];
    let (_, _, learn) = convert_hand_no_to_track(&tracks, 0);
    assert_eq!(learn, 1); // right hand
    let (_, _, learn) = convert_hand_no_to_track(&tracks, 1);
    assert_eq!(learn, 0); // left hand
    let (_, _, learn) = convert_hand_no_to_track(&tracks, 2);
    assert_eq!(learn, 0); // both hands: no single practice track
}

#[test]
fn fewer_than_two_tracks_map_to_track_zero() {
    let none: Vec<Vec<TrackEntry>> = vec![];
    assert_eq!(convert_hand_no_to_track(&none, 0), (0, 0, 0));
    let one = vec![track_with_first_note(72)];
    assert_eq!(convert_hand_no_to_track(&one, 1), (0, 0, 0));
}

#[test]
fn equal_first_notes_keep_input_order() {
    // Not strictly higher: the earlier of the two tracks stays right hand.
    let tracks = vec![track_with_first_note(60), track_with_first_note(60)];
    let (rh, lh, _) = convert_hand_no_to_track(&tracks, 0);
    assert_eq!((rh, lh), (0, 1));
}
