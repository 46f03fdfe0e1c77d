//! The track classifier: a one-shot heuristic that inspects the first
//! struck note of the last two tracks of a score and labels them as the
//! right-hand and left-hand parts.

use vstd::prelude::*;

use crate::event::{Event, MidiMessage, TrackEntry};
use crate::sheet::tracks_view;

verus! {

/// The key of the first note struck in a track, zero if no note is struck.
pub open spec fn first_note_on_key(track: Seq<TrackEntry>) -> u8
    decreases track.len(),
{
    if track.len() == 0 {
        0
    } else {
        match track.first().event {
            Some(Event::Midi(m)) => match m.message {
                MidiMessage::NoteOn { key, .. } => key,
                _ => first_note_on_key(track.drop_first()),
            },
            _ => first_note_on_key(track.drop_first()),
        }
    }
}

/// Scans a track for its first struck note and returns that key, or zero
/// if the track strikes none.
pub fn first_note_on(track: &Vec<TrackEntry>) -> (key: u8)
    ensures
        key == first_note_on_key(track@),
{
    let mut i: usize = 0;
    proof {
        assert(track@.skip(0) =~= track@);
    }
    while i < track.len()
        invariant
            i <= track@.len(),
            first_note_on_key(track@) == first_note_on_key(track@.skip(i as int)),
        decreases track@.len() - i,
    {
        proof {
            assert(track@.skip(i as int).first() == track@[i as int]);
            assert(track@.skip(i as int).drop_first() =~= track@.skip(i + 1));
        }
        match track[i].event {
            Some(Event::Midi(m)) => match m.message {
                MidiMessage::NoteOn { key, .. } => {
                    return key;
                },
                _ => {},
            },
            _ => {},
        }
        i = i + 1;
    }
    proof {
        assert(track@.skip(track@.len() as int) =~= Seq::<TrackEntry>::empty());
    }
    0
}

/// Labels the last two tracks of a score as the right-hand and left-hand
/// parts, and picks the track to practise.
///
/// With fewer than two tracks everything maps to track zero. Otherwise the
/// two last tracks are compared by the key of their first struck note: the
/// higher one plays the right hand, the other the left, whatever order the
/// tracks come in. The hand selector then picks the practice track: 0 for
/// the right hand, 1 for the left; any other value means both hands, with
/// practice track 0 standing for "no single practice track".
pub fn convert_hand_no_to_track(tracks: &Vec<Vec<TrackEntry>>, hand_no: usize) -> (r: (
    usize,
    usize,
    usize,
))
    ensures
        ({
            let tv = tracks_view(tracks@);
            if tv.len() < 2 {
                r == (0usize, 0usize, 0usize)
            } else {
                let f = tv.len() - 2;
                let s = tv.len() - 1;
                let right = if first_note_on_key(tv[s]) > first_note_on_key(tv[f]) {
                    s
                } else {
                    f
                };
                let left = if first_note_on_key(tv[s]) > first_note_on_key(tv[f]) {
                    f
                } else {
                    s
                };
                &&& r.0 == right
                &&& r.1 == left
                &&& r.2 == if hand_no == 0 {
                    right
                } else if hand_no == 1 {
                    left
                } else {
                    0
                }
            }
        }),
{
    let track_count = tracks.len();
    if track_count < 2 {
        return (0, 0, 0);
    }
    let first_track_index = track_count - 2;
    let second_track_index = track_count - 1;

    let first_track_note = first_note_on(&tracks[first_track_index]);
    let second_track_note = first_note_on(&tracks[second_track_index]);

    proof {
        let tv = tracks_view(tracks@);
        assert(tv[first_track_index as int] == tracks@[first_track_index as int]@);
        assert(tv[second_track_index as int] == tracks@[second_track_index as int]@);
    }
    let right_hand_track: usize;
    let left_hand_track: usize;
    if second_track_note > first_track_note {
        right_hand_track = second_track_index;
        left_hand_track = first_track_index;
    } else {
        right_hand_track = first_track_index;
        left_hand_track = second_track_index;
    }

    let learn_track: usize;
    if hand_no == 0 {
        learn_track = right_hand_track;
    } else if hand_no == 1 {
        learn_track = left_hand_track;
    } else {
        learn_track = 0;
    }

    (right_hand_track, left_hand_track, learn_track)
}

} // verus!
