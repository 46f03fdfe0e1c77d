use learn_midi::event::{Event, MidiEvent, MidiMessage, Moment};
use learn_midi::player::{Connection, LedTransport, Player, all_notes_off_events};
use learn_midi::{get_led_index, velocityrainbow_color, Timer, NUM_LEDS};

struct MockTimer {
    sleeps: Vec<u32>,
    tempos: Vec<u32>,
}

impl Timer for MockTimer {
    fn sleep_duration(&mut self, _n_ticks: u32) -> u64 {
        0
    }

    fn change_tempo(&mut self, tempo: u32) {
        self.tempos.push(tempo);
    }

    fn sleep(&mut self, n_ticks: u32) {
        self.sleeps.push(n_ticks);
    }

    fn sleep_with_adjustment(&mut self, _n_ticks: u32, _process_micros: u64) {
    }

    fn duration(&mut self, _moments: &[Moment]) -> u64 {
        0
    }
}

struct RecordingSink {
    played: Vec<MidiEvent>,
    accept: bool,
}

impl Connection for RecordingSink {
    fn play(&mut self, event: MidiEvent) -> bool {
        self.played.push(event);
        self.accept
    }
}

struct RecordingStrip {
    frames: Vec<Vec<(u8, u8, u8)>>,
}

impl LedTransport for RecordingStrip {
    fn write_frame(&mut self, frame: &Vec<(u8, u8, u8)>) {
        self.frames.push(frame.clone());
    }
}

fn on(key: u8, vel: u8) -> MidiEvent {
    MidiEvent { track: 0, channel: 0, message: MidiMessage::NoteOn { key, vel } }
}

fn off(key: u8) -> MidiEvent {
    MidiEvent { track: 0, channel: 0, message: MidiMessage::NoteOff { key, vel: 0 } }
}

fn moment_of(events: Vec<Event>) -> Moment {
    Moment { events }
}

fn new_player() -> Player<MockTimer, RecordingSink, RecordingStrip> {
    Player::new(
        MockTimer { sleeps: Vec::new(), tempos: Vec::new() },
        RecordingSink { played: Vec::new(), accept: true },
        RecordingStrip { frames: Vec::new() },
    )
}

#[test]
fn player_plays_sheet_and_lights_leds() {
    let sheet = vec![
        moment_of(vec![]),
        moment_of(vec![Event::Tempo(500_000), Event::Midi(on(60, 80))]),
        moment_of(vec![]),
        moment_of(vec![Event::Midi(off(60))]),
    ];
    let mut player = new_player();
    let (completed, _log) = player.play(&sheet);
    assert!(completed);

    // One tick accumulated before the first sounding moment, two (its own
    // and the empty one) before the second.
    assert_eq!(player.timer.sleeps, vec![1, 2]);
    assert_eq!(player.timer.tempos, vec![500_000]);
    assert_eq!(player.con.played, vec![on(60, 80), off(60)]);

    // Initial blank frame, one per key event, and the final clear.
    assert_eq!(player.led.frames.len(), 4);
    let index = get_led_index(60);
    let dark = vec![(0, 0, 0); NUM_LEDS];
    assert_eq!(player.led.frames[0], dark);
    assert_eq!(player.led.frames[1][index], velocityrainbow_color(80));
    assert_eq!(player.led.frames[1][index], (0, 71, 184));
    assert_eq!(player.led.frames[2], dark);
    assert_eq!(player.led.frames[3], dark);
}

#[test]
fn player_treats_zero_velocity_as_off() {
    let sheet = vec![moment_of(vec![Event::Midi(on(60, 0))])];
    let mut player = new_player();
    assert!(player.play(&sheet).0);
    // The zero-velocity NoteOn darkened the pixel and was still forwarded.
    assert_eq!(player.led.frames[1][get_led_index(60)], (0, 0, 0));
    assert_eq!(player.con.played, vec![on(60, 0)]);
}

#[test]
fn player_stops_on_sink_rejection() {
    let sheet = vec![
        moment_of(vec![Event::Midi(on(60, 80)), Event::Midi(on(64, 80))]),
        moment_of(vec![Event::Midi(off(60))]),
    ];
    let mut player = new_player();
    player.con.accept = false;
    let (completed, _log) = player.play(&sheet);
    assert!(!completed);
    // Playback stopped at the first refused message, clearing the strip.
    assert_eq!(player.con.played, vec![on(60, 80)]);
    let dark = vec![(0, 0, 0); NUM_LEDS];
    assert_eq!(player.led.frames.len(), 3);
    assert_eq!(player.led.frames[2], dark);
}

#[test]
fn set_timer_swaps_timers() {
    let mut player = new_player();
    player.timer.tempos.push(7);
    let old = player.set_timer(MockTimer { sleeps: Vec::new(), tempos: Vec::new() });
    assert_eq!(old.tempos, vec![7]);
    assert!(player.timer.tempos.is_empty());
}

#[test]
fn all_notes_off_sends_every_channel_key_pair() {
    let mut sink = RecordingSink { played: Vec::new(), accept: true };
    sink.all_notes_off();
    assert_eq!(sink.played.len(), 2048);
    for (i, event) in sink.played.iter().enumerate() {
        assert_eq!(event.channel, (i / 128) as u8);
        assert_eq!(
            event.message,
            MidiMessage::NoteOff { key: (i % 128) as u8, vel: 127 }
        );
    }
}

#[test]
fn all_notes_off_is_deterministic() {
    // Sending all-notes-off again after an already-silent state produces
    // exactly the same sink call sequence.
    let mut first = RecordingSink { played: Vec::new(), accept: true };
    first.all_notes_off();
    let mut second = RecordingSink { played: Vec::new(), accept: true };
    second.all_notes_off();
    assert_eq!(first.played, second.played);

    first.all_notes_off();
    assert_eq!(first.played.len(), 4096);
    assert_eq!(first.played[..2048], first.played[2048..]);
    assert_eq!(first.played, all_notes_off_events().iter().cycle().take(4096).copied().collect::<Vec<_>>());
}
