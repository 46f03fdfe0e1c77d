use learn_midi::event::{Event, MidiEvent, MidiMessage, Moment};
use learn_midi::get_led_index;
use learn_midi::learner::{
    EventDecision, Learner, LearnerHost, LearnerState, LedCommand, handle_midi_message,
    learn_event_decision,
};
use learn_midi::player::Connection;
use learn_midi::Timer;

#[test]
fn expected_keys_lifecycle() {
    let mut state = LearnerState::new();
    // Empty mapping: the wait predicate holds vacuously.
    assert!(state.expected.satisfied());
    state.expected.expect(60);
    state.expected.expect(64);
    assert!(!state.expected.satisfied());
    assert!(state.expected.observe_on(60));
    assert!(!state.expected.satisfied());
    assert!(state.expected.observe_on(64));
    assert!(state.expected.satisfied());
    // A release of a required key puts it back to unpressed.
    assert!(state.expected.observe_off(64));
    assert!(!state.expected.satisfied());
    // Keys never required are left alone.
    assert!(!state.expected.observe_on(72));
    assert!(!state.expected.observe_off(72));
    state.expected.clear();
    assert!(state.expected.satisfied());
}

#[test]
fn pressed_keys_set_behavior() {
    let mut state = LearnerState::new();
    assert!(!state.pressed.contains(60));
    state.pressed.insert(60);
    assert!(state.pressed.contains(60));
    state.pressed.insert(60);
    assert!(state.pressed.contains(60));
    state.pressed.remove(60);
    assert!(!state.pressed.contains(60));
}

#[test]
fn listener_marks_expected_press_and_signals() {
    let mut state = LearnerState::new();
    state.expected.expect(60);
    assert!(!state.signal);
    let cmd = handle_midi_message(&mut state, &[0x90, 60, 80][..]);
    assert_eq!(cmd, LedCommand::NoChange);
    assert!(state.signal);
    assert!(state.expected.satisfied());
    assert!(state.pressed.contains(60));
}

#[test]
fn listener_flags_wrong_key_red() {
    let mut state = LearnerState::new();
    state.expected.expect(60);
    let cmd = handle_midi_message(&mut state, &[0x90, 61, 80][..]);
    assert_eq!(cmd, LedCommand::Paint { index: get_led_index(61), color: (1, 0, 0) });
    assert!(!state.signal);
    assert!(!state.expected.satisfied());
    assert!(state.pressed.contains(61));
}

#[test]
fn listener_release_resets_expected_flag() {
    let mut state = LearnerState::new();
    state.expected.expect(60);
    handle_midi_message(&mut state, &[0x90, 60, 80][..]);
    assert!(state.expected.satisfied());
    let cmd = handle_midi_message(&mut state, &[0x80, 60, 0][..]);
    assert_eq!(cmd, LedCommand::NoChange);
    assert!(!state.expected.satisfied());
    assert!(!state.pressed.contains(60));
}

#[test]
fn listener_clears_led_of_unexpected_release() {
    let mut state = LearnerState::new();
    let cmd = handle_midi_message(&mut state, &[0x80, 61, 0][..]);
    assert_eq!(cmd, LedCommand::Paint { index: get_led_index(61), color: (0, 0, 0) });
}

#[test]
fn listener_ignores_other_messages() {
    let mut state = LearnerState::new();
    state.expected.expect(60);
    let cmd = handle_midi_message(&mut state, &[0xb0, 60, 80][..]);
    assert_eq!(cmd, LedCommand::NoChange);
    assert!(!state.signal);
    assert!(!state.pressed.contains(60));
    assert!(!state.expected.satisfied());
}

#[test]
fn wait_satisfied_on_first_press_despite_release() {
    // The practice track expects key 60; the learner taps it (press, then
    // release) before the next moment is processed. The press alone
    // satisfies the wait predicate and raises the signal, so the woken
    // foreground loop exits its wait without requiring a continued hold.
    let mut state = LearnerState::new();
    state.expected.expect(60);
    assert!(!state.expected.satisfied());
    handle_midi_message(&mut state, &[0x90, 60, 80][..]);
    assert!(state.signal);
    assert!(state.expected.satisfied());
    // Woken by that signal, the foreground loop clears the mapping and
    // moves on; the release arriving afterwards only clears the LED.
    state.expected.clear();
    let cmd = handle_midi_message(&mut state, &[0x80, 60, 0][..]);
    assert_eq!(cmd, LedCommand::Paint { index: get_led_index(60), color: (0, 0, 0) });
    assert!(state.expected.satisfied());
}

struct Lcg(u64);

impl Lcg {
    fn next(&mut self) -> u32 {
        self.0 = self.0.wrapping_mul(6364136223846793005).wrapping_add(1442695040888963407);
        (self.0 >> 33) as u32
    }
}

#[test]
fn interleavings_never_leave_the_wait_blocked() {
    // One thousand randomized interleavings of listener deliveries against
    // the foreground wait: once every expected key has transitioned to
    // pressed at least once, with no later release of it, the wait
    // predicate is satisfied and a signal accompanied the press, so the
    // foreground loop is never left blocked.
    let mut rng = Lcg(0x1234_5678_9abc_def0);
    for _trial in 0..1000 {
        let mut state = LearnerState::new();
        let n = 1 + (rng.next() % 4) as usize;
        let mut expected: Vec<u8> = Vec::new();
        while expected.len() < n {
            let k = 36 + (rng.next() % 61) as u8;
            if !expected.contains(&k) {
                expected.push(k);
            }
        }
        for &k in &expected {
            state.expected.expect(k);
        }
        let mut deliveries: Vec<(bool, u8)> = Vec::new();
        // Arbitrary noise first: presses and releases of any keys.
        for _ in 0..(rng.next() % 20) {
            let k = 21 + (rng.next() % 80) as u8;
            deliveries.push((rng.next() % 2 == 0, k));
        }
        // Some expected keys get an early tap that a release undoes.
        for &k in &expected {
            if rng.next() % 2 == 0 {
                deliveries.push((true, k));
                deliveries.push((false, k));
            }
        }
        // Finally every expected key is pressed, in random order, with
        // unexpected-key noise in between.
        let mut order = expected.clone();
        for i in (1..order.len()).rev() {
            let j = (rng.next() as usize) % (i + 1);
            order.swap(i, j);
        }
        for &k in &order {
            if rng.next() % 2 == 0 {
                let noise = 21 + (rng.next() % 80) as u8;
                if !expected.contains(&noise) {
                    deliveries.push((rng.next() % 2 == 0, noise));
                }
            }
            deliveries.push((true, k));
        }
        let mut woke_satisfied = false;
        for (press, key) in deliveries {
            let status: u8 = if press { 0x90 } else { 0x80 };
            let vel: u8 = if press { 80 } else { 0 };
            handle_midi_message(&mut state, &[status, key, vel][..]);
            if state.signal && state.expected.satisfied() {
                // A signalled waiter re-checking now would exit its wait.
                woke_satisfied = true;
            }
        }
        assert!(state.expected.satisfied());
        assert!(woke_satisfied);
        for &k in &expected {
            assert!(state.pressed.contains(k));
        }
    }
}

fn on(track: usize, key: u8, vel: u8) -> MidiEvent {
    MidiEvent { track, channel: 0, message: MidiMessage::NoteOn { key, vel } }
}

fn off(track: usize, key: u8) -> MidiEvent {
    MidiEvent { track, channel: 0, message: MidiMessage::NoteOff { key, vel: 0 } }
}

#[test]
fn decision_withholds_practice_notes() {
    let d = learn_event_decision(&on(1, 60, 80), 1, 1, false);
    assert_eq!(
        d,
        EventDecision {
            paint: Some((get_led_index(60), (0, 1, 0))),
            expect: Some(60),
            play: false,
        }
    );
}

#[test]
fn decision_plays_other_tracks() {
    let d = learn_event_decision(&on(0, 40, 80), 1, 1, false);
    assert_eq!(
        d,
        EventDecision {
            paint: Some((get_led_index(40), (0, 0, 1))),
            expect: None,
            play: true,
        }
    );
}

#[test]
fn decision_deepens_color_for_held_key() {
    // A key already held must be released and struck again: a deeper
    // color signals the re-press, but the note is withheld all the same.
    let d = learn_event_decision(&on(1, 60, 80), 1, 1, true);
    assert_eq!(
        d,
        EventDecision {
            paint: Some((get_led_index(60), (0, 2, 0))),
            expect: Some(60),
            play: false,
        }
    );
}

#[test]
fn decision_treats_zero_velocity_as_off() {
    let d = learn_event_decision(&on(1, 60, 0), 1, 1, false);
    assert_eq!(
        d,
        EventDecision {
            paint: Some((get_led_index(60), (0, 0, 0))),
            expect: None,
            play: true,
        }
    );
}

#[test]
fn decision_outside_keyboard_range_plays() {
    // Key 100 is on the strip but beyond the 61-key keyboard: it cannot
    // be practised and plays automatically.
    let d = learn_event_decision(&on(1, 100, 80), 1, 1, false);
    assert_eq!(d.expect, None);
    assert!(d.play);
}

#[test]
fn decision_withholds_practice_note_off() {
    let d = learn_event_decision(&off(1, 60), 1, 1, false);
    assert_eq!(
        d,
        EventDecision {
            paint: Some((get_led_index(60), (0, 0, 0))),
            expect: None,
            play: false,
        }
    );
    let d = learn_event_decision(&off(0, 60), 1, 1, false);
    assert!(d.play);
}

#[test]
fn decision_passes_other_messages_through() {
    let msg = MidiEvent {
        track: 1,
        channel: 0,
        message: MidiMessage::Controller { controller: 64, value: 127 },
    };
    let d = learn_event_decision(&msg, 1, 1, false);
    assert_eq!(d, EventDecision { paint: None, expect: None, play: true });
}

struct MockTimer {
    sleeps: Vec<(u32, u64)>,
    tempos: Vec<u32>,
}

impl Timer for MockTimer {
    fn sleep_duration(&mut self, _n_ticks: u32) -> u64 {
        0
    }

    fn change_tempo(&mut self, tempo: u32) {
        self.tempos.push(tempo);
    }

    fn sleep(&mut self, _n_ticks: u32) {
    }

    fn sleep_with_adjustment(&mut self, n_ticks: u32, process_micros: u64) {
        self.sleeps.push((n_ticks, process_micros));
    }

    fn duration(&mut self, _moments: &[Moment]) -> u64 {
        0
    }
}

struct RecordingSink {
    played: Vec<MidiEvent>,
    accept: bool,
}

impl Connection for RecordingSink {
    fn play(&mut self, event: MidiEvent) -> bool {
        self.played.push(event);
        self.accept
    }
}

struct MockHost {
    state: LearnerState,
    pending: Vec<u8>,
    leds: Vec<(usize, (u8, u8, u8))>,
    clears: u32,
    now: u64,
}

impl MockHost {
    fn new() -> MockHost {
        MockHost { state: LearnerState::new(), pending: Vec::new(), leds: Vec::new(), clears: 0, now: 0 }
    }
}

impl LearnerHost for MockHost {
    fn led_set(&mut self, index: usize, color: (u8, u8, u8)) {
        self.leds.push((index, color));
    }

    fn led_clear(&mut self) {
        self.clears += 1;
    }

    fn pressed_contains(&mut self, key: u8) -> bool {
        self.state.pressed.contains(key)
    }

    fn expect_key(&mut self, key: u8) {
        self.state.expected.expect(key);
        self.pending.push(key);
    }

    fn wait_for_keys(&mut self) {
        // The learner presses every required key while the loop waits.
        for key in self.pending.drain(..).collect::<Vec<u8>>() {
            handle_midi_message(&mut self.state, &[0x90, key, 80][..]);
        }
        assert!(self.state.expected.satisfied());
    }

    fn clear_expected(&mut self) {
        self.state.expected.clear();
    }

    fn now_micros(&mut self) -> u64 {
        self.now += 1000;
        self.now
    }
}

fn moment_of(events: Vec<Event>) -> Moment {
    Moment { events }
}

#[test]
fn learn_withholds_practice_track_and_paces_moments() {
    let sheet = vec![
        moment_of(vec![
            Event::Tempo(500_000),
            Event::Midi(on(1, 60, 80)),
            Event::Midi(on(0, 40, 80)),
        ]),
        moment_of(vec![]),
        moment_of(vec![Event::Midi(off(1, 60)), Event::Midi(off(0, 40))]),
    ];
    let timer = MockTimer { sleeps: Vec::new(), tempos: Vec::new() };
    let sink = RecordingSink { played: Vec::new(), accept: true };
    let mut learner = Learner::new(timer, sink, 0);
    let mut host = MockHost::new();

    let (completed, _sent) = learner.learn(&sheet, &mut host, 1, 0, 1);
    assert!(completed);

    // The practice-track note never reached the sink; the other track did.
    assert_eq!(learner.con.played, vec![on(0, 40, 80), off(0, 40)]);
    // The tempo event went to the timer.
    assert_eq!(learner.timer.tempos, vec![500_000]);
    // First non-empty moment: no ticks accumulated, no processing time
    // yet. Second: two ticks since, and the measured wait of the first.
    assert_eq!(learner.timer.sleeps, vec![(0, 0), (2, 1000)]);
    // The practice key was required, painted in the right-hand color; the
    // background note in the other channel; the note-offs darkened both.
    assert_eq!(
        host.leds,
        vec![
            (get_led_index(60), (0, 1, 0)),
            (get_led_index(40), (0, 0, 1)),
            (get_led_index(60), (0, 0, 0)),
            (get_led_index(40), (0, 0, 0)),
        ]
    );
    // The strip was blanked at the start and at the end.
    assert_eq!(host.clears, 2);
    // The mapping was cleared after each waited moment.
    assert!(host.state.expected.satisfied());
}

#[test]
fn learn_stops_on_sink_rejection() {
    let sheet = vec![moment_of(vec![Event::Midi(on(0, 40, 80))])];
    let timer = MockTimer { sleeps: Vec::new(), tempos: Vec::new() };
    let sink = RecordingSink { played: Vec::new(), accept: false };
    let mut learner = Learner::new(timer, sink, 0);
    let mut host = MockHost::new();
    let (completed, _sent) = learner.learn(&sheet, &mut host, 1, 0, 1);
    assert!(!completed);
    assert_eq!(learner.con.played.len(), 1);
    // The strip was blanked at the start and again on the early exit.
    assert_eq!(host.clears, 2);
}
