//! Timers: converting elapsed tick counts into wall-clock sleep times under
//! a changeable tempo, with drift compensation against the previously
//! scheduled wake.
//!
//! All durations and clock readings are integer microsecond counts; callers
//! that sleep or read a real clock convert at the boundary.

use vstd::prelude::*;

use crate::event::{Event, Moment};

verus! {

/// An error raised when a score's time format is not the one a timer
/// understands.
#[derive(Debug, Clone, Copy, PartialEq, Eq)]
pub struct TimeFormatError;

/// The time format of a parsed score header, held as plain values: either
/// tick-based (ticks per beat) or a fixed frame rate (frames per second in
/// hundredths, and subframes per frame).
#[derive(Debug, Clone, Copy, PartialEq, Eq)]
pub enum Timing {
    /// Tick-based timing: the given number of ticks spans one beat.
    Metrical(u16),
    /// Fixed-rate timing: `fps_hundredths / 100` frames per second, each
    /// split into `subframe` subframes.
    Timecode { fps_hundredths: u32, subframe: u8 },
}

/// Addition capped at the largest representable microsecond count.
pub open spec fn cap_add(a: int, b: int) -> int {
    if a + b > u64::MAX {
        u64::MAX as int
    } else {
        a + b
    }
}

/// Subtraction clamped to zero: a sleep can never be negative.
pub open spec fn cap_sub(a: int, b: int) -> int {
    if a >= b {
        a - b
    } else {
        0
    }
}

/// Microseconds that `n` ticks last: `tempo * n / ticks_per_beat`, slowed
/// or sped by the speed modifier (in hundredths), the quotient floored and
/// the result capped at the largest representable count. Zero while no
/// tempo is known, so the system never stalls before one arrives.
pub open spec fn sleep_micros_spec(tempo: int, ticks_per_beat: int, speed_percent: int, n: int) -> int {
    if ticks_per_beat == 0 || speed_percent == 0 {
        0
    } else {
        let q = (tempo * n * 100) / (ticks_per_beat * speed_percent);
        if q > u64::MAX {
            u64::MAX as int
        } else {
            q
        }
    }
}

/// The tempo in force after all tempo events of `events` have been applied,
/// the last one winning; `tempo` if there is none.
pub open spec fn tempo_after(tempo: u32, events: Seq<Event>) -> u32
    decreases events.len(),
{
    if events.len() == 0 {
        tempo
    } else {
        let first = events.first();
        let next = match first {
            Event::Tempo(v) => v,
            _ => tempo,
        };
        tempo_after(next, events.drop_first())
    }
}

/// The tempo in force after a whole timeline's tempo events have been
/// applied, moment after moment, the last one winning.
pub open spec fn tempo_after_timeline(tempo: u32, tl: Seq<Seq<Event>>) -> u32
    decreases tl.len(),
{
    if tl.len() == 0 {
        tempo
    } else {
        tempo_after_timeline(tempo_after(tempo, tl.first()), tl.drop_first())
    }
}

/// A tick-based timer. Every moment of a timeline lasts one tick; a tick
/// lasts `tempo / ticks_per_beat` microseconds under the current tempo.
#[derive(Debug, Clone, Copy, PartialEq, Eq)]
pub struct Ticker {
    /// Ticks per beat, fixed for the life of the ticker.
    pub ticks_per_beat: u16,
    /// Current tempo in microseconds per beat; zero until a tempo event is
    /// seen, which makes every sleep zero.
    pub tempo: u32,
    /// The microsecond instant (on the caller's clock) scheduled for the
    /// last wake; drift correction measures elapsed time against it. Not
    /// part of the musical state.
    pub last_wake_micros: Option<u64>,
    /// Speed modifier in hundredths: 100 plays at the recorded speed, 50 at
    /// half speed. A value of zero makes every sleep zero.
    pub speed_percent: u32,
}

/// Total length in microseconds of a timeline played from the given timer
/// state: every moment lasts one tick at the tempo in force when it starts,
/// and each moment's tempo events take effect for the following moments.
/// The running total is capped like every microsecond count.
pub open spec fn duration_micros_spec(
    ticks_per_beat: int,
    speed_percent: int,
    tempo: u32,
    tl: Seq<Seq<Event>>,
) -> int
    decreases tl.len(),
{
    if tl.len() == 0 {
        0
    } else {
        cap_add(
            sleep_micros_spec(tempo as int, ticks_per_beat, speed_percent, 1),
            duration_micros_spec(
                ticks_per_beat,
                speed_percent,
                tempo_after(tempo, tl.first()),
                tl.drop_first(),
            ),
        )
    }
}

impl Ticker {
    /// Microseconds that `n` ticks last under this ticker's current state.
    pub open spec fn raw_sleep_micros(self, n: int) -> int {
        sleep_micros_spec(
            self.tempo as int,
            self.ticks_per_beat as int,
            self.speed_percent as int,
            n,
        )
    }

    /// A ticker with the given ticks-per-beat and no tempo yet: sleeps are
    /// zero until a tempo change arrives, which is rarely an issue since
    /// scores set their tempo before any non-zero offset event.
    pub fn new(ticks_per_beat: u16) -> (t: Ticker)
        ensures
            t == (Ticker {
                ticks_per_beat,
                tempo: 0u32,
                last_wake_micros: None::<u64>,
                speed_percent: 100u32,
            }),
    {
        Ticker { ticks_per_beat, tempo: 0, last_wake_micros: None, speed_percent: 100 }
    }

    /// A ticker that starts with the provided tempo already in force.
    pub fn with_initial_tempo(ticks_per_beat: u16, tempo: u32) -> (t: Ticker)
        ensures
            t == (Ticker {
                ticks_per_beat,
                tempo,
                last_wake_micros: None::<u64>,
                speed_percent: 100u32,
            }),
    {
        let mut s = Ticker::new(ticks_per_beat);
        s.change_tempo(tempo);
        s
    }

    /// A ticker for a tick-based score header; any other time format is
    /// refused with [`TimeFormatError`].
    pub fn try_from(t: Timing) -> (r: Result<Ticker, TimeFormatError>)
        ensures
            match t {
                Timing::Metrical(n) => r == Ok::<Ticker, TimeFormatError>(
                    Ticker {
                        ticks_per_beat: n,
                        tempo: 0u32,
                        last_wake_micros: None::<u64>,
                        speed_percent: 100u32,
                    },
                ),
                Timing::Timecode { .. } => r is Err,
            },
    {
        match t {
            Timing::Metrical(n) => Ok(Ticker::new(n)),
            Timing::Timecode { .. } => Err(TimeFormatError),
        }
    }

    /// Sets the tempo, in microseconds per beat.
    pub fn change_tempo(&mut self, tempo: u32)
        ensures
            *final(self) == (Ticker { tempo, ..*old(self) }),
    {
        self.tempo = tempo;
    }

    /// Forgets the scheduled wake, so the next sleep runs its full length:
    /// used when playback resumes after a pause, treating the pause as if
    /// time had stood still.
    pub fn reset_baseline(&mut self)
        ensures
            *final(self) == (Ticker { last_wake_micros: None::<u64>, ..*old(self) }),
    {
        self.last_wake_micros = None;
    }

    /// The duration of `n_ticks` ticks, without accounting for when this
    /// ticker last ticked. Useful for computing the length of a score.
    pub fn sleep_duration_without_readjustment(&self, n_ticks: u32) -> (micros: u64)
        ensures
            micros == self.raw_sleep_micros(n_ticks as int),
    {
        if self.ticks_per_beat == 0 || self.speed_percent == 0 {
            return 0;
        }
        let a: u128 = self.tempo as u128;
        let b: u128 = n_ticks as u128;
        let c: u128 = self.ticks_per_beat as u128;
        let d: u128 = self.speed_percent as u128;
        proof {
            assert(a * b <= 0xffff_ffff * 0xffff_ffff) by (nonlinear_arith)
                requires
                    a <= 0xffff_ffff,
                    b <= 0xffff_ffff,
            ;
            assert(c * d <= 0xffff * 0xffff_ffff) by (nonlinear_arith)
                requires
                    c <= 0xffff,
                    d <= 0xffff_ffff,
            ;
            assert(c * d > 0) by (nonlinear_arith)
                requires
                    c > 0,
                    d > 0,
            ;
        }
        let num: u128 = a * b * 100;
        let den: u128 = c * d;
        let q: u128 = num / den;
        if q > u64::MAX as u128 {
            u64::MAX
        } else {
            q as u64
        }
    }

    /// The duration to sleep for `n_ticks` ticks, corrected for drift.
    ///
    /// `now_micros` is the caller's monotonic clock reading. On the first
    /// call the reading becomes the baseline and the full duration is
    /// returned; afterwards the scheduled wake advances by the full
    /// duration, and the returned sleep is the remainder after subtracting
    /// the real time elapsed since the previous scheduled wake, clamped to
    /// zero. Scheduling jitter and time spent waiting on external events
    /// thus shorten the next sleep instead of accumulating.
    pub fn sleep_duration(&mut self, n_ticks: u32, now_micros: u64) -> (micros: u64)
        ensures
            final(self).ticks_per_beat == old(self).ticks_per_beat,
            final(self).tempo == old(self).tempo,
            final(self).speed_percent == old(self).speed_percent,
            old(self).last_wake_micros is None ==> {
                &&& final(self).last_wake_micros == Some(now_micros)
                &&& micros == old(self).raw_sleep_micros(n_ticks as int)
            },
            old(self).last_wake_micros matches Some(lw) ==> {
                &&& final(self).last_wake_micros == Some(
                    cap_add(lw as int, old(self).raw_sleep_micros(n_ticks as int)) as u64,
                )
                &&& micros == cap_sub(
                    old(self).raw_sleep_micros(n_ticks as int),
                    cap_sub(now_micros as int, lw as int),
                )
            },
    {
        let t = self.sleep_duration_without_readjustment(n_ticks);
        match self.last_wake_micros {
            Some(lw) => {
                let target = if lw <= u64::MAX - t {
                    lw + t
                } else {
                    u64::MAX
                };
                self.last_wake_micros = Some(target);
                let elapsed = if now_micros > lw {
                    now_micros - lw
                } else {
                    0
                };
                if t > elapsed {
                    t - elapsed
                } else {
                    0
                }
            },
            None => {
                self.last_wake_micros = Some(now_micros);
                t
            },
        }
    }

    /// The drift-corrected sleep with a measured processing time further
    /// subtracted: time a blocking wait consumed counts against the next
    /// rest, so a learner's real-world delay does not accumulate as extra
    /// silence.
    pub fn sleep_duration_with_adjustment(
        &mut self,
        n_ticks: u32,
        process_micros: u64,
        now_micros: u64,
    ) -> (micros: u64)
        ensures
            final(self).ticks_per_beat == old(self).ticks_per_beat,
            final(self).tempo == old(self).tempo,
            final(self).speed_percent == old(self).speed_percent,
            old(self).last_wake_micros is None ==> {
                &&& final(self).last_wake_micros == Some(now_micros)
                &&& micros == cap_sub(
                    old(self).raw_sleep_micros(n_ticks as int),
                    process_micros as int,
                )
            },
            old(self).last_wake_micros matches Some(lw) ==> {
                &&& final(self).last_wake_micros == Some(
                    cap_add(lw as int, old(self).raw_sleep_micros(n_ticks as int)) as u64,
                )
                &&& micros == cap_sub(
                    cap_sub(
                        old(self).raw_sleep_micros(n_ticks as int),
                        cap_sub(now_micros as int, lw as int),
                    ),
                    process_micros as int,
                )
            },
    {
        let d = self.sleep_duration(n_ticks, now_micros);
        if d > process_micros {
            d - process_micros
        } else {
            0
        }
    }

    /// The length of a slice of moments played from this ticker's state.
    ///
    /// Applies the tempo events it encounters, so `self`'s tempo is mutated
    /// by design — on return it is the tempo after the slice's last tempo
    /// event: callers computing a whole score's duration use a disposable
    /// ticker.
    pub fn duration(&mut self, moments: &[Moment]) -> (micros: u64)
        ensures
            micros == duration_micros_spec(
                old(self).ticks_per_beat as int,
                old(self).speed_percent as int,
                old(self).tempo,
                crate::sheet::moments_view(moments@),
            ),
            final(self).tempo == tempo_after_timeline(
                old(self).tempo,
                crate::sheet::moments_view(moments@),
            ),
            final(self).ticks_per_beat == old(self).ticks_per_beat,
            final(self).speed_percent == old(self).speed_percent,
            final(self).last_wake_micros == old(self).last_wake_micros,
    {
        let ghost tl = crate::sheet::moments_view(moments@);
        let ghost tpb = self.ticks_per_beat as int;
        let ghost sp = self.speed_percent as int;
        let mut counter: u64 = 0;
        let mut i: usize = 0;
        proof {
            assert(tl.skip(0) =~= tl);
            lemma_duration_spec_bounds(tpb, sp, self.tempo, tl);
        }
        while i < moments.len()
            invariant
                i <= moments@.len(),
                tl == crate::sheet::moments_view(moments@),
                self.ticks_per_beat as int == tpb,
                self.speed_percent as int == sp,
                self.last_wake_micros == old(self).last_wake_micros,
                cap_add(
                    counter as int,
                    duration_micros_spec(tpb, sp, self.tempo, tl.skip(i as int)),
                ) == duration_micros_spec(tpb, sp, old(self).tempo, tl),
                tempo_after_timeline(self.tempo, tl.skip(i as int)) == tempo_after_timeline(
                    old(self).tempo,
                    tl,
                ),
            decreases moments@.len() - i,
        {
            proof {
                assert(tl.skip(i as int).first() == tl[i as int]);
                assert(tl.skip(i as int).drop_first() =~= tl.skip(i + 1));
            }
            let step = self.sleep_duration_without_readjustment(1);
            let ghost tempo_before = self.tempo;
            let moment = &moments[i];
            proof {
                assert(tl[i as int] == moment.events@);
                assert(moment.events@.skip(0) =~= moment.events@);
            }
            let mut j: usize = 0;
            while j < moment.events.len()
                invariant
                    j <= moment.events@.len(),
                    self.ticks_per_beat as int == tpb,
                    self.speed_percent as int == sp,
                    self.last_wake_micros == old(self).last_wake_micros,
                    tempo_after(self.tempo, moment.events@.skip(j as int)) == tempo_after(
                        tempo_before,
                        moment.events@,
                    ),
                decreases moment.events@.len() - j,
            {
                proof {
                    assert(moment.events@.skip(j as int).first() == moment.events@[j as int]);
                    assert(moment.events@.skip(j as int).drop_first() =~= moment.events@.skip(
                        j + 1,
                    ));
                }
                match moment.events[j] {
                    Event::Tempo(val) => {
                        self.change_tempo(val);
                    },
                    _ => {},
                }
                j = j + 1;
            }
            proof {
                assert(moment.events@.skip(moment.events@.len() as int)
                    =~= Seq::<Event>::empty());
                assert(self.tempo == tempo_after(tempo_before, tl[i as int]));
                lemma_duration_spec_bounds(tpb, sp, self.tempo, tl.skip(i + 1));
                lemma_cap_add_assoc(
                    counter as int,
                    step as int,
                    duration_micros_spec(tpb, sp, self.tempo, tl.skip(i + 1)),
                );
            }
            counter = if counter <= u64::MAX - step {
                counter + step
            } else {
                u64::MAX
            };
            i = i + 1;
        }
        proof {
            assert(tl.skip(moments@.len() as int) =~= Seq::<Seq<Event>>::empty());
        }
        counter
    }
}

/// A sleep computed by the formula is a representable microsecond count.
pub proof fn lemma_sleep_micros_bounds(tempo: int, ticks_per_beat: int, speed_percent: int, n: int)
    requires
        tempo >= 0,
        n >= 0,
        ticks_per_beat >= 0,
        speed_percent >= 0,
    ensures
        0 <= sleep_micros_spec(tempo, ticks_per_beat, speed_percent, n) <= u64::MAX,
{
    if ticks_per_beat != 0 && speed_percent != 0 {
        assert(tempo * n * 100 >= 0) by (nonlinear_arith)
            requires
                tempo >= 0,
                n >= 0,
        ;
        assert(ticks_per_beat * speed_percent > 0) by (nonlinear_arith)
            requires
                ticks_per_beat > 0,
                speed_percent > 0,
        ;
        vstd::arithmetic::div_mod::lemma_div_pos_is_pos(
            tempo * n * 100,
            ticks_per_beat * speed_percent,
        );
    }
}

/// The length of any timeline is a representable microsecond count.
pub proof fn lemma_duration_spec_bounds(
    ticks_per_beat: int,
    speed_percent: int,
    tempo: u32,
    tl: Seq<Seq<Event>>,
)
    requires
        ticks_per_beat >= 0,
        speed_percent >= 0,
    ensures
        0 <= duration_micros_spec(ticks_per_beat, speed_percent, tempo, tl) <= u64::MAX,
    decreases tl.len(),
{
    if tl.len() > 0 {
        lemma_sleep_micros_bounds(tempo as int, ticks_per_beat, speed_percent, 1);
        lemma_duration_spec_bounds(
            ticks_per_beat,
            speed_percent,
            tempo_after(tempo, tl.first()),
            tl.drop_first(),
        );
    }
}

/// Capped addition of non-negative counts is associative.
proof fn lemma_cap_add_assoc(a: int, b: int, c: int)
    requires
        a >= 0,
        b >= 0,
        c >= 0,
    ensures
        cap_add(cap_add(a, b), c) == cap_add(a, cap_add(b, c)),
{
}

/// Events without a tempo change leave the tempo alone.
proof fn lemma_tempo_after_no_tempo(tempo: u32, events: Seq<Event>)
    requires
        forall|j: int| 0 <= j < events.len() ==> !((#[trigger] events[j]) is Tempo),
    ensures
        tempo_after(tempo, events) == tempo,
    decreases events.len(),
{
    if events.len() > 0 {
        assert(forall|j: int|
            0 <= j < events.drop_first().len() ==> events.drop_first()[j] == events[j + 1]);
        lemma_tempo_after_no_tempo(tempo, events.drop_first());
    }
}

/// Law: a timeline without tempo events, played at a fixed timer state,
/// lasts its tick count times the length of one tick, the product capped
/// at the largest representable microsecond count. With the timeline from
/// a parallel merge this is the merged tracks' maximum span times the
/// tick length; from a sequential merge, the sum of their spans times it.
pub proof fn lemma_duration_constant_tempo(
    ticks_per_beat: int,
    speed_percent: int,
    tempo: u32,
    tl: Seq<Seq<Event>>,
)
    requires
        ticks_per_beat >= 0,
        speed_percent >= 0,
        forall|i: int, j: int|
            0 <= i < tl.len() && 0 <= j < tl[i].len() ==> !((#[trigger] tl[i][j]) is Tempo),
    ensures
        ({
            let tick = sleep_micros_spec(tempo as int, ticks_per_beat, speed_percent, 1);
            duration_micros_spec(ticks_per_beat, speed_percent, tempo, tl) == if tl.len() * tick
                > u64::MAX {
                u64::MAX as int
            } else {
                tl.len() * tick
            }
        }),
    decreases tl.len(),
{
    let tick = sleep_micros_spec(tempo as int, ticks_per_beat, speed_percent, 1);
    lemma_sleep_micros_bounds(tempo as int, ticks_per_beat, speed_percent, 1);
    if tl.len() > 0 {
        assert(forall|j: int| 0 <= j < tl.first().len() ==> !((#[trigger] tl.first()[j]) is Tempo));
        lemma_tempo_after_no_tempo(tempo, tl.first());
        let rest = tl.drop_first();
        assert(forall|i: int, j: int|
            0 <= i < rest.len() && 0 <= j < rest[i].len() ==> rest[i] == tl[i + 1] && !((
            #[trigger] rest[i][j]) is Tempo));
        lemma_duration_constant_tempo(ticks_per_beat, speed_percent, tempo, rest);
        let n = rest.len() as int;
        assert((n + 1) * tick == n * tick + tick) by (nonlinear_arith);
        assert(n * tick >= 0) by (nonlinear_arith)
            requires
                n >= 0,
                tick >= 0,
        ;
    }
}

/// Law: for any tempo `T` and ticks-per-beat `P`, a ticker freshly set to
/// that tempo sleeps exactly `floor(T * n / P)` microseconds for `n`
/// ticks, and a ticker that has seen no tempo event yet sleeps zero.
pub proof fn lemma_fresh_ticker_sleep(ticks_per_beat: u16, tempo: u32, n: u32)
    requires
        ticks_per_beat > 0,
    ensures
        (Ticker {
            ticks_per_beat,
            tempo,
            last_wake_micros: None::<u64>,
            speed_percent: 100u32,
        }).raw_sleep_micros(n as int) == (tempo * n) / (ticks_per_beat as int),
        (Ticker {
            ticks_per_beat,
            tempo: 0u32,
            last_wake_micros: None::<u64>,
            speed_percent: 100u32,
        }).raw_sleep_micros(n as int) == 0,
{
    let t = tempo as int;
    let p = ticks_per_beat as int;
    let nn = n as int;
    assert(t * nn <= 0xffff_ffff * 0xffff_ffff && t * nn >= 0 && 0 * nn == 0) by (nonlinear_arith)
        requires
            0 <= t <= 0xffff_ffff,
            0 <= nn <= 0xffff_ffff,
    ;
    vstd::arithmetic::div_mod::lemma_div_multiples_vanish_quotient(100, t * nn, p);
    vstd::arithmetic::div_mod::lemma_div_nonincreasing(t * nn, p);
    vstd::arithmetic::div_mod::lemma_div_multiples_vanish_quotient(100, 0, p);
}

/// A timer with a fixed tick length: the wrapped value is the length of one
/// tick in microseconds. Corresponds to fixed-rate score headers; the tempo
/// never changes.
#[derive(Debug, Clone, Copy, PartialEq, Eq)]
pub struct FixedTempo(pub u64);

impl FixedTempo {
    /// A fixed-tempo timer for a fixed-rate score header, its tick length
    /// `100_000_000 / (fps_hundredths * subframe)` microseconds; a
    /// tick-based header is refused with [`TimeFormatError`].
    pub fn try_from(t: Timing) -> (r: Result<FixedTempo, TimeFormatError>)
        requires
            t matches Timing::Timecode { fps_hundredths, subframe } ==> fps_hundredths > 0
                && subframe > 0,
        ensures
            match t {
                Timing::Timecode { fps_hundredths, subframe } => r == Ok::<
                    FixedTempo,
                    TimeFormatError,
                >(FixedTempo((100_000_000int / (fps_hundredths * subframe)) as u64)),
                Timing::Metrical(_) => r is Err,
            },
    {
        match t {
            Timing::Timecode { fps_hundredths, subframe } => {
                let f: u64 = fps_hundredths as u64;
                let s: u64 = subframe as u64;
                proof {
                    assert(f * s <= 0xffff_ffff * 0xff && f * s > 0) by (nonlinear_arith)
                        requires
                            0 < f <= 0xffff_ffff,
                            0 < s <= 0xff,
                    ;
                }
                let micros = 100_000_000u64 / (f * s);
                Ok(FixedTempo(micros))
            },
            Timing::Metrical(_) => Err(TimeFormatError),
        }
    }

    /// The duration of `n_ticks` ticks: the fixed tick length times the
    /// count, capped at the largest representable microsecond count.
    pub fn sleep_duration(&self, n_ticks: u32) -> (micros: u64)
        ensures
            micros as int == if self.0 * n_ticks > u64::MAX {
                u64::MAX as int
            } else {
                self.0 * n_ticks
            },
    {
        let a: u128 = self.0 as u128;
        let b: u128 = n_ticks as u128;
        proof {
            assert(a * b <= 0xffff_ffff_ffff_ffff * 0xffff_ffff) by (nonlinear_arith)
                requires
                    a <= 0xffff_ffff_ffff_ffff,
                    b <= 0xffff_ffff,
            ;
        }
        let p: u128 = a * b;
        if p > u64::MAX as u128 {
            u64::MAX
        } else {
            p as u64
        }
    }

    /// The length of a slice of moments at the fixed tick length: one tick
    /// per moment, so the fixed length times the number of moments, capped
    /// at the largest representable microsecond count. A fixed tempo
    /// ignores the slice's tempo events.
    pub fn duration(&self, moments: &[Moment]) -> (micros: u64)
        ensures
            micros as int == if self.0 * moments@.len() > u64::MAX {
                u64::MAX as int
            } else {
                self.0 * moments@.len()
            },
    {
        let a: u128 = self.0 as u128;
        let b: u128 = moments.len() as u128;
        proof {
            assert(a * b <= 0xffff_ffff_ffff_ffff * 0xffff_ffff_ffff_ffff) by (nonlinear_arith)
                requires
                    a <= 0xffff_ffff_ffff_ffff,
                    b <= 0xffff_ffff_ffff_ffff,
            ;
        }
        let p: u128 = a * b;
        if p > u64::MAX as u128 {
            u64::MAX
        } else {
            p as u64
        }
    }

    /// A fixed tempo ignores tempo change events.
    pub fn change_tempo(&mut self, _tempo: u32)
        ensures
            *final(self) == *old(self),
    {
    }
}

} // verus!
