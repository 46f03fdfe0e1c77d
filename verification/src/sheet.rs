//! The timeline: an ordered sequence of [`Moment`]s, one per MIDI tick,
//! built by merging raw event tracks sequentially or in parallel.

use vstd::prelude::*;

use crate::event::{Event, Moment, TrackEntry, is_midi};

verus! {

/// The view of a vector of moments: each moment as its event sequence.
pub open spec fn moments_view(v: Seq<Moment>) -> Seq<Seq<Event>> {
    v.map_values(|m: Moment| m@)
}

/// Total of the tick delays of a raw track: the absolute tick of its last
/// entry.
pub open spec fn sum_deltas(track: Seq<TrackEntry>) -> int
    decreases track.len(),
{
    if track.len() == 0 {
        0
    } else {
        sum_deltas(track.drop_last()) + track.last().delta
    }
}

/// Length in ticks of the dense timeline of one raw track: one moment for
/// every tick from zero through the tick of the last entry. An empty track
/// spans no ticks at all.
pub open spec fn track_span(track: Seq<TrackEntry>) -> int {
    if track.len() == 0 {
        0
    } else {
        sum_deltas(track) + 1
    }
}

/// Extends a timeline with empty moments until it has at least `n` of them.
pub open spec fn pad_timeline(tl: Seq<Seq<Event>>, n: int) -> Seq<Seq<Event>> {
    if tl.len() >= n {
        tl
    } else {
        Seq::new(n as nat, |i: int| if i < tl.len() { tl[i] } else { Seq::<Event>::empty() })
    }
}

/// The dense timeline of one raw track: entry after entry, the timeline is
/// padded out to the entry's absolute tick and the entry's event, if it has
/// one, is appended to the moment standing there.
pub open spec fn single_spec(track: Seq<TrackEntry>) -> Seq<Seq<Event>>
    decreases track.len(),
{
    if track.len() == 0 {
        Seq::empty()
    } else {
        let prev = single_spec(track.drop_last());
        let pos = sum_deltas(track);
        let padded = pad_timeline(prev, pos + 1);
        match track.last().event {
            Some(e) => padded.update(pos, padded[pos].push(e)),
            None => padded,
        }
    }
}

proof fn lemma_view_index(v: Seq<Moment>, j: int)
    requires
        0 <= j < v.len(),
    ensures
        moments_view(v)[j] == v[j]@,
{
}

proof fn lemma_view_push(v: Seq<Moment>, m: Moment)
    ensures
        moments_view(v.push(m)) == moments_view(v).push(m@),
{
    assert(moments_view(v.push(m)) =~= moments_view(v).push(m@));
}

proof fn lemma_view_take(v: Seq<Moment>, k: int)
    requires
        0 <= k <= v.len(),
    ensures
        moments_view(v.subrange(0, k)) == moments_view(v).subrange(0, k),
{
    assert(moments_view(v.subrange(0, k)) =~= moments_view(v).subrange(0, k));
}

pub proof fn lemma_sum_deltas_nonneg(track: Seq<TrackEntry>)
    ensures
        sum_deltas(track) >= 0,
    decreases track.len(),
{
    if track.len() > 0 {
        lemma_sum_deltas_nonneg(track.drop_last());
    }
}

/// The tick of any prefix's last entry is no later than the whole track's.
pub proof fn lemma_sum_deltas_prefix_le(track: Seq<TrackEntry>, i: int)
    requires
        0 <= i <= track.len(),
    ensures
        sum_deltas(track.take(i)) <= sum_deltas(track),
    decreases track.len() - i,
{
    if i < track.len() {
        lemma_sum_deltas_prefix_le(track, i + 1);
        assert(track.take(i + 1).drop_last() =~= track.take(i));
        assert(sum_deltas(track.take(i)) <= sum_deltas(track.take(i + 1)));
    } else {
        assert(track.take(i) =~= track);
    }
}

/// A track's dense timeline spans exactly `track_span` ticks.
pub proof fn lemma_single_spec_len(track: Seq<TrackEntry>)
    ensures
        single_spec(track).len() == track_span(track),
    decreases track.len(),
{
    if track.len() > 0 {
        lemma_single_spec_len(track.drop_last());
        lemma_sum_deltas_nonneg(track.drop_last());
        let prev = single_spec(track.drop_last());
        let pos = sum_deltas(track);
        assert(prev.len() <= pos + 1);
        assert(pad_timeline(prev, pos + 1).len() == pos + 1);
    }
}

/// The view of a vector of raw tracks: each track as its entry sequence.
pub open spec fn tracks_view(v: Seq<Vec<TrackEntry>>) -> Seq<Seq<TrackEntry>> {
    v.map_values(|t: Vec<TrackEntry>| t@)
}

/// Combined length in ticks of the tracks played one after the other.
pub open spec fn tracks_total_span(tracks: Seq<Seq<TrackEntry>>) -> int
    decreases tracks.len(),
{
    if tracks.len() == 0 {
        0
    } else {
        tracks_total_span(tracks.drop_last()) + track_span(tracks.last())
    }
}

/// Length in ticks of the longest of the tracks.
pub open spec fn tracks_max_span(tracks: Seq<Seq<TrackEntry>>) -> int
    decreases tracks.len(),
{
    if tracks.len() == 0 {
        0
    } else {
        let rest = tracks_max_span(tracks.drop_last());
        if track_span(tracks.last()) >= rest {
            track_span(tracks.last())
        } else {
            rest
        }
    }
}

/// The timeline of tracks played one after the other: their dense
/// timelines, concatenated.
pub open spec fn sequential_spec(tracks: Seq<Seq<TrackEntry>>) -> Seq<Seq<Event>>
    decreases tracks.len(),
{
    if tracks.len() == 0 {
        Seq::empty()
    } else {
        sequential_spec(tracks.drop_last()) + single_spec(tracks.last())
    }
}

/// The moment of a timeline at tick `i`, reading past the end as empty.
pub open spec fn timeline_get(tl: Seq<Seq<Event>>, i: int) -> Seq<Event> {
    if 0 <= i < tl.len() {
        tl[i]
    } else {
        Seq::empty()
    }
}

/// Two timelines interleaved: at every tick the first timeline's events,
/// then the second's; the shorter timeline reads as empty moments.
pub open spec fn merge_timelines(a: Seq<Seq<Event>>, b: Seq<Seq<Event>>) -> Seq<Seq<Event>> {
    Seq::new(
        if a.len() >= b.len() {
            a.len()
        } else {
            b.len()
        },
        |i: int| timeline_get(a, i) + timeline_get(b, i),
    )
}

/// The timeline of tracks played simultaneously: their dense timelines
/// interleaved tick by tick, earlier tracks' events first.
pub open spec fn parallel_spec(tracks: Seq<Seq<TrackEntry>>) -> Seq<Seq<Event>>
    decreases tracks.len(),
{
    if tracks.len() == 0 {
        Seq::empty()
    } else {
        merge_timelines(parallel_spec(tracks.drop_last()), single_spec(tracks.last()))
    }
}

/// A moment's events with every channel message removed.
pub open spec fn non_midi(events: Seq<Event>) -> Seq<Event> {
    events.filter(|e: Event| !is_midi(e))
}

/// A timeline with every channel message removed from every moment.
pub open spec fn extract_spec(tl: Seq<Seq<Event>>) -> Seq<Seq<Event>> {
    Seq::new(tl.len(), |i: int| non_midi(tl[i]))
}

/// A timeline absorbing a donor of equal length: at every tick the donor's
/// non-channel events are appended, its channel messages discarded.
pub open spec fn merge_spec(a: Seq<Seq<Event>>, b: Seq<Seq<Event>>) -> Seq<Seq<Event>> {
    Seq::new(a.len(), |i: int| a[i] + non_midi(b[i]))
}

/// Every track spans a non-negative number of ticks.
pub proof fn lemma_track_span_nonneg(track: Seq<TrackEntry>)
    ensures
        track_span(track) >= 0,
{
    if track.len() > 0 {
        lemma_sum_deltas_nonneg(track);
    }
}

pub proof fn lemma_tracks_total_span_nonneg(tracks: Seq<Seq<TrackEntry>>)
    ensures
        tracks_total_span(tracks) >= 0,
    decreases tracks.len(),
{
    if tracks.len() > 0 {
        lemma_tracks_total_span_nonneg(tracks.drop_last());
        lemma_track_span_nonneg(tracks.last());
    }
}

/// The combined span of a prefix of the tracks stays within the whole.
pub proof fn lemma_tracks_total_span_prefix_le(tracks: Seq<Seq<TrackEntry>>, i: int)
    requires
        0 <= i <= tracks.len(),
    ensures
        tracks_total_span(tracks.take(i)) <= tracks_total_span(tracks),
    decreases tracks.len() - i,
{
    if i < tracks.len() {
        lemma_tracks_total_span_prefix_le(tracks, i + 1);
        assert(tracks.take(i + 1).drop_last() =~= tracks.take(i));
        lemma_track_span_nonneg(tracks[i]);
    } else {
        assert(tracks.take(i) =~= tracks);
    }
}

/// No single track spans more ticks than the longest does.
pub proof fn lemma_tracks_max_span_bound(tracks: Seq<Seq<TrackEntry>>, i: int)
    requires
        0 <= i < tracks.len(),
    ensures
        track_span(tracks[i]) <= tracks_max_span(tracks),
        tracks_max_span(tracks.drop_last()) <= tracks_max_span(tracks),
    decreases tracks.len(),
{
    if i < tracks.len() - 1 {
        lemma_tracks_max_span_bound(tracks.drop_last(), i);
        assert(tracks.drop_last()[i] == tracks[i]);
    }
}

pub proof fn lemma_tracks_max_span_nonneg(tracks: Seq<Seq<TrackEntry>>)
    ensures
        tracks_max_span(tracks) >= 0,
    decreases tracks.len(),
{
    if tracks.len() > 0 {
        lemma_tracks_max_span_nonneg(tracks.drop_last());
        lemma_track_span_nonneg(tracks.last());
    }
}

/// The full merged timeline of a score: one [`Moment`] per tick. The
/// moment at index `t` holds every event that falls `t` ticks after the
/// start; its length is the score's total duration in ticks.
#[derive(Debug, PartialEq, Eq)]
pub struct Sheet {
    /// The timeline, one moment per tick.
    pub moments: Vec<Moment>,
}

impl View for Sheet {
    type V = Seq<Seq<Event>>;

    open spec fn view(&self) -> Seq<Seq<Event>> {
        moments_view(self.moments@)
    }
}

impl Sheet {
    /// The number of ticks the sheet spans.
    pub fn len(&self) -> (n: usize)
        ensures
            n == self@.len(),
    {
        self.moments.len()
    }

    /// The dense timeline of a single raw track.
    pub fn single(track: &Vec<TrackEntry>) -> (sheet: Sheet)
        requires
            track_span(track@) <= usize::MAX,
        ensures
            sheet@ == single_spec(track@),
            sheet@.len() == track_span(track@),
    {
        let ghost whole = track@;
        let mut moments: Vec<Moment> = Vec::new();
        let mut pos: usize = 0;
        let mut i: usize = 0;
        while i < track.len()
            invariant
                i <= track.len(),
                track@ == whole,
                track_span(whole) <= usize::MAX,
                pos == sum_deltas(whole.take(i as int)),
                moments@.len() == track_span(whole.take(i as int)),
                moments_view(moments@) == single_spec(whole.take(i as int)),
            decreases track.len() - i,
        {
            let entry = track[i];
            proof {
                assert(whole.take(i + 1).drop_last() =~= whole.take(i as int));
                assert(whole.take(i + 1).last() == whole[i as int]);
                lemma_sum_deltas_nonneg(whole.take(i as int));
                lemma_sum_deltas_prefix_le(whole, i + 1);
                if whole.len() > 0 {
                    lemma_sum_deltas_nonneg(whole);
                }
                assert(sum_deltas(whole.take(i + 1)) + 1 <= track_span(whole));
            }
            pos = pos + entry.delta as usize;
            proof {
                assert(pos == sum_deltas(whole.take(i + 1)));
            }
            let ghost prev = single_spec(whole.take(i as int));
            let ghost padded = pad_timeline(prev, pos + 1);
            proof {
                assert(prev.len() == moments@.len());
            }
            let mut target: Moment;
            if moments.len() == pos + 1 {
                proof {
                    assert(padded == prev);
                }
                let ghost before = moments@;
                target = moments.pop().unwrap();
                proof {
                    lemma_view_index(before, pos as int);
                    assert(target@ == padded[pos as int]);
                    lemma_view_take(before, pos as int);
                    assert(moments_view(moments@) == prev.subrange(0, pos as int));
                    assert(prev.subrange(0, pos as int) =~= padded.take(pos as int));
                }
            } else {
                proof {
                    assert(moments@.len() <= pos);
                }
                while moments.len() < pos
                    invariant
                        moments@.len() <= pos,
                        moments_view(moments@) == pad_timeline(prev, moments@.len() as int),
                        prev.len() <= moments@.len(),
                    decreases pos - moments.len(),
                {
                    let ghost before = moments@;
                    moments.push(Moment::default());
                    proof {
                        lemma_view_push(before, moments@.last());
                        assert(moments_view(moments@) =~= pad_timeline(
                            prev,
                            moments@.len() as int,
                        ));
                    }
                }
                target = Moment::default();
                proof {
                    assert(moments_view(moments@) =~= padded.take(pos as int));
                    assert(target@ == padded[pos as int]);
                }
            }
            if let Some(e) = entry.event {
                target.push(e);
            }
            let ghost base = moments@;
            moments.push(target);
            proof {
                lemma_view_push(base, target);
                match whole[i as int].event {
                    Some(e) => {
                        assert(target@ == padded[pos as int].push(e));
                        assert(padded.take(pos as int).push(target@) =~= padded.update(
                            pos as int,
                            padded[pos as int].push(e),
                        ));
                    },
                    None => {
                        assert(padded.take(pos as int).push(target@) =~= padded);
                    },
                }
                assert(moments_view(moments@) == single_spec(whole.take(i + 1)));
            }
            i = i + 1;
        }
        proof {
            assert(whole.take(track@.len() as int) =~= whole);
        }
        Sheet { moments }
    }

    /// The timeline of the tracks concatenated: each track's ticks are
    /// re-based to follow the previous track's last tick. The result spans
    /// the sum of the tracks' spans.
    pub fn sequential(tracks: &Vec<Vec<TrackEntry>>) -> (sheet: Sheet)
        requires
            tracks_total_span(tracks_view(tracks@)) <= usize::MAX,
        ensures
            sheet@ == sequential_spec(tracks_view(tracks@)),
            sheet@.len() == tracks_total_span(tracks_view(tracks@)),
    {
        let ghost tv = tracks_view(tracks@);
        let mut moments: Vec<Moment> = Vec::new();
        let mut i: usize = 0;
        while i < tracks.len()
            invariant
                i <= tracks.len(),
                tv == tracks_view(tracks@),
                tracks_total_span(tv) <= usize::MAX,
                moments@.len() == tracks_total_span(tv.take(i as int)),
                moments_view(moments@) == sequential_spec(tv.take(i as int)),
            decreases tracks.len() - i,
        {
            proof {
                assert(tv.take(i + 1).drop_last() =~= tv.take(i as int));
                assert(tv.take(i + 1).last() == tracks@[i as int]@);
                lemma_tracks_total_span_prefix_le(tv, i + 1);
                lemma_tracks_total_span_nonneg(tv.take(i as int));
                lemma_track_span_nonneg(tracks@[i as int]@);
            }
            let mut sub = Sheet::single(&tracks[i]);
            let ghost base = moments@;
            let ghost extra = sub.moments@;
            moments.append(&mut sub.moments);
            proof {
                assert(moments@ == base + extra);
                assert(moments_view(base + extra) =~= moments_view(base) + moments_view(extra));
                assert(moments_view(moments@) == sequential_spec(tv.take(i + 1)));
            }
            i = i + 1;
        }
        proof {
            assert(tv.take(tracks@.len() as int) =~= tv);
        }
        Sheet { moments }
    }

    /// Interleaves two timelines tick by tick, `a`'s events before `b`'s,
    /// the shorter one read as empty moments.
    fn zip_merge(a: Sheet, b: Sheet) -> (out: Sheet)
        ensures
            out@ == merge_timelines(a@, b@),
    {
        let ghost va = a@;
        let ghost vb = b@;
        let mut av = a.moments;
        let mut bv = b.moments;
        let ghost ga = av@;
        let ghost gb = bv@;
        let n: usize = if av.len() >= bv.len() {
            av.len()
        } else {
            bv.len()
        };
        proof {
            assert(ga.take(ga.len() as int) =~= ga);
            assert(gb.take(gb.len() as int) =~= gb);
        }
        let mut rev: Vec<Moment> = Vec::new();
        let mut i: usize = n;
        while i > 0
            invariant
                i <= n,
                n == if va.len() >= vb.len() { va.len() } else { vb.len() },
                va == moments_view(ga),
                vb == moments_view(gb),
                av@ == ga.take(if ga.len() <= i { ga.len() as int } else { i as int }),
                bv@ == gb.take(if gb.len() <= i { gb.len() as int } else { i as int }),
                rev@.len() == n - i,
                forall|k: int| #![auto]
                    0 <= k < rev@.len() ==> rev@[k]@ == timeline_get(va, n - 1 - k) + timeline_get(
                        vb,
                        n - 1 - k,
                    ),
            decreases i,
        {
            i = i - 1;
            let ma: Moment;
            if av.len() == i + 1 {
                let ghost before = av@;
                ma = av.pop().unwrap();
                proof {
                    lemma_view_index(ga, i as int);
                    assert(before[i as int] == ga[i as int]);
                    assert(av@ =~= ga.take(if ga.len() <= i { ga.len() as int } else { i as int }));
                    assert(ma@ == timeline_get(va, i as int));
                }
            } else {
                ma = Moment::default();
                proof {
                    assert(av@.len() != i + 1);
                    assert(ga.len() <= i);
                    assert(ma@ == timeline_get(va, i as int));
                }
            }
            let mb: Moment;
            if bv.len() == i + 1 {
                let ghost before = bv@;
                mb = bv.pop().unwrap();
                proof {
                    lemma_view_index(gb, i as int);
                    assert(before[i as int] == gb[i as int]);
                    assert(bv@ =~= gb.take(if gb.len() <= i { gb.len() as int } else { i as int }));
                    assert(mb@ == timeline_get(vb, i as int));
                }
            } else {
                mb = Moment::default();
                proof {
                    assert(gb.len() <= i);
                    assert(mb@ == timeline_get(vb, i as int));
                }
            }
            let mut m = ma;
            m.merge(mb);
            rev.push(m);
        }
        let ghost merged = merge_timelines(va, vb);
        let mut out_moments: Vec<Moment> = Vec::new();
        while rev.len() > 0
            invariant
                out_moments@.len() + rev@.len() == n,
                merged == merge_timelines(va, vb),
                merged.len() == n,
                forall|k: int| #![auto]
                    0 <= k < rev@.len() ==> rev@[k]@ == timeline_get(va, n - 1 - k) + timeline_get(
                        vb,
                        n - 1 - k,
                    ),
                forall|j: int| #![auto]
                    0 <= j < out_moments@.len() ==> out_moments@[j]@ == merged[j],
            decreases rev.len(),
        {
            let m = rev.pop().unwrap();
            proof {
                assert(m@ == timeline_get(va, out_moments@.len() as int) + timeline_get(
                    vb,
                    out_moments@.len() as int,
                ));
                assert(m@ == merged[out_moments@.len() as int]);
            }
            out_moments.push(m);
        }
        proof {
            assert(moments_view(out_moments@) =~= merged);
        }
        Sheet { moments: out_moments }
    }

    /// The timeline of the tracks played simultaneously: moments at equal
    /// tick offsets are interleaved, earlier tracks' events first, shorter
    /// tracks padded with empty moments. The result spans as many ticks as
    /// the longest track.
    pub fn parallel(tracks: &Vec<Vec<TrackEntry>>) -> (sheet: Sheet)
        requires
            tracks_max_span(tracks_view(tracks@)) <= usize::MAX,
        ensures
            sheet@ == parallel_spec(tracks_view(tracks@)),
            sheet@.len() == tracks_max_span(tracks_view(tracks@)),
    {
        let ghost tv = tracks_view(tracks@);
        let mut sheet = Sheet { moments: Vec::new() };
        let mut i: usize = 0;
        while i < tracks.len()
            invariant
                i <= tracks.len(),
                tv == tracks_view(tracks@),
                tracks_max_span(tv) <= usize::MAX,
                sheet@ == parallel_spec(tv.take(i as int)),
                sheet@.len() == tracks_max_span(tv.take(i as int)),
            decreases tracks.len() - i,
        {
            proof {
                assert(tv.take(i + 1).drop_last() =~= tv.take(i as int));
                assert(tv.take(i + 1).last() == tracks@[i as int]@);
                lemma_tracks_max_span_bound(tv, i as int);
                lemma_single_spec_len(tracks@[i as int]@);
                lemma_track_span_nonneg(tracks@[i as int]@);
                lemma_tracks_max_span_nonneg(tv.take(i as int));
            }
            let sub = Sheet::single(&tracks[i]);
            sheet = Sheet::zip_merge(sheet, sub);
            i = i + 1;
        }
        proof {
            assert(tv.take(tracks@.len() as int) =~= tv);
        }
        sheet
    }

    /// A copy of the sheet with every channel message removed from every
    /// moment; a moment left without events becomes the canonical empty
    /// moment. Tempo events and the sheet's length are kept.
    pub fn extract_non_midi(&self) -> (out: Sheet)
        ensures
            out@ == extract_spec(self@),
            out@.len() == self@.len(),
    {
        let mut out_moments: Vec<Moment> = Vec::new();
        let mut i: usize = 0;
        while i < self.moments.len()
            invariant
                i <= self.moments@.len(),
                out_moments@.len() == i,
                forall|k: int| #![auto]
                    0 <= k < i ==> out_moments@[k]@ == non_midi(self.moments@[k]@),
            decreases self.moments@.len() - i,
        {
            let m = &self.moments[i];
            let mut kept: Vec<Event> = Vec::new();
            proof {
                reveal(Seq::filter);
                assert(kept@ == non_midi(m.events@.take(0)));
            }
            let mut j: usize = 0;
            while j < m.events.len()
                invariant
                    j <= m.events@.len(),
                    kept@ == non_midi(m.events@.take(j as int)),
                decreases m.events@.len() - j,
            {
                let e = m.events[j];
                match e {
                    Event::Midi(_) => {},
                    _ => {
                        kept.push(e);
                    },
                }
                proof {
                    reveal(Seq::filter);
                    assert(m.events@.take(j + 1).drop_last() =~= m.events@.take(j as int));
                    assert(m.events@.take(j + 1).last() == m.events@[j as int]);
                    assert(kept@ == non_midi(m.events@.take(j + 1)));
                }
                j = j + 1;
            }
            proof {
                assert(m.events@.take(m.events@.len() as int) =~= m.events@);
            }
            out_moments.push(Moment { events: kept });
            i = i + 1;
        }
        proof {
            assert(moments_view(out_moments@) =~= extract_spec(self@));
        }
        Sheet { moments: out_moments }
    }

    /// Absorbs a donor sheet of the same length: at every tick the donor's
    /// non-channel events (tempo changes) are appended after this sheet's
    /// events; the donor's channel messages are discarded. The length is
    /// preserved; a length mismatch is a caller error and is excluded here.
    pub fn merge_with(&mut self, other: Sheet)
        requires
            old(self)@.len() == other@.len(),
        ensures
            final(self)@ == merge_spec(old(self)@, other@),
            final(self)@.len() == old(self)@.len(),
    {
        let ghost a0 = self@;
        let ghost b0 = other@;
        let stripped = other.extract_non_midi();
        let mut work = Sheet { moments: Vec::new() };
        core::mem::swap(&mut work.moments, &mut self.moments);
        let merged = Sheet::zip_merge(work, stripped);
        self.moments = merged.moments;
        proof {
            assert(self@ == merge_timelines(a0, extract_spec(b0)));
            assert(merge_timelines(a0, extract_spec(b0)) =~= merge_spec(a0, b0));
        }
    }
}

/// A moment's events with everything but the channel messages removed: the
/// moment's "Midi content".
pub open spec fn midi_only(events: Seq<Event>) -> Seq<Event> {
    events.filter(|e: Event| is_midi(e))
}

/// The Midi content of a whole timeline, moment by moment.
pub open spec fn timeline_midi(tl: Seq<Seq<Event>>) -> Seq<Seq<Event>> {
    Seq::new(tl.len(), |i: int| midi_only(tl[i]))
}

/// Stripping the channel messages from a moment leaves no Midi content.
proof fn lemma_midi_of_non_midi_empty(events: Seq<Event>)
    ensures
        midi_only(non_midi(events)) == Seq::<Event>::empty(),
    decreases events.len(),
{
    reveal(Seq::filter);
    if events.len() > 0 {
        lemma_midi_of_non_midi_empty(events.drop_last());
        let sub = non_midi(events.drop_last());
        if !is_midi(events.last()) {
            assert(non_midi(events) == sub.push(events.last()));
            assert(sub.push(events.last()).drop_last() =~= sub);
        }
    }
}

/// Law: extracting a sheet's non-channel events and merging them back into
/// the original sheet never changes the Midi content already present; the
/// merge introduces no channel message at any tick.
pub proof fn lemma_merge_back_preserves_midi(tl: Seq<Seq<Event>>)
    ensures
        timeline_midi(merge_spec(tl, extract_spec(tl))) == timeline_midi(tl),
{
    broadcast use Seq::filter_distributes_over_add;

    assert forall|i: int| 0 <= i < tl.len() implies midi_only(
        #[trigger] merge_spec(tl, extract_spec(tl))[i],
    ) == midi_only(tl[i]) by {
        let donated = non_midi(non_midi(tl[i]));
        assert(merge_spec(tl, extract_spec(tl))[i] == tl[i] + donated);
        lemma_midi_of_non_midi_empty(non_midi(tl[i]));
        assert(midi_only(tl[i] + donated) == midi_only(tl[i]) + midi_only(donated));
        assert(midi_only(tl[i]) + Seq::<Event>::empty() =~= midi_only(tl[i]));
    }
    assert(timeline_midi(merge_spec(tl, extract_spec(tl))) =~= timeline_midi(tl));
}

} // verus!
