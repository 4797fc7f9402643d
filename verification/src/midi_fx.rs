//! The integer core of the MIDI effects: transposing, harmonizing, swinging
//! and arpeggiating note events, and the random-number generator they share.
//! Turning an effect's knob settings into the whole numbers used here is left
//! to the caller.

use vstd::prelude::*;
use vstd::wrapping::u64_specs;

use crate::chords::{lemma_note_leq_total, lemma_sort_notes_len, note_leq, sort_notes, sort_u8};

verus! {

/// A MIDI event for FX processing
#[derive(Debug, Clone, Copy)]
pub struct MidiEvent {
    pub pitch: u8,
    pub velocity: u8,
    pub channel: u8,
    pub sample_offset: u32,
    pub is_note_on: bool,
}

// ---------------------------------------------------------------------------
// Random numbers
// ---------------------------------------------------------------------------

/// One step of the effects' linear congruential generator.
pub open spec fn lcg_step(state: u64) -> u64 {
    u64_specs::wrapping_add(u64_specs::wrapping_mul(state, 6364136223846793005u64), 1)
}

/// Advance the generator state (a simple LCG for deterministic randomness).
pub fn lcg_next(state: u64) -> (r: u64)
    ensures
        r == lcg_step(state),
{
    state.wrapping_mul(6364136223846793005).wrapping_add(1)
}

// ---------------------------------------------------------------------------
// Transpose and harmonize
// ---------------------------------------------------------------------------

/// `v` clamped to the MIDI range 0..=127.
pub open spec fn clamp_pitch(v: int) -> u8 {
    if v < 0 {
        0u8
    } else if v > 127 {
        127u8
    } else {
        v as u8
    }
}

/// `e` with its pitch moved by `semitones`, clamped to the MIDI range.
pub open spec fn shifted(e: MidiEvent, semitones: int) -> MidiEvent {
    MidiEvent { pitch: clamp_pitch(e.pitch + semitones), ..e }
}

/// Move every event's pitch by `semitones`, clamped to 0..=127.
pub fn transpose_events(events: Vec<MidiEvent>, semitones: i32) -> (r: Vec<MidiEvent>)
    ensures
        r@ == events@.map_values(|e: MidiEvent| shifted(e, semitones as int)),
{
    let mut r: Vec<MidiEvent> = Vec::new();
    for i in 0..events.len()
        invariant
            r@ == events@.take(i as int).map_values(|e: MidiEvent| shifted(e, semitones as int)),
    {
        let e = events[i];
        let p: i64 = e.pitch as i64 + semitones as i64;
        let pitch: u8 = if p < 0 {
            0
        } else if p > 127 {
            127
        } else {
            p as u8
        };
        r.push(MidiEvent { pitch, ..e });
        assert(events@.take(i + 1) =~= events@.take(i as int).push(e));
        assert(r@ =~= events@.take(i + 1).map_values(|e: MidiEvent| shifted(e, semitones as int)));
    }
    assert(events@.take(events.len() as int) =~= events@);
    r
}

/// The harmony events that one input event adds: none for a note-off; for a
/// note-on, a copy moved by `interval1` when `voices >= 1`, then a copy moved by
/// `interval2` when `voices >= 2`.
pub open spec fn harmony_of(e: MidiEvent, interval1: i8, interval2: i8, voices: u8) -> Seq<
    MidiEvent,
> {
    if !e.is_note_on {
        Seq::empty()
    } else {
        (if voices >= 1 {
            seq![shifted(e, interval1 as int)]
        } else {
            Seq::empty()
        }) + (if voices >= 2 {
            seq![shifted(e, interval2 as int)]
        } else {
            Seq::empty()
        })
    }
}

/// The harmony events of the first `n` input events, in input order.
pub open spec fn harmonies(
    events: Seq<MidiEvent>,
    interval1: i8,
    interval2: i8,
    voices: u8,
    n: int,
) -> Seq<MidiEvent>
    decreases n,
{
    if n <= 0 || n > events.len() {
        Seq::empty()
    } else {
        harmonies(events, interval1, interval2, voices, n - 1) + harmony_of(
            events[n - 1],
            interval1,
            interval2,
            voices,
        )
    }
}

/// The input events followed by their harmonies.
pub fn harmonize_events(events: Vec<MidiEvent>, interval1: i8, interval2: i8, voices: u8) -> (r:
    Vec<MidiEvent>)
    ensures
        r@ == events@ + harmonies(events@, interval1, interval2, voices, events@.len() as int),
{
    let mut result: Vec<MidiEvent> = Vec::new();
    for i in 0..events.len()
        invariant
            result@ == events@.take(i as int),
    {
        result.push(events[i]);
        assert(events@.take(i + 1) =~= events@.take(i as int).push(events@[i as int]));
    }
    assert(events@.take(events.len() as int) =~= events@);
    for i in 0..events.len()
        invariant
            result@ == events@ + harmonies(events@, interval1, interval2, voices, i as int),
    {
        let event = events[i];
        let ghost before = result@;
        if event.is_note_on {
            if voices >= 1 {
                let p = event.pitch as i16 + interval1 as i16;
                let pitch1: u8 = if p < 0 {
                    0
                } else if p > 127 {
                    127
                } else {
                    p as u8
                };
                result.push(MidiEvent { pitch: pitch1, ..event });
            }
            if voices >= 2 {
                let p = event.pitch as i16 + interval2 as i16;
                let pitch2: u8 = if p < 0 {
                    0
                } else if p > 127 {
                    127
                } else {
                    p as u8
                };
                result.push(MidiEvent { pitch: pitch2, ..event });
            }
        }
        assert(result@ =~= before + harmony_of(event, interval1, interval2, voices));
    }
    result
}

// ---------------------------------------------------------------------------
// Swing
// ---------------------------------------------------------------------------

/// An event on an off-beat grid position (odd count of grid steps) is pushed by
/// `swing_offset` samples, but never before sample 0; others stay.
pub open spec fn swung(e: MidiEvent, grid_samples: u32, swing_offset: i32) -> MidiEvent {
    if (e.sample_offset / grid_samples) % 2 == 1 {
        let moved = (e.sample_offset as i32) + swing_offset;
        MidiEvent {
            sample_offset: (if moved < 0 {
                0
            } else {
                moved
            }) as u32,
            ..e
        }
    } else {
        e
    }
}

/// The offsets of the off-beat events can be moved without leaving the range
/// of `i32`.
pub open spec fn swing_in_range(events: Seq<MidiEvent>, grid_samples: u32, swing_offset: i32) -> bool {
    forall|i: int|
        0 <= i < events.len() && (#[trigger] events[i].sample_offset / grid_samples) % 2 == 1
            ==> i32::MIN <= (events[i].sample_offset as i32) + swing_offset <= i32::MAX
}

/// Push every off-beat event by `swing_offset` samples.
pub fn swing_events(events: Vec<MidiEvent>, grid_samples: u32, swing_offset: i32) -> (r: Vec<
    MidiEvent,
>)
    requires
        grid_samples > 0,
        swing_in_range(events@, grid_samples, swing_offset),
    ensures
        r@ == events@.map_values(|e: MidiEvent| swung(e, grid_samples, swing_offset)),
{
    let mut r: Vec<MidiEvent> = Vec::new();
    for i in 0..events.len()
        invariant
            grid_samples > 0,
            swing_in_range(events@, grid_samples, swing_offset),
            r@ == events@.take(i as int).map_values(
                |e: MidiEvent| swung(e, grid_samples, swing_offset),
            ),
    {
        let mut e = events[i];
        let grid_pos = e.sample_offset / grid_samples;
        if grid_pos % 2 == 1 {
            assert((events@[i as int].sample_offset / grid_samples) % 2 == 1);
            let moved = e.sample_offset as i32 + swing_offset;
            e.sample_offset = (if moved < 0 {
                0
            } else {
                moved
            }) as u32;
        }
        r.push(e);
        assert(events@.take(i + 1) =~= events@.take(i as int).push(events@[i as int]));
        assert(r@ =~= events@.take(i + 1).map_values(
            |e: MidiEvent| swung(e, grid_samples, swing_offset),
        ));
    }
    assert(events@.take(events.len() as int) =~= events@);
    r
}

// ---------------------------------------------------------------------------
// Echo
// ---------------------------------------------------------------------------

/// The echoes of one event: none for a note-off; for a note-on, one note-on per
/// entry of `velocities`, the k-th (counting from 1) `k * delay` samples later,
/// with that velocity and the event's pitch and channel.
pub open spec fn echoes_of(e: MidiEvent, delay: u32, velocities: Seq<u8>) -> Seq<MidiEvent> {
    if !e.is_note_on {
        Seq::empty()
    } else {
        Seq::new(
            velocities.len(),
            |k: int|
                MidiEvent {
                    pitch: e.pitch,
                    velocity: velocities[k],
                    channel: e.channel,
                    sample_offset: (e.sample_offset + delay * (k + 1)) as u32,
                    is_note_on: true,
                },
        )
    }
}

/// The echoes of the first `n` events, in input order.
pub open spec fn echoes(events: Seq<MidiEvent>, delay: u32, velocities: Seq<Seq<u8>>, n: int) -> Seq<
    MidiEvent,
>
    decreases n,
{
    if n <= 0 || n > events.len() {
        Seq::empty()
    } else {
        echoes(events, delay, velocities, n - 1) + echoes_of(events[n - 1], delay, velocities[n - 1])
    }
}

/// Every echo of a note-on lands within the range of `u32`, and no event has
/// more echoes than a `u32` counts.
pub open spec fn echoes_fit(events: Seq<MidiEvent>, delay: u32, velocities: Seq<Seq<u8>>) -> bool {
    forall|i: int|
        0 <= i < events.len() && #[trigger] events[i].is_note_on ==> events[i].sample_offset + delay
            * velocities[i].len() <= u32::MAX && velocities[i].len() <= u32::MAX
}

/// `s` with `x` inserted after every event that is not later than it.
pub open spec fn insert_by_offset(s: Seq<MidiEvent>, x: MidiEvent) -> Seq<MidiEvent>
    decreases s.len(),
{
    if s.len() == 0 {
        seq![x]
    } else if s.last().sample_offset <= x.sample_offset {
        s.push(x)
    } else {
        insert_by_offset(s.drop_last(), x).push(s.last())
    }
}

/// `s` sorted by sample offset, keeping events with the same offset in their
/// original order.
pub open spec fn sort_by_offset(s: Seq<MidiEvent>) -> Seq<MidiEvent>
    decreases s.len(),
{
    if s.len() == 0 {
        s
    } else {
        insert_by_offset(sort_by_offset(s.drop_last()), s.last())
    }
}

/// Events in order of their sample offsets.
pub open spec fn offsets_sorted(s: Seq<MidiEvent>) -> bool {
    forall|i: int, j: int|
        0 <= i < j < s.len() ==> #[trigger] s[i].sample_offset <= #[trigger] s[j].sample_offset
}

proof fn lemma_insert_by_offset(s: Seq<MidiEvent>, x: MidiEvent)
    requires
        offsets_sorted(s),
    ensures
        offsets_sorted(insert_by_offset(s, x)),
        insert_by_offset(s, x).to_multiset() == s.to_multiset().insert(x),
        insert_by_offset(s, x).len() == s.len() + 1,
    decreases s.len(),
{
    broadcast use vstd::seq_lib::group_to_multiset_ensures;

    if s.len() == 0 {
        assert(seq![x] =~= Seq::<MidiEvent>::empty().push(x));
    } else if s.last().sample_offset <= x.sample_offset {
    } else {
        let d = s.drop_last();
        assert(offsets_sorted(d));
        lemma_insert_by_offset(d, x);
        let r = insert_by_offset(d, x);
        assert(s =~= d.push(s.last()));
        assert forall|i: int| 0 <= i < r.len() implies #[trigger] r[i].sample_offset <= s.last().sample_offset by {
            assert(r.to_multiset().contains(r[i]));
            assert(d.to_multiset().insert(x).contains(r[i]));
            if r[i] != x {
                assert(d.to_multiset().contains(r[i]));
                assert(d.contains(r[i]));
                let k = choose|k: int| 0 <= k < d.len() && d[k] == r[i];
                assert(s[k] == d[k]);
            }
        }
        assert(offsets_sorted(r.push(s.last())));
    }
}

/// Sorting by offset gives events in offset order, the same events.
pub proof fn lemma_sort_by_offset(s: Seq<MidiEvent>)
    ensures
        offsets_sorted(sort_by_offset(s)),
        sort_by_offset(s).to_multiset() == s.to_multiset(),
    decreases s.len(),
{
    broadcast use vstd::seq_lib::group_to_multiset_ensures;

    if s.len() > 0 {
        lemma_sort_by_offset(s.drop_last());
        lemma_insert_by_offset(sort_by_offset(s.drop_last()), s.last());
        assert(s =~= s.drop_last().push(s.last()));
    }
}

/// The events of `s` at sample offset `t`, in their order in `s`.
pub open spec fn at_offset(s: Seq<MidiEvent>, t: u32) -> Seq<MidiEvent> {
    s.filter(|e: MidiEvent| e.sample_offset == t)
}

proof fn lemma_at_offset_push(s: Seq<MidiEvent>, x: MidiEvent, t: u32)
    ensures
        at_offset(s.push(x), t) == if x.sample_offset == t {
            at_offset(s, t).push(x)
        } else {
            at_offset(s, t)
        },
{
    reveal(Seq::filter);
    assert(s.push(x).drop_last() =~= s);
}

proof fn lemma_insert_at_offset(s: Seq<MidiEvent>, x: MidiEvent, t: u32)
    ensures
        at_offset(insert_by_offset(s, x), t) == if x.sample_offset == t {
            at_offset(s, t).push(x)
        } else {
            at_offset(s, t)
        },
    decreases s.len(),
{
    if s.len() == 0 {
        lemma_at_offset_push(s, x, t);
        assert(seq![x] =~= s.push(x));
    } else if s.last().sample_offset <= x.sample_offset {
        lemma_at_offset_push(s, x, t);
    } else {
        let d = s.drop_last();
        let l = s.last();
        assert(s =~= d.push(l));
        lemma_insert_at_offset(d, x, t);
        lemma_at_offset_push(insert_by_offset(d, x), l, t);
        lemma_at_offset_push(d, l, t);
        if x.sample_offset == t {
            lemma_at_offset_push(at_offset(d, t), x, t);
        }
    }
}

/// Sorting by offset keeps events that share an offset in their order: the
/// events at any one offset come out as they went in.
pub proof fn lemma_sort_by_offset_stable(s: Seq<MidiEvent>, t: u32)
    ensures
        at_offset(sort_by_offset(s), t) == at_offset(s, t),
    decreases s.len(),
{
    if s.len() > 0 {
        let d = s.drop_last();
        lemma_sort_by_offset_stable(d, t);
        lemma_insert_at_offset(sort_by_offset(d), s.last(), t);
        lemma_at_offset_push(d, s.last(), t);
        assert(s =~= d.push(s.last()));
    }
}

fn insert_event(v: &mut Vec<MidiEvent>, x: MidiEvent)
    ensures
        final(v)@ == insert_by_offset(old(v)@, x),
    decreases old(v)@.len(),
{
    if v.len() == 0 {
        v.push(x);
        assert(v@ =~= seq![x]);
        return ;
    }
    let last = v[v.len() - 1];
    if last.sample_offset <= x.sample_offset {
        v.push(x);
        return ;
    }
    let popped = v.pop();
    insert_event(v, x);
    v.push(last);
}

/// Sort events by sample offset, keeping events with equal offsets in order.
pub fn sort_events_by_offset(events: Vec<MidiEvent>) -> (r: Vec<MidiEvent>)
    ensures
        r@ == sort_by_offset(events@),
{
    let mut r: Vec<MidiEvent> = Vec::new();
    for i in 0..events.len()
        invariant
            r@ == sort_by_offset(events@.take(i as int)),
    {
        insert_event(&mut r, events[i]);
        assert(events@.take(i + 1).drop_last() =~= events@.take(i as int));
    }
    assert(events@.take(events.len() as int) =~= events@);
    r
}

/// The input events together with the echoes of their note-ons, sorted by
/// sample offset (equal offsets keep their order: inputs first, then echoes
/// in input order). `velocities[i]` holds the velocities of the echoes of
/// event `i`.
pub fn echo_events(events: Vec<MidiEvent>, delay: u32, velocities: &Vec<Vec<u8>>) -> (r: Vec<
    MidiEvent,
>)
    requires
        velocities@.len() == events@.len(),
        echoes_fit(events@, delay, velocities@.map_values(|v: Vec<u8>| v@)),
    ensures
        r@ == sort_by_offset(
            events@ + echoes(
                events@,
                delay,
                velocities@.map_values(|v: Vec<u8>| v@),
                events@.len() as int,
            ),
        ),
{
    let ghost vels = velocities@.map_values(|v: Vec<u8>| v@);
    let mut result: Vec<MidiEvent> = Vec::new();
    for i in 0..events.len()
        invariant
            result@ == events@.take(i as int),
    {
        result.push(events[i]);
        assert(events@.take(i + 1) =~= events@.take(i as int).push(events@[i as int]));
    }
    assert(events@.take(events.len() as int) =~= events@);
    for i in 0..events.len()
        invariant
            velocities@.len() == events@.len(),
            vels == velocities@.map_values(|v: Vec<u8>| v@),
            echoes_fit(events@, delay, vels),
            result@ == events@ + echoes(events@, delay, vels, i as int),
    {
        let event = events[i];
        let ghost before = result@;
        if event.is_note_on {
            let vs = &velocities[i];
            assert(vs@ == vels[i as int]);
            assert(events@[i as int].is_note_on);
            for k in 0..vs.len()
                invariant
                    vs@ == vels[i as int],
                    event == events@[i as int],
                    event.is_note_on,
                    event.sample_offset + delay * vs@.len() <= u32::MAX,
                    vs@.len() <= u32::MAX,
                    result@ == before + echoes_of(event, delay, vs@).take(k as int),
            {
                assert(delay * (k + 1) <= delay * vs@.len()) by (nonlinear_arith)
                    requires
                        k + 1 <= vs@.len(),
                ;
                result.push(
                    MidiEvent {
                        pitch: event.pitch,
                        velocity: vs[k],
                        channel: event.channel,
                        sample_offset: event.sample_offset + delay * ((k + 1) as u32),
                        is_note_on: true,
                    },
                );
                assert(result@ =~= before + echoes_of(event, delay, vs@).take(k + 1));
            }
            assert(echoes_of(event, delay, vs@).take(vs@.len() as int) =~= echoes_of(event, delay, vs@));
        }
        assert(result@ =~= before + echoes_of(event, delay, vels[i as int]));
    }
    sort_events_by_offset(result)
}

// ---------------------------------------------------------------------------
// Arpeggiator
// ---------------------------------------------------------------------------

/// The order in which the arpeggiator plays the held notes
#[derive(Debug, Clone, Copy, PartialEq, Eq, Structural)]
pub enum ArpMode {
    Up,
    Down,
    UpDown,
    Random,
    Order,
}

/// The mode selected by a mode knob position (4 and above select `Order`).
pub open spec fn arp_mode_spec(index: u8) -> ArpMode {
    if index == 0 {
        ArpMode::Up
    } else if index == 1 {
        ArpMode::Down
    } else if index == 2 {
        ArpMode::UpDown
    } else if index == 3 {
        ArpMode::Random
    } else {
        ArpMode::Order
    }
}

/// The mode selected by a mode knob position: 0 Up, 1 Down, 2 UpDown,
/// 3 Random, anything else Order.
pub fn arp_mode_from_index(index: u8) -> (r: ArpMode)
    ensures
        r == arp_mode_spec(index),
{
    match index {
        0 => ArpMode::Up,
        1 => ArpMode::Down,
        2 => ArpMode::UpDown,
        3 => ArpMode::Random,
        _ => ArpMode::Order,
    }
}

/// The held notes after one event: a note-on adds its pitch unless it is
/// already held; a note-off releases every copy of its pitch.
pub open spec fn held_step(held: Seq<u8>, e: MidiEvent) -> Seq<u8> {
    if e.is_note_on {
        if held.contains(e.pitch) {
            held
        } else {
            held.push(e.pitch)
        }
    } else {
        held.filter(|p: u8| p != e.pitch)
    }
}

/// The held notes after the first `n` events.
pub open spec fn held_after(held: Seq<u8>, events: Seq<MidiEvent>, n: int) -> Seq<u8>
    decreases n,
{
    if n <= 0 || n > events.len() {
        held
    } else {
        held_step(held_after(held, events, n - 1), events[n - 1])
    }
}

/// One octave of the pattern: the sorted held notes (reversed for `Down`), moved
/// up `oct` octaves and capped at 127.
pub open spec fn octave_block(sorted: Seq<u8>, mode: ArpMode, oct: int) -> Seq<u8> {
    let ordered = if mode == ArpMode::Down {
        sorted.reverse()
    } else {
        sorted
    };
    ordered.map_values(
        |n: u8|
            if n + 12 * oct > 127 {
                127u8
            } else {
                (n + 12 * oct) as u8
            },
    )
}

/// The blocks of the first `k` octaves, lowest first.
pub open spec fn octave_ladder(sorted: Seq<u8>, mode: ArpMode, k: int) -> Seq<u8>
    decreases k,
{
    if k <= 0 {
        Seq::empty()
    } else {
        octave_ladder(sorted, mode, k - 1) + octave_block(sorted, mode, k - 1)
    }
}

/// Up-down: the ladder followed by its inner notes in reverse, when it has more
/// than two notes.
pub open spec fn up_down(s: Seq<u8>) -> Seq<u8> {
    if s.len() > 2 {
        s + s.subrange(1, s.len() - 1).reverse()
    } else {
        s
    }
}

/// Fisher-Yates shuffle of positions `i` down to 1, each swap drawing a fresh
/// generator state; the shuffled notes and the last state.
pub open spec fn shuffle(s: Seq<u8>, state: u64, i: int) -> (Seq<u8>, u64)
    decreases i,
{
    if i < 1 || i >= s.len() {
        (s, state)
    } else {
        let next = lcg_step(state);
        let j = ((next >> 33u64) as int) % (i + 1);
        shuffle(s.update(i, s[j]).update(j, s[i]), next, i - 1)
    }
}

/// The notes the arpeggiator plays for the held notes, in playing order, and the
/// generator state afterwards.
pub open spec fn arp_sequence(held: Seq<u8>, mode: ArpMode, octaves: u8, state: u64) -> (
    Seq<u8>,
    u64,
) {
    let ladder = octave_ladder(sort_notes(held), mode, octaves as int);
    if mode == ArpMode::UpDown {
        (up_down(ladder), state)
    } else if mode == ArpMode::Random && ladder.len() > 0 {
        shuffle(ladder, state, ladder.len() - 1)
    } else {
        (ladder, state)
    }
}

proof fn lemma_swap_permutes(s: Seq<u8>, i: int, j: int)
    requires
        0 <= i < s.len(),
        0 <= j < s.len(),
    ensures
        s.update(i, s[j]).update(j, s[i]).to_multiset() == s.to_multiset(),
{
    broadcast use vstd::multiset::group_multiset_axioms;

    let s1 = s.update(i, s[j]);
    let s2 = s1.update(j, s[i]);
    vstd::seq_lib::to_multiset_update(s, i, s[j]);
    vstd::seq_lib::to_multiset_update(s1, j, s[i]);
    s.to_multiset_ensures();
    assert(s.to_multiset().count(s[i]) > 0);
    assert(s2.to_multiset() =~= s.to_multiset());
}

proof fn lemma_shuffle_permutes(s: Seq<u8>, state: u64, i: int)
    ensures
        shuffle(s, state, i).0.to_multiset() == s.to_multiset(),
    decreases i,
{
    if i >= 1 && i < s.len() {
        let next = lcg_step(state);
        let j = ((next >> 33u64) as int) % (i + 1);
        lemma_swap_permutes(s, i, j);
        lemma_shuffle_permutes(s.update(i, s[j]).update(j, s[i]), next, i - 1);
    }
}

/// The random pattern plays the same notes as the rising one, only in another
/// order.
pub proof fn lemma_random_is_reordering(held: Seq<u8>, octaves: u8, state: u64)
    ensures
        arp_sequence(held, ArpMode::Random, octaves, state).0.to_multiset() == arp_sequence(
            held,
            ArpMode::Up,
            octaves,
            state,
        ).0.to_multiset(),
{
    let sorted = sort_notes(held);
    let up = octave_ladder(sorted, ArpMode::Up, octaves as int);
    lemma_ladder_rises_unless_down(sorted, ArpMode::Random, octaves as int);
    if up.len() > 0 {
        lemma_shuffle_permutes(up, state, up.len() - 1);
    }
}

proof fn lemma_ladder_rises_unless_down(sorted: Seq<u8>, mode: ArpMode, k: int)
    requires
        mode != ArpMode::Down,
    ensures
        octave_ladder(sorted, mode, k) == octave_ladder(sorted, ArpMode::Up, k),
    decreases k,
{
    if k > 0 {
        lemma_ladder_rises_unless_down(sorted, mode, k - 1);
    }
}

proof fn lemma_ladder_len(sorted: Seq<u8>, mode: ArpMode, k: int)
    requires
        k >= 0,
    ensures
        octave_ladder(sorted, mode, k).len() == k * sorted.len(),
    decreases k,
{
    let n = sorted.len() as int;
    if k > 0 {
        lemma_ladder_len(sorted, mode, k - 1);
        assert(octave_block(sorted, mode, k - 1).len() == n);
        assert((k - 1) * n + n == k * n) by (nonlinear_arith);
    } else {
        assert(k * n == 0) by (nonlinear_arith)
            requires
                k == 0,
        ;
    }
}

/// Entry `i` of octave `q` of the ladder is entry `i` of that octave's block.
proof fn lemma_ladder_index(sorted: Seq<u8>, mode: ArpMode, k: int, q: int, i: int)
    requires
        0 <= q < k,
        0 <= i < sorted.len(),
    ensures
        octave_ladder(sorted, mode, k)[q * sorted.len() + i] == octave_block(sorted, mode, q)[i],
    decreases k,
{
    let n = sorted.len() as int;
    lemma_ladder_len(sorted, mode, k - 1);
    let prev = octave_ladder(sorted, mode, k - 1);
    if q == k - 1 {
        assert(octave_ladder(sorted, mode, k)[q * n + i] == octave_block(sorted, mode, q)[q * n + i
            - prev.len()]);
    } else {
        assert(q * n + i < (k - 1) * n) by (nonlinear_arith)
            requires
                0 <= q,
                q + 1 <= k - 1,
                0 <= i < n,
        ;
        assert(0 <= q * n) by (nonlinear_arith)
            requires
                0 <= q,
                0 <= n,
        ;
        lemma_ladder_index(sorted, mode, k - 1, q, i);
    }
}

/// The rising pattern (which the Order mode plays too) goes through the held
/// notes from low to high, octave by octave, each octave twelve semitones
/// higher and capped at 127; the falling pattern plays each octave's notes from
/// high to low. Neither draws on the generator.
pub proof fn lemma_arp_rising_falling(held: Seq<u8>, octaves: u8, state: u64, q: int, i: int)
    requires
        0 <= q < octaves,
        0 <= i < held.len(),
    ensures
        ({
            let sorted = sort_notes(held);
            let n = held.len() as int;
            let up = arp_sequence(held, ArpMode::Up, octaves, state);
            let down = arp_sequence(held, ArpMode::Down, octaves, state);
            &&& arp_sequence(held, ArpMode::Order, octaves, state) == up
            &&& up.1 == state
            &&& down.1 == state
            &&& up.0.len() == octaves * n
            &&& down.0.len() == octaves * n
            &&& sorted.to_multiset() == held.to_multiset()
            &&& forall|a: int, b: int| 0 <= a < b < n ==> #[trigger] sorted[a] <= #[trigger] sorted[b]
            &&& up.0[q * n + i] == if sorted[i] + 12 * q > 127 {
                127
            } else {
                sorted[i] + 12 * q
            }
            &&& down.0[q * n + i] == up.0[q * n + (n - 1 - i)]
        }),
{
    let sorted = sort_notes(held);
    let n = held.len() as int;
    lemma_sort_notes_len(held);
    lemma_note_leq_total();
    held.lemma_sort_by_ensures(|a: u8, b: u8| note_leq(a, b));
    lemma_ladder_rises_unless_down(sorted, ArpMode::Order, octaves as int);
    lemma_ladder_len(sorted, ArpMode::Up, octaves as int);
    lemma_ladder_len(sorted, ArpMode::Down, octaves as int);
    lemma_ladder_index(sorted, ArpMode::Up, octaves as int, q, i);
    lemma_ladder_index(sorted, ArpMode::Up, octaves as int, q, n - 1 - i);
    lemma_ladder_index(sorted, ArpMode::Down, octaves as int, q, i);
    assert(sorted.reverse()[i] == sorted[n - 1 - i]);
}

/// The up-and-down pattern plays the rising pattern and then comes back down
/// through its inner notes, so that neither end note repeats; with two notes or
/// fewer it is the rising pattern. It does not draw on the generator.
pub proof fn lemma_arp_up_and_down(held: Seq<u8>, octaves: u8, state: u64)
    ensures
        ({
            let up = arp_sequence(held, ArpMode::Up, octaves, state).0;
            let ud = arp_sequence(held, ArpMode::UpDown, octaves, state);
            let n = up.len() as int;
            &&& ud.1 == state
            &&& n <= 2 ==> ud.0 == up
            &&& n > 2 ==> ud.0.len() == 2 * n - 2
            &&& n > 2 ==> forall|k: int| 0 <= k < n ==> #[trigger] ud.0[k] == up[k]
            &&& n > 2 ==> forall|m: int| 0 <= m < n - 2 ==> #[trigger] ud.0[n + m] == up[n - 2 - m]
        }),
{
    let sorted = sort_notes(held);
    lemma_ladder_rises_unless_down(sorted, ArpMode::UpDown, octaves as int);
}

/// The generator state after `k` steps from `state`.
pub open spec fn lcg_iter(state: u64, k: nat) -> u64
    decreases k,
{
    if k == 0 {
        state
    } else {
        lcg_step(lcg_iter(state, (k - 1) as nat))
    }
}

/// `s` with the entries at `i` and `j` exchanged.
pub open spec fn swap_entries(s: Seq<u8>, i: int, j: int) -> Seq<u8> {
    s.update(i, s[j]).update(j, s[i])
}

/// Fisher-Yates on `s` after its first `t` swaps: swap number `t` (counted from
/// 1) exchanges position `len - t` with the position that the generator's
/// `t`-th state picks, its bits from 33 up taken modulo `len - t + 1`.
pub open spec fn fisher_yates(s: Seq<u8>, state: u64, t: nat) -> Seq<u8>
    decreases t,
{
    if t == 0 || t > s.len() {
        s
    } else {
        let i = s.len() - t;
        let j = ((lcg_iter(state, t) >> 33u64) as int) % (i + 1);
        swap_entries(fisher_yates(s, state, (t - 1) as nat), i, j)
    }
}

proof fn lemma_fisher_yates_len(s: Seq<u8>, state: u64, t: nat)
    ensures
        fisher_yates(s, state, t).len() == s.len(),
    decreases t,
{
    if t > 0 && t <= s.len() {
        lemma_fisher_yates_len(s, state, (t - 1) as nat);
    }
}

/// Running the shuffle from position `len - 1 - t` on the state after the
/// first `t` swaps finishes the same Fisher-Yates run.
proof fn lemma_shuffle_finishes_fisher_yates(s: Seq<u8>, state: u64, t: nat)
    requires
        s.len() > 0,
        t <= s.len() - 1,
    ensures
        shuffle(fisher_yates(s, state, t), lcg_iter(state, t), s.len() - 1 - t) == (
            fisher_yates(s, state, (s.len() - 1) as nat),
            lcg_iter(state, (s.len() - 1) as nat),
        ),
    decreases s.len() - 1 - t,
{
    lemma_fisher_yates_len(s, state, t);
    if t < s.len() - 1 {
        let cur = fisher_yates(s, state, t);
        let i = s.len() - 1 - t;
        let next = lcg_step(lcg_iter(state, t));
        assert(next == lcg_iter(state, t + 1));
        let j = ((next >> 33u64) as int) % (i + 1);
        assert(fisher_yates(s, state, t + 1) == swap_entries(cur, i, j));
        assert(shuffle(cur, lcg_iter(state, t), i) == shuffle(swap_entries(cur, i, j), next, i - 1));
        lemma_shuffle_finishes_fisher_yates(s, state, t + 1);
    }
}

/// The random pattern is a Fisher-Yates shuffle of the rising pattern: for each
/// position from the last down to the second, one generator step, then a swap
/// with the position that the new state's bits from 33 up pick modulo the
/// position plus one. The generator ends one step per swap further on.
pub proof fn lemma_random_is_fisher_yates(held: Seq<u8>, octaves: u8, state: u64)
    ensures
        ({
            let up = arp_sequence(held, ArpMode::Up, octaves, state).0;
            let random = arp_sequence(held, ArpMode::Random, octaves, state);
            &&& up.len() == 0 ==> random == (up, state)
            &&& up.len() > 0 ==> random == (
                fisher_yates(up, state, (up.len() - 1) as nat),
                lcg_iter(state, (up.len() - 1) as nat),
            )
        }),
{
    let sorted = sort_notes(held);
    let up = octave_ladder(sorted, ArpMode::Up, octaves as int);
    lemma_ladder_rises_unless_down(sorted, ArpMode::Random, octaves as int);
    assert(arp_sequence(held, ArpMode::Up, octaves, state).0 == up);
    if up.len() > 0 {
        lemma_shuffle_finishes_fisher_yates(up, state, 0);
        assert(fisher_yates(up, state, 0) == up);
    }
}

/// The note-on and note-off events for a sequence of pitches: the i-th note
/// starts at `i * note_samples` with velocity 100 and stops `gate_samples`
/// later.
pub open spec fn arp_events_spec(seq: Seq<u8>, channel: u8, note_samples: u32, gate_samples: u32) -> Seq<
    MidiEvent,
> {
    Seq::new(
        2 * seq.len(),
        |k: int|
            {
                let i = k / 2;
                let start = i * note_samples;
                if k % 2 == 0 {
                    MidiEvent {
                        pitch: seq[i],
                        velocity: 100,
                        channel,
                        sample_offset: start as u32,
                        is_note_on: true,
                    }
                } else {
                    MidiEvent {
                        pitch: seq[i],
                        velocity: 0,
                        channel,
                        sample_offset: (start + gate_samples) as u32,
                        is_note_on: false,
                    }
                }
            },
    )
}

/// Every note of a sequence of `len` notes starts and stops within the range of `u32`.
pub open spec fn arp_timing_fits(len: nat, note_samples: u32, gate_samples: u32) -> bool {
    len > 0 ==> (len - 1) * note_samples + gate_samples <= u32::MAX
}

/// The state of an arpeggiator: the notes held down, in the order they were
/// pressed, and its random generator.
#[derive(Debug)]
pub struct Arpeggio {
    pub held_notes: Vec<u8>,
    pub rng_state: u64,
}

proof fn lemma_filter_push(s: Seq<u8>, x: u8, p: u8)
    ensures
        s.push(x).filter(|q: u8| q != p) == if x != p {
            s.filter(|q: u8| q != p).push(x)
        } else {
            s.filter(|q: u8| q != p)
        },
{
    reveal(Seq::filter);
    assert(s.push(x).drop_last() =~= s);
}

proof fn lemma_push_distinct(d: Seq<u8>, x: u8)
    ensures
        d.push(x).no_duplicates() == (d.no_duplicates() && !d.contains(x)),
{
    let s = d.push(x);
    if s.no_duplicates() {
        assert forall|i: int, j: int| 0 <= i < d.len() && 0 <= j < d.len() && i != j implies d[i] != d[j] by {
            assert(s[i] == d[i] && s[j] == d[j]);
        }
        if d.contains(x) {
            let k = choose|k: int| 0 <= k < d.len() && d[k] == x;
            assert(s[k] == s[d.len() as int]);
        }
    }
    if d.no_duplicates() && !d.contains(x) {
        assert forall|i: int, j: int| 0 <= i < s.len() && 0 <= j < s.len() && i != j implies s[i] != s[j] by {
            if i < d.len() && j < d.len() {
                assert(s[i] == d[i] && s[j] == d[j]);
            } else if i < d.len() {
                assert(s[i] == d[i]);
            } else if j < d.len() {
                assert(s[j] == d[j]);
            }
        }
    }
}

proof fn lemma_release_keeps_distinct(s: Seq<u8>, p: u8)
    ensures
        forall|x: u8| s.filter(|q: u8| q != p).contains(x) ==> s.contains(x),
        s.no_duplicates() ==> s.filter(|q: u8| q != p).no_duplicates(),
    decreases s.len(),
{
    if s.len() > 0 {
        let d = s.drop_last();
        let x = s.last();
        assert(s =~= d.push(x));
        lemma_release_keeps_distinct(d, p);
        lemma_filter_push(d, x, p);
        lemma_push_distinct(d, x);
        let fd = d.filter(|q: u8| q != p);
        assert forall|y: u8| s.filter(|q: u8| q != p).contains(y) implies s.contains(y) by {
            if x != p && y == x {
                assert(s[s.len() - 1] == x);
            } else {
                assert(fd.contains(y)) by {
                    if x != p {
                        let k = choose|k: int| 0 <= k < fd.push(x).len() && fd.push(x)[k] == y;
                        assert(fd[k] == y);
                    }
                }
                assert(d.contains(y));
                let k = choose|k: int| 0 <= k < d.len() && d[k] == y;
                assert(s[k] == y);
            }
        }
        if x != p {
            lemma_push_distinct(fd, x);
        }
    }
}

/// No note is held twice: held notes that start out distinct stay distinct
/// whatever events arrive.
pub proof fn lemma_held_notes_distinct(held: Seq<u8>, events: Seq<MidiEvent>, n: int)
    requires
        held.no_duplicates(),
    ensures
        held_after(held, events, n).no_duplicates(),
    decreases n,
{
    if n > 0 && n <= events.len() {
        lemma_held_notes_distinct(held, events, n - 1);
        let h = held_after(held, events, n - 1);
        let e = events[n - 1];
        if e.is_note_on {
            lemma_push_distinct(h, e.pitch);
        } else {
            lemma_release_keeps_distinct(h, e.pitch);
        }
    }
}

/// A copy of `v` without the entries equal to `p`.
fn without_pitch(v: &Vec<u8>, p: u8) -> (r: Vec<u8>)
    ensures
        r@ == v@.filter(|q: u8| q != p),
{
    let mut r: Vec<u8> = Vec::new();
    for i in 0..v.len()
        invariant
            r@ == v@.take(i as int).filter(|q: u8| q != p),
    {
        proof {
            assert(v@.take(i + 1) =~= v@.take(i as int).push(v@[i as int]));
            lemma_filter_push(v@.take(i as int), v@[i as int], p);
        }
        if v[i] != p {
            r.push(v[i]);
        }
    }
    assert(v@.take(v.len() as int) =~= v@);
    r
}

fn contains_pitch(v: &Vec<u8>, p: u8) -> (r: bool)
    ensures
        r == v@.contains(p),
{
    for i in 0..v.len()
        invariant
            forall|k: int| 0 <= k < i ==> v@[k] != p,
    {
        if v[i] == p {
            return true;
        }
    }
    false
}

impl Arpeggio {
    /// No notes held, the generator at its usual seed.
    pub fn new() -> (r: Self)
        ensures
            r.held_notes@ == Seq::<u8>::empty(),
            r.rng_state == 99999,
    {
        Arpeggio { held_notes: Vec::new(), rng_state: 99999 }
    }

    /// Update the held notes from incoming note-on and note-off events.
    pub fn update_held(&mut self, events: &Vec<MidiEvent>)
        ensures
            final(self).held_notes@ == held_after(old(self).held_notes@, events@, events@.len() as int),
            final(self).rng_state == old(self).rng_state,
    {
        for i in 0..events.len()
            invariant
                self.held_notes@ == held_after(old(self).held_notes@, events@, i as int),
                self.rng_state == old(self).rng_state,
        {
            let e = events[i];
            if e.is_note_on {
                if !contains_pitch(&self.held_notes, e.pitch) {
                    self.held_notes.push(e.pitch);
                }
            } else {
                self.held_notes = without_pitch(&self.held_notes, e.pitch);
            }
        }
    }

    /// The notes to play, in order, for the held notes; a random pattern draws
    /// on (and advances) the generator.
    pub fn build_sequence(&mut self, mode: ArpMode, octaves: u8) -> (r: Vec<u8>)
        requires
            octaves <= 22,
        ensures
            (r@, final(self).rng_state) == arp_sequence(
                old(self).held_notes@,
                mode,
                octaves,
                old(self).rng_state,
            ),
            final(self).held_notes@ == old(self).held_notes@,
    {
        let sorted = sort_u8(&self.held_notes);
        let mut sequence = octave_ladder_vec(&sorted, mode, octaves);
        if mode == ArpMode::UpDown && sequence.len() > 2 {
            extend_up_down(&mut sequence);
        }
        if mode == ArpMode::Random && sequence.len() > 0 {
            shuffle_in_place(&mut sequence, &mut self.rng_state);
        }
        sequence
    }
}

fn octave_ladder_vec(sorted: &Vec<u8>, mode: ArpMode, octaves: u8) -> (r: Vec<u8>)
    requires
        octaves <= 22,
    ensures
        r@ == octave_ladder(sorted@, mode, octaves as int),
{
    let mut sequence: Vec<u8> = Vec::new();
    for oct in 0..octaves
        invariant
            octaves <= 22,
            sequence@ == octave_ladder(sorted@, mode, oct as int),
    {
        let oct_offset: u8 = oct * 12;
        let ghost before = sequence@;
        let n = sorted.len();
        let mut k: usize = 0;
        while k < n
            invariant
                n == sorted.len(),
                k <= n,
                oct < octaves <= 22,
                oct_offset == oct * 12,
                sequence@ == before + octave_block(sorted@, mode, oct as int).take(k as int),
            decreases n - k,
        {
            let note = if mode == ArpMode::Down {
                sorted[n - 1 - k]
            } else {
                sorted[k]
            };
            let raised: u16 = note as u16 + oct_offset as u16;
            let pitch: u8 = if raised > 127 {
                127
            } else {
                raised as u8
            };
            sequence.push(pitch);
            assert(sequence@ =~= before + octave_block(sorted@, mode, oct as int).take(k + 1));
            k = k + 1;
        }
        assert(octave_block(sorted@, mode, oct as int).take(n as int) =~= octave_block(
            sorted@,
            mode,
            oct as int,
        ));
    }
    sequence
}

fn extend_up_down(sequence: &mut Vec<u8>)
    requires
        old(sequence).len() > 2,
    ensures
        final(sequence)@ == up_down(old(sequence)@),
{
    let ghost ladder = sequence@;
    let len = sequence.len();
    let mut k: usize = len - 2;
    while k >= 1
        invariant
            len == ladder.len(),
            len > 2,
            k <= len - 2,
            sequence@ == ladder + ladder.subrange(k + 1, len - 1).reverse(),
        decreases k,
    {
        let x = sequence[k];
        sequence.push(x);
        assert(sequence@ =~= ladder + ladder.subrange(k as int, len - 1).reverse());
        k = k - 1;
    }
}

fn shuffle_in_place(sequence: &mut Vec<u8>, state: &mut u64)
    requires
        old(sequence).len() > 0,
    ensures
        (final(sequence)@, *final(state)) == shuffle(old(sequence)@, *old(state), old(sequence)@.len() - 1),
{
    let ghost full = sequence@;
    let ghost start = *state;
    let mut i: usize = sequence.len() - 1;
    while i >= 1
        invariant
            i < sequence.len(),
            sequence@.len() == full.len(),
            shuffle(sequence@, *state, i as int) == shuffle(full, start, full.len() - 1),
        decreases i,
    {
        let ghost s0 = sequence@;
        let ghost st0 = *state;
        let next = lcg_next(*state);
        *state = next;
        assert(next >> 33u64 <= 0x7fff_ffffu64) by (bit_vector);
        let j = ((next >> 33u64) as usize) % (i + 1);
        let a = sequence[i];
        let b = sequence[j];
        sequence[i] = b;
        sequence[j] = a;
        proof {
            assert(j as int == ((next >> 33u64) as int) % (i + 1));
            assert(sequence@ =~= s0.update(i as int, s0[j as int]).update(j as int, s0[i as int]));
            assert(shuffle(s0, st0, i as int) == shuffle(sequence@, next, i - 1));
        }
        i = i - 1;
    }
}

/// The note-on/note-off pairs for a sequence of pitches, `note_samples` apart,
/// each `gate_samples` long.
pub fn arp_events(seq: &Vec<u8>, channel: u8, note_samples: u32, gate_samples: u32) -> (r: Vec<
    MidiEvent,
>)
    requires
        arp_timing_fits(seq@.len(), note_samples, gate_samples),
    ensures
        r@ == arp_events_spec(seq@, channel, note_samples, gate_samples),
{
    let mut result: Vec<MidiEvent> = Vec::new();
    for i in 0..seq.len()
        invariant
            arp_timing_fits(seq@.len(), note_samples, gate_samples),
            result@ == arp_events_spec(seq@, channel, note_samples, gate_samples).take(2 * i),
    {
        assert(i * note_samples + gate_samples <= (seq@.len() - 1) * note_samples + gate_samples)
            by (nonlinear_arith)
            requires
                i <= seq@.len() - 1,
        ;
        assert((i as u32) as int * note_samples == i * note_samples) by (nonlinear_arith)
            requires
                i <= seq@.len() - 1,
                (seq@.len() - 1) * note_samples + gate_samples <= u32::MAX,
        ;
        let offset = note_samples * (i as u32);
        let pitch = seq[i];
        result.push(
            MidiEvent { pitch, velocity: 100, channel, sample_offset: offset, is_note_on: true },
        );
        result.push(
            MidiEvent {
                pitch,
                velocity: 0,
                channel,
                sample_offset: offset + gate_samples,
                is_note_on: false,
            },
        );
        assert(result@ =~= arp_events_spec(seq@, channel, note_samples, gate_samples).take(
            2 * (i + 1),
        ));
    }
    assert(arp_events_spec(seq@, channel, note_samples, gate_samples).take(2 * seq.len())
        =~= arp_events_spec(seq@, channel, note_samples, gate_samples));
    result
}


// ---------------------------------------------------------------------------
// Effect chains
// ---------------------------------------------------------------------------

/// The most effects a chain holds.
pub const MAX_CHAIN_EFFECTS: usize = 8;

/// Append an effect to a chain unless the chain is already full.
pub fn chain_add<T>(effects: &mut Vec<T>, effect: T)
    ensures
        old(effects)@.len() < MAX_CHAIN_EFFECTS ==> final(effects)@ == old(effects)@.push(effect),
        old(effects)@.len() >= MAX_CHAIN_EFFECTS ==> final(effects)@ == old(effects)@,
{
    if effects.len() < MAX_CHAIN_EFFECTS {
        effects.push(effect);
    }
}

/// Take the effect at `index` out of a chain, if there is one there.
pub fn chain_remove<T>(effects: &mut Vec<T>, index: usize) -> (r: Option<T>)
    ensures
        index < old(effects)@.len() ==> r == Some(old(effects)@[index as int]) && final(effects)@
            == old(effects)@.remove(index as int),
        index >= old(effects)@.len() ==> r is None && final(effects)@ == old(effects)@,
{
    if index < effects.len() {
        return Some(effects.remove(index));
    }
    None
}

} // verus!
