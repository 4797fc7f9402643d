//! Song arrangement for Hapax-style pattern chaining.

use std::collections::HashMap;
use vstd::prelude::*;

verus! {

broadcast use vstd::std_specs::hash::group_hash_axioms;

/// What a song section holds.
pub struct SongSectionView {
    pub assignments: Map<u64, usize>,
    pub length_bars: u8,
    pub repeat_count: u8,
    pub name: Seq<char>,
}

/// A section in the song arrangement
#[derive(Debug)]
pub struct SongSection {
    /// Pattern index assignments per track (track_id -> pattern_index)
    pub pattern_assignments: HashMap<u64, usize>,
    /// Section length in bars
    pub length_bars: u8,
    /// Number of times to repeat this section
    pub repeat_count: u8,
    /// Section name (optional)
    pub name: String,
}

impl View for SongSection {
    type V = SongSectionView;

    open spec fn view(&self) -> SongSectionView {
        SongSectionView {
            assignments: self.pattern_assignments@,
            length_bars: self.length_bars,
            repeat_count: self.repeat_count,
            name: self.name@,
        }
    }
}

/// A fresh section of the given length: no assignments, played once, unnamed.
pub open spec fn fresh_section(length_bars: u8) -> SongSectionView {
    SongSectionView { assignments: Map::empty(), length_bars, repeat_count: 1, name: Seq::empty() }
}

/// The bars a section lasts, counting its repeats (a repeat count of 0 plays once).
pub open spec fn section_bars(s: SongSectionView) -> nat {
    (s.length_bars as nat) * (if s.repeat_count >= 1 {
        s.repeat_count as nat
    } else {
        1nat
    })
}

/// The pattern that a section plays on a track: the assigned one, or pattern 0.
pub open spec fn assigned_pattern(s: SongSectionView, track_id: u64) -> usize {
    if s.assignments.contains_key(track_id) {
        s.assignments[track_id]
    } else {
        0
    }
}

impl Clone for SongSection {
    fn clone(&self) -> (r: Self)
        ensures
            r@ == self@,
    {
        SongSection {
            pattern_assignments: self.pattern_assignments.clone(),
            length_bars: self.length_bars,
            repeat_count: self.repeat_count,
            name: self.name.clone(),
        }
    }
}

impl Default for SongSection {
    fn default() -> (r: Self)
        ensures
            r@ == fresh_section(4),
    {
        SongSection {
            pattern_assignments: HashMap::new(),
            length_bars: 4,
            repeat_count: 1,
            name: String::new(),
        }
    }
}

/// The section after `set_pattern(track_id, pattern_idx)`.
pub open spec fn with_pattern(s: SongSectionView, track_id: u64, pattern_idx: usize) -> SongSectionView {
    SongSectionView { assignments: s.assignments.insert(track_id, pattern_idx), ..s }
}

/// The section after a run of `set_pattern` calls, one per (track id, pattern) pair, in order.
pub open spec fn with_patterns(s: SongSectionView, calls: Seq<(u64, usize)>) -> SongSectionView
    decreases calls.len(),
{
    if calls.len() == 0 {
        s
    } else {
        with_pattern(with_patterns(s, calls.drop_last()), calls.last().0, calls.last().1)
    }
}

/// None of the calls assigns track `t`.
pub open spec fn leaves_track(calls: Seq<(u64, usize)>, t: u64) -> bool {
    forall|i: int| 0 <= i < calls.len() ==> (#[trigger] calls[i]).0 != t
}

proof fn lemma_other_tracks_keep(s: SongSectionView, calls: Seq<(u64, usize)>, t: u64)
    requires
        leaves_track(calls, t),
    ensures
        with_patterns(s, calls).assignments.contains_key(t) == s.assignments.contains_key(t),
        s.assignments.contains_key(t) ==> with_patterns(s, calls).assignments[t] == s.assignments[t],
    decreases calls.len(),
{
    if calls.len() > 0 {
        let d = calls.drop_last();
        assert(leaves_track(d, t)) by {
            assert forall|i: int| 0 <= i < d.len() implies (#[trigger] d[i]).0 != t by {
                assert(d[i] == calls[i]);
            }
        }
        lemma_other_tracks_keep(s, d, t);
        assert(calls.last() == calls[calls.len() - 1]);
    }
}

/// A track reads back the pattern last set for it, whatever is set later for
/// other tracks; a track never set reads pattern 0, whatever is set for others.
pub proof fn lemma_pattern_round_trip(s: SongSectionView, t: u64, p: usize, later: Seq<(u64, usize)>)
    requires
        leaves_track(later, t),
    ensures
        assigned_pattern(with_patterns(with_pattern(s, t, p), later), t) == p,
        !s.assignments.contains_key(t) ==> assigned_pattern(with_patterns(s, later), t) == 0,
{
    lemma_other_tracks_keep(with_pattern(s, t, p), later, t);
    lemma_other_tracks_keep(s, later, t);
}

/// A fresh section reads pattern 0 for every track.
pub proof fn lemma_fresh_section_patterns(length_bars: u8, t: u64)
    ensures
        assigned_pattern(fresh_section(length_bars), t) == 0,
{
}

impl SongSection {
    pub fn new(length_bars: u8) -> (r: Self)
        ensures
            r@ == fresh_section(length_bars),
    {
        SongSection {
            pattern_assignments: HashMap::new(),
            length_bars,
            repeat_count: 1,
            name: String::new(),
        }
    }

    /// Set pattern for a track in this section
    pub fn set_pattern(&mut self, track_id: u64, pattern_idx: usize)
        ensures
            final(self)@ == with_pattern(old(self)@, track_id, pattern_idx),
    {
        self.pattern_assignments.insert(track_id, pattern_idx);
    }

    /// Get pattern index for a track (defaults to 0)
    pub fn get_pattern(&self, track_id: u64) -> (r: usize)
        ensures
            r == assigned_pattern(self@, track_id),
    {
        match self.pattern_assignments.get(&track_id) {
            Some(p) => *p,
            None => 0,
        }
    }

    /// Total bars including repeats
    pub fn total_bars(&self) -> (r: u32)
        ensures
            r == section_bars(self@),
    {
        let reps: u32 = if self.repeat_count >= 1 {
            self.repeat_count as u32
        } else {
            1
        };
        assert((self.length_bars as u32) * reps <= 255 * 255) by (nonlinear_arith)
            requires
                reps <= 255,
        ;
        self.length_bars as u32 * reps
    }
}

/// Playback mode
#[derive(Debug, Clone, Copy, PartialEq, Eq, Structural)]
pub enum PlaybackMode {
    /// Play single pattern in loop
    Pattern,
    /// Play through song arrangement
    Song,
}

impl Default for PlaybackMode {
    fn default() -> (r: Self)
        ensures
            r == PlaybackMode::Pattern,
    {
        PlaybackMode::Pattern
    }
}

/// What a song arrangement holds.
pub struct SongArrangementView {
    pub sections: Seq<SongSectionView>,
    pub current_section: usize,
    pub current_repeat: u8,
    pub mode: PlaybackMode,
}

/// Song arrangement containing sections
#[derive(Debug)]
pub struct SongArrangement {
    /// Sections in playback order
    pub sections: Vec<SongSection>,
    /// Current section index during playback
    pub current_section: usize,
    /// Current repeat index within section
    pub current_repeat: u8,
    /// Playback mode
    pub mode: PlaybackMode,
}

/// The views of a list of sections.
pub open spec fn sections_view(s: Seq<SongSection>) -> Seq<SongSectionView> {
    s.map_values(|x: SongSection| x@)
}

impl View for SongArrangement {
    type V = SongArrangementView;

    open spec fn view(&self) -> SongArrangementView {
        SongArrangementView {
            sections: sections_view(self.sections@),
            current_section: self.current_section,
            current_repeat: self.current_repeat,
            mode: self.mode,
        }
    }
}

/// The bars of the first `n` sections, repeats included.
pub open spec fn bars_before(sections: Seq<SongSectionView>, n: int) -> nat
    decreases n,
{
    if n <= 0 || sections.len() == 0 {
        0
    } else if n > sections.len() {
        bars_before(sections, sections.len() as int)
    } else {
        bars_before(sections, n - 1) + section_bars(sections[n - 1])
    }
}

/// The bars of the whole song, repeats included.
pub open spec fn song_bars(sections: Seq<SongSectionView>) -> nat {
    bars_before(sections, sections.len() as int)
}

/// Section `i` exists and bar `bar` falls within its span.
pub open spec fn in_section_span(sections: Seq<SongSectionView>, bar: int, i: int) -> bool {
    0 <= i < sections.len() && bars_before(sections, i) <= bar < bars_before(sections, i + 1)
}

/// The section that contains bar `bar`, if the song is that long.
pub open spec fn section_index_at_bar(sections: Seq<SongSectionView>, bar: int) -> Option<int> {
    if exists|i: int| #[trigger] in_section_span(sections, bar, i) {
        Some(choose|i: int| #[trigger] in_section_span(sections, bar, i))
    } else {
        None
    }
}

/// The arrangement of a new song: one fresh four-bar section, at its start, in
/// pattern mode.
pub open spec fn new_song() -> SongArrangementView {
    SongArrangementView {
        sections: seq![fresh_section(4)],
        current_section: 0,
        current_repeat: 0,
        mode: PlaybackMode::Pattern,
    }
}

/// Where playback goes after the current section (or repeat) ends: the next
/// repeat of the section if it has one left, else the first repeat of the next
/// section. Nothing moves when the current section does not exist.
pub open spec fn advanced(a: SongArrangementView) -> SongArrangementView {
    if a.current_section >= a.sections.len() {
        a
    } else if a.current_repeat + 1 < a.sections[a.current_section as int].repeat_count {
        SongArrangementView { current_repeat: (a.current_repeat + 1) as u8, ..a }
    } else {
        SongArrangementView {
            current_repeat: 0,
            current_section: (a.current_section + 1) as usize,
            ..a
        }
    }
}

proof fn lemma_bars_before_step(sections: Seq<SongSectionView>, n: int)
    requires
        0 <= n < sections.len(),
    ensures
        bars_before(sections, n + 1) == bars_before(sections, n) + section_bars(sections[n]),
{
}

/// The prefix sums of section lengths never decrease.
proof fn lemma_bars_before_monotone(sections: Seq<SongSectionView>, i: int, j: int)
    requires
        0 <= i <= j <= sections.len(),
    ensures
        bars_before(sections, i) <= bars_before(sections, j),
    decreases j - i,
{
    if i < j {
        lemma_bars_before_monotone(sections, i, j - 1);
        lemma_bars_before_step(sections, j - 1);
    }
}

/// Bar positions fall in exactly one section: the section found for a bar is
/// the only one whose span holds it.
pub proof fn lemma_section_span_unique(sections: Seq<SongSectionView>, bar: int, i: int, k: int)
    requires
        0 <= i < sections.len(),
        0 <= k < sections.len(),
        bars_before(sections, i) <= bar < bars_before(sections, i + 1),
        bars_before(sections, k) <= bar < bars_before(sections, k + 1),
    ensures
        i == k,
{
    if i < k {
        lemma_bars_before_monotone(sections, i + 1, k);
    } else if k < i {
        lemma_bars_before_monotone(sections, k + 1, i);
    }
}

/// A bar before the end of the song lies in some section, and a bar at or after
/// the end lies in none.
pub proof fn lemma_section_at_bar_total(sections: Seq<SongSectionView>, bar: int)
    requires
        0 <= bar,
    ensures
        section_index_at_bar(sections, bar) is Some <==> bar < song_bars(sections),
{
    if bar < song_bars(sections) {
        lemma_exists_span(sections, bar, sections.len() as int);
    } else {
        if exists|i: int| #[trigger] in_section_span(sections, bar, i) {
            let i = choose|i: int| #[trigger] in_section_span(sections, bar, i);
            lemma_bars_before_monotone(sections, i + 1, sections.len() as int);
        }
    }
}

proof fn lemma_exists_span(sections: Seq<SongSectionView>, bar: int, n: int)
    requires
        0 <= bar < bars_before(sections, n),
        0 <= n <= sections.len(),
    ensures
        exists|i: int| 0 <= i < n && #[trigger] in_section_span(sections, bar, i),
    decreases n,
{
    if n > 0 {
        lemma_bars_before_step(sections, n - 1);
        if bar < bars_before(sections, n - 1) {
            lemma_exists_span(sections, bar, n - 1);
        } else {
            assert(in_section_span(sections, bar, n - 1));
        }
    }
}

impl Default for SongArrangement {
    fn default() -> (r: Self)
        ensures
            r@ == new_song(),
    {
        let mut sections: Vec<SongSection> = Vec::new();
        sections.push(SongSection::default());
        let r = SongArrangement {
            sections,
            current_section: 0,
            current_repeat: 0,
            mode: PlaybackMode::Pattern,
        };
        assert(r@.sections =~= seq![fresh_section(4)]);
        r
    }
}

/// How many times a section is played in a row: its repeat count, at least once.
pub open spec fn plays(s: SongSectionView) -> nat {
    if s.repeat_count >= 1 {
        s.repeat_count as nat
    } else {
        1nat
    }
}

/// The plays of the sections from `i` on.
pub open spec fn plays_from(sections: Seq<SongSectionView>, i: int) -> nat
    decreases sections.len() - i,
{
    if i < 0 || i >= sections.len() {
        0
    } else {
        plays(sections[i]) + plays_from(sections, i + 1)
    }
}

/// The bars of the sections from `i` on.
pub open spec fn bars_from(sections: Seq<SongSectionView>, i: int) -> nat
    decreases sections.len() - i,
{
    if i < 0 || i >= sections.len() {
        0
    } else {
        section_bars(sections[i]) + bars_from(sections, i + 1)
    }
}

/// The playback position names a repeat that the current section has (or the
/// song is over).
pub open spec fn position_valid(a: SongArrangementView) -> bool {
    a.current_section < a.sections.len() ==> a.current_repeat < plays(a.sections[a.current_section as int])
}

/// The plays left, counting the current one.
pub open spec fn remaining_plays(a: SongArrangementView) -> int {
    if a.current_section >= a.sections.len() {
        0
    } else {
        plays_from(a.sections, a.current_section as int) - a.current_repeat
    }
}

/// The bars left to play, counting the current play.
pub open spec fn remaining_bars(a: SongArrangementView) -> int {
    if a.current_section >= a.sections.len() {
        0
    } else {
        bars_from(a.sections, a.current_section as int) - a.current_repeat * a.sections[a.current_section as int].length_bars
    }
}

proof fn lemma_plays_from_positive(sections: Seq<SongSectionView>, i: int)
    requires
        0 <= i < sections.len(),
    ensures
        plays_from(sections, i) >= 1,
{
}

/// Each call of `advance` moves playback on by one play of a section: one play
/// fewer is left, the bars of that play are done, the position stays valid,
/// and the song goes on exactly when a play is still left.
pub proof fn lemma_advance_one_play(a: SongArrangementView)
    requires
        position_valid(a),
        a.current_section < a.sections.len(),
        a.sections.len() <= usize::MAX,
    ensures
        position_valid(advanced(a)),
        remaining_plays(advanced(a)) == remaining_plays(a) - 1,
        remaining_bars(advanced(a)) == remaining_bars(a) - a.sections[a.current_section as int].length_bars,
        (advanced(a).current_section < advanced(a).sections.len()) == (remaining_plays(a) > 1),
{
    let c = a.current_section as int;
    let sec = a.sections[c];
    let r = a.current_repeat as int;
    let len = sec.length_bars as int;
    let p = plays(sec) as int;
    assert(section_bars(sec) == len * p);
    if a.current_repeat + 1 < sec.repeat_count {
        assert((r + 1) * len == r * len + len) by (nonlinear_arith);
    } else {
        assert(r == p - 1);
        assert(len * p - r * len == len) by (nonlinear_arith)
            requires
                r == p - 1,
        ;
        assert(plays_from(a.sections, c) == p + plays_from(a.sections, c + 1));
        assert(bars_from(a.sections, c) == len * p + bars_from(a.sections, c + 1));
        if c + 1 < a.sections.len() {
            lemma_plays_from_positive(a.sections, c + 1);
        } else {
            assert(plays_from(a.sections, c + 1) == 0);
            assert(bars_from(a.sections, c + 1) == 0);
        }
    }
}

proof fn lemma_bars_split(sections: Seq<SongSectionView>, i: int)
    requires
        0 <= i <= sections.len(),
    ensures
        bars_before(sections, i) + bars_from(sections, i) == song_bars(sections),
    decreases sections.len() - i,
{
    if i < sections.len() {
        lemma_bars_split(sections, i + 1);
        lemma_bars_before_step(sections, i);
    }
}

/// From the start of a song, the bars left to play are the song's total bars,
/// and the position is valid.
pub proof fn lemma_song_start(a: SongArrangementView)
    requires
        a.current_section == 0,
        a.current_repeat == 0,
    ensures
        remaining_bars(a) == song_bars(a.sections),
        position_valid(a),
        a.sections.len() > 0 ==> remaining_plays(a) == plays_from(a.sections, 0),
{
    lemma_bars_split(a.sections, 0);
}

/// The arrangement after `k` calls of `advance`.
pub open spec fn advanced_times(a: SongArrangementView, k: nat) -> SongArrangementView
    decreases k,
{
    if k == 0 {
        a
    } else {
        advanced(advanced_times(a, (k - 1) as nat))
    }
}

/// What `advance` returns on the arrangement `a`: whether the song goes on.
pub open spec fn advance_returns(a: SongArrangementView) -> bool {
    a.current_section < a.sections.len() && advanced(a).current_section < advanced(a).sections.len()
}

proof fn lemma_run_prefix(a: SongArrangementView, k: nat)
    requires
        position_valid(a),
        a.current_section < a.sections.len(),
        a.sections.len() <= usize::MAX,
        k < remaining_plays(a),
    ensures
        advanced_times(a, k).sections == a.sections,
        position_valid(advanced_times(a, k)),
        advanced_times(a, k).current_section < a.sections.len(),
        remaining_plays(advanced_times(a, k)) == remaining_plays(a) - k,
    decreases k,
{
    if k > 0 {
        lemma_run_prefix(a, (k - 1) as nat);
        lemma_advance_one_play(advanced_times(a, (k - 1) as nat));
    }
}

proof fn lemma_run_end(a: SongArrangementView, k: nat)
    requires
        position_valid(a),
        a.current_section < a.sections.len(),
        a.sections.len() <= usize::MAX,
        k >= remaining_plays(a),
    ensures
        advanced_times(a, k).sections == a.sections,
        advanced_times(a, k).current_section == a.sections.len(),
    decreases k,
{
    let n = remaining_plays(a);
    lemma_plays_from_positive(a.sections, a.current_section as int);
    if k == n {
        lemma_run_prefix(a, (k - 1) as nat);
        lemma_advance_one_play(advanced_times(a, (k - 1) as nat));
    } else {
        lemma_run_end(a, (k - 1) as nat);
    }
}

/// Playing a song through from a valid position: `advance` returns true once
/// for each play left after the current one, then false, and playback has
/// then left the song (no current section); every later call returns false
/// and moves nothing. From the start of a song the plays are the sum over
/// the sections of their repeat counts, counting 0 as 1.
pub proof fn lemma_advance_run(a: SongArrangementView, k: nat)
    requires
        position_valid(a),
        a.current_section < a.sections.len(),
        a.sections.len() <= usize::MAX,
    ensures
        advance_returns(advanced_times(a, k)) <==> k < remaining_plays(a) - 1,
        k >= remaining_plays(a) ==> advanced_times(a, k).current_section == a.sections.len(),
        k >= remaining_plays(a) ==> advanced_times(a, k + 1) == advanced_times(a, k),
        a.current_section == 0 && a.current_repeat == 0 ==> remaining_plays(a) == plays_from(
            a.sections,
            0,
        ),
{
    let n = remaining_plays(a);
    lemma_plays_from_positive(a.sections, a.current_section as int);
    if k < n {
        lemma_run_prefix(a, k);
        lemma_advance_one_play(advanced_times(a, k));
    } else {
        lemma_run_end(a, k);
    }
    if k >= n {
        assert(advanced_times(a, k + 1) == advanced(advanced_times(a, k)));
    }
}

impl SongArrangement {
    pub fn new() -> (r: Self)
        ensures
            r@ == new_song(),
    {
        Self::default()
    }

    /// Add a new section at the end
    pub fn add_section(&mut self, section: SongSection)
        ensures
            final(self)@ == (SongArrangementView {
                sections: old(self)@.sections.push(section@),
                ..old(self)@
            }),
    {
        self.sections.push(section);
        assert(self@.sections =~= old(self)@.sections.push(section@));
    }

    /// Insert section at index (at the end when the index is past it)
    pub fn insert_section(&mut self, index: usize, section: SongSection)
        ensures
            final(self)@ == (SongArrangementView {
                sections: old(self)@.sections.insert(
                    if index <= old(self)@.sections.len() {
                        index as int
                    } else {
                        old(self)@.sections.len() as int
                    },
                    section@,
                ),
                ..old(self)@
            }),
    {
        let idx = if index < self.sections.len() {
            index
        } else {
            self.sections.len()
        };
        self.sections.insert(idx, section);
        assert(self@.sections =~= old(self)@.sections.insert(idx as int, section@));
    }

    /// Remove section at index; the last remaining section is never removed
    pub fn remove_section(&mut self, index: usize) -> (r: Option<SongSection>)
        ensures
            index < old(self)@.sections.len() && old(self)@.sections.len() > 1 ==> {
                &&& r matches Some(s) && s@ == old(self)@.sections[index as int]
                &&& final(self)@ == (SongArrangementView {
                    sections: old(self)@.sections.remove(index as int),
                    ..old(self)@
                })
            },
            !(index < old(self)@.sections.len() && old(self)@.sections.len() > 1) ==> r is None
                && final(self)@ == old(self)@,
    {
        if index >= self.sections.len() || self.sections.len() <= 1 {
            return None;
        }
        let s = self.sections.remove(index);
        assert(self@.sections =~= old(self)@.sections.remove(index as int));
        Some(s)
    }

    /// Get current section
    pub fn current(&self) -> (r: Option<&SongSection>)
        ensures
            self.current_section < self.sections@.len() ==> (r matches Some(s) && s@
                == self@.sections[self.current_section as int]),
            self.current_section >= self.sections@.len() ==> r is None,
    {
        if self.current_section < self.sections.len() {
            Some(&self.sections[self.current_section])
        } else {
            None
        }
    }

    /// Get mutable current section
    pub fn current_mut(&mut self) -> (r: Option<&mut SongSection>)
        ensures
            old(self).current_section < old(self).sections@.len() ==> (r matches Some(s) && *s
                == old(self).sections@[old(self).current_section as int] && final(self).sections@
                == old(self).sections@.update(old(self).current_section as int, *final(s))),
            old(self).current_section >= old(self).sections@.len() ==> r is None
                && final(self).sections@ == old(self).sections@,
            final(self).current_section == old(self).current_section,
            final(self).current_repeat == old(self).current_repeat,
            final(self).mode == old(self).mode,
    {
        if self.current_section < self.sections.len() {
            let i = self.current_section;
            Some(&mut self.sections[i])
        } else {
            None
        }
    }

    /// Advance to next section/repeat, returns true if song continues
    pub fn advance(&mut self) -> (r: bool)
        requires
            old(self).current_section < old(self).sections@.len() ==> old(self).current_repeat
                < u8::MAX,
        ensures
            final(self)@ == advanced(old(self)@),
            r == (old(self).current_section < old(self).sections@.len()
                && final(self).current_section < final(self).sections@.len()),
    {
        if self.current_section >= self.sections.len() {
            return false;
        }
        let repeat_count = self.sections[self.current_section].repeat_count;
        if self.current_repeat + 1 < repeat_count {
            self.current_repeat = self.current_repeat + 1;
            return true;
        }
        self.current_repeat = 0;
        self.current_section = self.current_section + 1;
        self.current_section < self.sections.len()
    }

    /// Reset to beginning
    pub fn reset(&mut self)
        ensures
            final(self)@ == (SongArrangementView {
                current_section: 0,
                current_repeat: 0,
                ..old(self)@
            }),
    {
        self.current_section = 0;
        self.current_repeat = 0;
    }

    /// Total length in bars
    pub fn total_bars(&self) -> (r: u32)
        requires
            song_bars(self@.sections) <= u32::MAX,
        ensures
            r == song_bars(self@.sections),
    {
        let mut total: u32 = 0;
        for i in 0..self.sections.len()
            invariant
                total == bars_before(self@.sections, i as int),
                song_bars(self@.sections) <= u32::MAX,
        {
            proof {
                lemma_bars_before_step(self@.sections, i as int);
                lemma_bars_before_monotone(self@.sections, i + 1, self@.sections.len() as int);
            }
            let b = self.sections[i].total_bars();
            total = total + b;
        }
        total
    }

    /// Get section at bar position, with its index
    pub fn section_at_bar(&self, bar: u32) -> (r: Option<(usize, &SongSection)>)
        ensures
            match r {
                Some((i, s)) => section_index_at_bar(self@.sections, bar as int) == Some(i as int)
                    && i < self@.sections.len() && s@ == self@.sections[i as int],
                None => section_index_at_bar(self@.sections, bar as int) is None,
            },
    {
        let mut accumulated: u64 = 0;
        for idx in 0..self.sections.len()
            invariant
                accumulated == bars_before(self@.sections, idx as int),
                accumulated <= bar,
        {
            proof {
                lemma_bars_before_step(self@.sections, idx as int);
            }
            let section_bars = self.sections[idx].total_bars() as u64;
            if (bar as u64) < accumulated + section_bars {
                proof {
                    let sv = self@.sections;
                    let i = idx as int;
                    assert(in_section_span(sv, bar as int, i));
                    assert forall|k: int| #[trigger] in_section_span(sv, bar as int, k) implies k == i by {
                        lemma_section_span_unique(sv, bar as int, i, k);
                    }
                }
                return Some((idx, &self.sections[idx]));
            }
            accumulated = accumulated + section_bars;
        }
        proof {
            lemma_section_at_bar_total(self@.sections, bar as int);
        }
        None
    }

    /// Copy section `from` over section `to` (nothing happens for an index out of range)
    pub fn copy_section(&mut self, from: usize, to: usize)
        ensures
            from < old(self)@.sections.len() && to < old(self)@.sections.len() ==> final(self)@
                == (SongArrangementView {
                sections: old(self)@.sections.update(to as int, old(self)@.sections[from as int]),
                ..old(self)@
            }),
            !(from < old(self)@.sections.len() && to < old(self)@.sections.len())
                ==> final(self)@ == old(self)@,
    {
        if from >= self.sections.len() || to >= self.sections.len() {
            return ;
        }
        let copy = self.sections[from].clone();
        self.sections.set(to, copy);
        assert(self@.sections =~= old(self)@.sections.update(to as int, old(self)@.sections[from as int]));
    }

    /// Duplicate section (insert copy after original; nothing happens for an
    /// index out of range)
    pub fn duplicate_section(&mut self, index: usize)
        ensures
            index < old(self)@.sections.len() ==> final(self)@ == (SongArrangementView {
                sections: old(self)@.sections.insert(index + 1, old(self)@.sections[index as int]),
                ..old(self)@
            }),
            index >= old(self)@.sections.len() ==> final(self)@ == old(self)@,
    {
        if index >= self.sections.len() {
            return ;
        }
        let copy = self.sections[index].clone();
        self.sections.insert(index + 1, copy);
        assert(self@.sections =~= old(self)@.sections.insert(index + 1, old(self)@.sections[index as int]));
    }
}

} // verus!
