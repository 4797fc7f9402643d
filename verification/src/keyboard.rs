//! Computer-keyboard playing: the piano-roll key map, the step sequencer's
//! cursor movement, and editing its drum steps.

use vstd::arithmetic::power2::{lemma2_to64, lemma_pow2_unfold, pow2};
use vstd::bits::lemma_u16_shl_is_mul;
use vstd::prelude::*;

use crate::sequencer::{layer_mask, next_row, prev_row, DrumStep, SequencerRow};

verus! {

// ---------------------------------------------------------------------------
// Piano roll key map
// ---------------------------------------------------------------------------

/// The pitch a key plays at keyboard octave 0: the bottom letter row Z..M and
/// the keys S D G H J between them play C3 (48) to B3; the top row Q..P with the
/// number keys 2 3 5 6 7 9 0 play C4 (60) to E5 (76).
pub open spec fn key_base_pitch(key: char) -> Option<int> {
    if key == 'Z' {
        Some(48)
    } else if key == 'S' {
        Some(49)
    } else if key == 'X' {
        Some(50)
    } else if key == 'D' {
        Some(51)
    } else if key == 'C' {
        Some(52)
    } else if key == 'V' {
        Some(53)
    } else if key == 'G' {
        Some(54)
    } else if key == 'B' {
        Some(55)
    } else if key == 'H' {
        Some(56)
    } else if key == 'N' {
        Some(57)
    } else if key == 'J' {
        Some(58)
    } else if key == 'M' {
        Some(59)
    } else if key == 'Q' {
        Some(60)
    } else if key == '2' {
        Some(61)
    } else if key == 'W' {
        Some(62)
    } else if key == '3' {
        Some(63)
    } else if key == 'E' {
        Some(64)
    } else if key == 'R' {
        Some(65)
    } else if key == '5' {
        Some(66)
    } else if key == 'T' {
        Some(67)
    } else if key == '6' {
        Some(68)
    } else if key == 'Y' {
        Some(69)
    } else if key == '7' {
        Some(70)
    } else if key == 'U' {
        Some(71)
    } else if key == 'I' {
        Some(72)
    } else if key == '9' {
        Some(73)
    } else if key == 'O' {
        Some(74)
    } else if key == '0' {
        Some(75)
    } else if key == 'P' {
        Some(76)
    } else {
        None
    }
}

/// The pitch a key plays with the keyboard shifted by `octave` octaves, if the
/// key is mapped and the pitch is a MIDI note.
pub open spec fn key_pitch(key: char, octave: i8) -> Option<u8> {
    match key_base_pitch(key) {
        Some(p) => {
            let pitch = p + (octave as int) * 12;
            if 0 <= pitch <= 127 {
                Some(pitch as u8)
            } else {
                None
            }
        },
        None => None,
    }
}

/// The playing keys in the order of the piano keys they stand for: the bottom
/// letter row with the keys above it, then the top letter row with the number
/// keys above it.
pub open spec fn piano_key_order() -> Seq<char> {
    seq![
        'Z', 'S', 'X', 'D', 'C', 'V', 'G', 'B', 'H', 'N', 'J', 'M',
        'Q', '2', 'W', '3', 'E', 'R', '5', 'T', '6', 'Y', '7', 'U', 'I', '9', 'O', '0', 'P',
    ]
}

/// The key map is a piano layout: along `piano_key_order` the pitches rise by one
/// semitone per key from C3 (48), and a keyboard octave shift moves every key by
/// twelve semitones, as long as the pitch stays a MIDI note.
pub proof fn lemma_key_layout(i: int, octave: i8)
    requires
        0 <= i < piano_key_order().len(),
    ensures
        piano_key_order().len() == 29,
        key_base_pitch(piano_key_order()[i]) == Some(48 + i),
        key_pitch(piano_key_order()[i], octave) == if 0 <= 48 + i + (octave as int) * 12 <= 127 {
            Some((48 + i + (octave as int) * 12) as u8)
        } else {
            None
        },
{
    let o = piano_key_order();
    if i == 0 {
        assert(o[0] == 'Z');
    } else if i == 1 {
        assert(o[1] == 'S');
    } else if i == 2 {
        assert(o[2] == 'X');
    } else if i == 3 {
        assert(o[3] == 'D');
    } else if i == 4 {
        assert(o[4] == 'C');
    } else if i == 5 {
        assert(o[5] == 'V');
    } else if i == 6 {
        assert(o[6] == 'G');
    } else if i == 7 {
        assert(o[7] == 'B');
    } else if i == 8 {
        assert(o[8] == 'H');
    } else if i == 9 {
        assert(o[9] == 'N');
    } else if i == 10 {
        assert(o[10] == 'J');
    } else if i == 11 {
        assert(o[11] == 'M');
    } else if i == 12 {
        assert(o[12] == 'Q');
    } else if i == 13 {
        assert(o[13] == '2');
    } else if i == 14 {
        assert(o[14] == 'W');
    } else if i == 15 {
        assert(o[15] == '3');
    } else if i == 16 {
        assert(o[16] == 'E');
    } else if i == 17 {
        assert(o[17] == 'R');
    } else if i == 18 {
        assert(o[18] == '5');
    } else if i == 19 {
        assert(o[19] == 'T');
    } else if i == 20 {
        assert(o[20] == '6');
    } else if i == 21 {
        assert(o[21] == 'Y');
    } else if i == 22 {
        assert(o[22] == '7');
    } else if i == 23 {
        assert(o[23] == 'U');
    } else if i == 24 {
        assert(o[24] == 'I');
    } else if i == 25 {
        assert(o[25] == '9');
    } else if i == 26 {
        assert(o[26] == 'O');
    } else if i == 27 {
        assert(o[27] == '0');
    } else {
        assert(o[28] == 'P');
    }
}

/// Only the keys of `piano_key_order` play a note; every other key plays none.
pub proof fn lemma_unmapped_keys(key: char, octave: i8)
    requires
        !piano_key_order().contains(key),
    ensures
        key_base_pitch(key) is None,
        key_pitch(key, octave) is None,
{
    let o = piano_key_order();
    if key == 'Z' {
        assert(o[0] == key);
    } else if key == 'S' {
        assert(o[1] == key);
    } else if key == 'X' {
        assert(o[2] == key);
    } else if key == 'D' {
        assert(o[3] == key);
    } else if key == 'C' {
        assert(o[4] == key);
    } else if key == 'V' {
        assert(o[5] == key);
    } else if key == 'G' {
        assert(o[6] == key);
    } else if key == 'B' {
        assert(o[7] == key);
    } else if key == 'H' {
        assert(o[8] == key);
    } else if key == 'N' {
        assert(o[9] == key);
    } else if key == 'J' {
        assert(o[10] == key);
    } else if key == 'M' {
        assert(o[11] == key);
    } else if key == 'Q' {
        assert(o[12] == key);
    } else if key == '2' {
        assert(o[13] == key);
    } else if key == 'W' {
        assert(o[14] == key);
    } else if key == '3' {
        assert(o[15] == key);
    } else if key == 'E' {
        assert(o[16] == key);
    } else if key == 'R' {
        assert(o[17] == key);
    } else if key == '5' {
        assert(o[18] == key);
    } else if key == 'T' {
        assert(o[19] == key);
    } else if key == '6' {
        assert(o[20] == key);
    } else if key == 'Y' {
        assert(o[21] == key);
    } else if key == '7' {
        assert(o[22] == key);
    } else if key == 'U' {
        assert(o[23] == key);
    } else if key == 'I' {
        assert(o[24] == key);
    } else if key == '9' {
        assert(o[25] == key);
    } else if key == 'O' {
        assert(o[26] == key);
    } else if key == '0' {
        assert(o[27] == key);
    } else if key == 'P' {
        assert(o[28] == key);
    }
}

/// Map a keyboard key (named by the character on it) to a MIDI pitch, with
/// the keyboard shifted by `octave` octaves.
pub fn key_to_pitch(key: char, octave: i8) -> (r: Option<u8>)
    ensures
        r == key_pitch(key, octave),
{
    let base_offset: i16 = octave as i16 * 12;
    let base_pitch: i16 = match key {
        'Z' => 48,
        'S' => 49,
        'X' => 50,
        'D' => 51,
        'C' => 52,
        'V' => 53,
        'G' => 54,
        'B' => 55,
        'H' => 56,
        'N' => 57,
        'J' => 58,
        'M' => 59,
        'Q' => 60,
        '2' => 61,
        'W' => 62,
        '3' => 63,
        'E' => 64,
        'R' => 65,
        '5' => 66,
        'T' => 67,
        '6' => 68,
        'Y' => 69,
        '7' => 70,
        'U' => 71,
        'I' => 72,
        '9' => 73,
        'O' => 74,
        '0' => 75,
        'P' => 76,
        _ => {
            return None;
        },
    };
    let pitch = base_pitch + base_offset;
    if 0 <= pitch && pitch <= 127 {
        Some(pitch as u8)
    } else {
        None
    }
}

/// The keyboard octave one lower, but not below -2.
pub fn octave_down(octave: i8) -> (r: i8)
    requires
        octave > i8::MIN,
    ensures
        r == if octave - 1 < -2 {
            -2
        } else {
            octave - 1
        },
{
    let lower = octave - 1;
    if lower < -2 {
        -2
    } else {
        lower
    }
}

/// The keyboard octave one higher, but not above 2.
pub fn octave_up(octave: i8) -> (r: i8)
    requires
        octave < i8::MAX,
    ensures
        r == if octave + 1 > 2 {
            2
        } else {
            octave + 1
        },
{
    let higher = octave + 1;
    if higher > 2 {
        2
    } else {
        higher
    }
}

// ---------------------------------------------------------------------------
// Sequencer cursor
// ---------------------------------------------------------------------------

/// Selection state for the sequencer grid
#[derive(Debug)]
pub struct SelectionState {
    /// Currently selected step index
    pub selected_step: Option<usize>,
    /// Which row is active for keyboard input
    pub active_row: SequencerRow,
    /// Active drum layer (synced when navigating to drum layer rows)
    pub active_drum_layer: usize,
    /// Multi-selected rows (for batch operations), in the order selected
    pub selected_rows: Vec<usize>,
    /// Multi-selected cells (row, step) for batch operations, in the order selected
    pub selected_cells: Vec<(usize, usize)>,
}

/// The drum layer to keep active after moving to `row`: the row's own layer
/// if it is a drum-layer row, else the previous one.
pub open spec fn synced_layer(row: SequencerRow, layer: usize) -> usize {
    match row {
        SequencerRow::DrumLayer(l) => l,
        _ => layer,
    }
}

/// Every row but `x`.
pub open spec fn other_than(x: usize) -> spec_fn(usize) -> bool {
    |z: usize| z != x
}

/// Every cell but `x`.
pub open spec fn other_cell_than(x: (usize, usize)) -> spec_fn((usize, usize)) -> bool {
    |z: (usize, usize)| z != x
}

/// A row selection with `x` toggled: taken out where it is in, else added last.
pub open spec fn toggled_rows(sel: Seq<usize>, x: usize) -> Seq<usize> {
    if sel.contains(x) {
        sel.filter(other_than(x))
    } else {
        sel.push(x)
    }
}

/// A cell selection with `x` toggled: taken out where it is in, else added last.
pub open spec fn toggled_cells(sel: Seq<(usize, usize)>, x: (usize, usize)) -> Seq<(usize, usize)> {
    if sel.contains(x) {
        sel.filter(other_cell_than(x))
    } else {
        sel.push(x)
    }
}

proof fn lemma_filter_push_row(s: Seq<usize>, y: usize, x: usize)
    ensures
        s.push(y).filter(other_than(x)) == if y != x {
            s.filter(other_than(x)).push(y)
        } else {
            s.filter(other_than(x))
        },
{
    reveal(Seq::filter);
    assert(s.push(y).drop_last() =~= s);
}

proof fn lemma_filter_push_cell(s: Seq<(usize, usize)>, y: (usize, usize), x: (usize, usize))
    ensures
        s.push(y).filter(other_cell_than(x)) == if y != x {
            s.filter(other_cell_than(x)).push(y)
        } else {
            s.filter(other_cell_than(x))
        },
{
    reveal(Seq::filter);
    assert(s.push(y).drop_last() =~= s);
}

fn toggle_row_selection(sel: &mut Vec<usize>, x: usize)
    ensures
        final(sel)@ == toggled_rows(old(sel)@, x),
{
    let n = sel.len();
    let mut kept: Vec<usize> = Vec::new();
    let mut found = false;
    for i in 0..n
        invariant
            n == sel@.len(),
            sel@ == old(sel)@,
            kept@ == sel@.take(i as int).filter(other_than(x)),
            found == sel@.take(i as int).contains(x),
    {
        proof {
            assert(sel@.take(i + 1) =~= sel@.take(i as int).push(sel@[i as int]));
            lemma_filter_push_row(sel@.take(i as int), sel@[i as int], x);
            if sel@.take(i as int).contains(x) {
                let k = choose|k: int| 0 <= k < i && #[trigger] sel@.take(i as int)[k] == x;
                assert(sel@.take(i + 1)[k] == x);
            }
            if sel@.take(i + 1).contains(x) && !sel@.take(i as int).contains(x) {
                let k = choose|k: int| 0 <= k < i + 1 && #[trigger] sel@.take(i + 1)[k] == x;
                if k < i {
                    assert(sel@.take(i as int)[k] == x);
                }
            }
            if sel@[i as int] == x {
                assert(sel@.take(i + 1)[i as int] == x);
            }
        }
        let c = sel[i];
        if c == x {
            found = true;
        } else {
            kept.push(c);
        }
    }
    assert(sel@.take(n as int) =~= sel@);
    if found {
        *sel = kept;
    } else {
        sel.push(x);
    }
}

fn toggle_cell_selection(sel: &mut Vec<(usize, usize)>, x: (usize, usize))
    ensures
        final(sel)@ == toggled_cells(old(sel)@, x),
{
    let n = sel.len();
    let mut kept: Vec<(usize, usize)> = Vec::new();
    let mut found = false;
    for i in 0..n
        invariant
            n == sel@.len(),
            sel@ == old(sel)@,
            kept@ == sel@.take(i as int).filter(other_cell_than(x)),
            found == sel@.take(i as int).contains(x),
    {
        proof {
            assert(sel@.take(i + 1) =~= sel@.take(i as int).push(sel@[i as int]));
            lemma_filter_push_cell(sel@.take(i as int), sel@[i as int], x);
            if sel@.take(i as int).contains(x) {
                let k = choose|k: int| 0 <= k < i && #[trigger] sel@.take(i as int)[k] == x;
                assert(sel@.take(i + 1)[k] == x);
            }
            if sel@.take(i + 1).contains(x) && !sel@.take(i as int).contains(x) {
                let k = choose|k: int| 0 <= k < i + 1 && #[trigger] sel@.take(i + 1)[k] == x;
                if k < i {
                    assert(sel@.take(i as int)[k] == x);
                }
            }
            if sel@[i as int] == x {
                assert(sel@.take(i + 1)[i as int] == x);
            }
        }
        let c = sel[i];
        if c.0 == x.0 && c.1 == x.1 {
            found = true;
        } else {
            kept.push(c);
        }
    }
    assert(sel@.take(n as int) =~= sel@);
    if found {
        *sel = kept;
    } else {
        sel.push(x);
    }
}

/// The step a selected cell lies on.
pub open spec fn step_of() -> spec_fn((usize, usize)) -> usize {
    |c: (usize, usize)| c.1
}

/// Whether a plain click on cell (`row`, `step`) sets layer `l` of step `s`:
/// the clicked cell and every selected cell are set.
pub open spec fn cell_hit(sel: Seq<(usize, usize)>, row: usize, step: usize, l: int, s: int) -> bool {
    (l == row && s == step) || sel.contains((l as usize, s as usize))
}

/// The drum steps `after` are `before` with every layer that `cell_hit` names
/// switched to `on`; samples and the steps' own switches stay.
pub open spec fn cells_set(
    before: Seq<DrumStep>,
    after: Seq<DrumStep>,
    sel: Seq<(usize, usize)>,
    row: usize,
    step: usize,
    on: bool,
) -> bool {
    &&& after.len() == before.len()
    &&& forall|s: int|
        #![trigger after[s]]
        0 <= s < before.len() ==> {
            &&& after[s].active == before[s].active
            &&& forall|l: int|
                #![trigger after[s].layers@[l]]
                0 <= l < 12 ==> after[s].layers@[l].sample_name == before[s].layers@[l].sample_name
                    && after[s].layers@[l].active == if cell_hit(sel, row, step, l, s) {
                    on
                } else {
                    before[s].layers@[l].active
                }
        }
}

/// The selected rows that a mute toggle on `row` carries along: other rows that
/// hold a sample.
pub open spec fn carried_rows(row: usize, has_sample: Seq<bool>) -> spec_fn(usize) -> bool {
    |z: usize| z != row && has_sample[z as int]
}

/// The row switches after toggling `row` to `on` together with the selected rows
/// that hold a sample.
pub open spec fn rows_set(before: Seq<bool>, sel: Seq<usize>, has_sample: Seq<bool>, row: usize, on: bool) -> Seq<bool> {
    Seq::new(
        before.len(),
        |l: int|
            if l == row || (sel.contains(l as usize) && has_sample[l]) {
                on
            } else {
                before[l]
            },
    )
}

proof fn lemma_filter_push_carried(s: Seq<usize>, y: usize, row: usize, has_sample: Seq<bool>)
    ensures
        s.push(y).filter(carried_rows(row, has_sample)) == if y != row && has_sample[y as int] {
            s.filter(carried_rows(row, has_sample)).push(y)
        } else {
            s.filter(carried_rows(row, has_sample))
        },
{
    reveal(Seq::filter);
    assert(s.push(y).drop_last() =~= s);
}

impl SelectionState {
    /// No step selected, the drum row active, layer 0, nothing multi-selected.
    pub fn new() -> (r: Self)
        ensures
            r.selected_step is None,
            r.active_row == SequencerRow::Drum,
            r.active_drum_layer == 0,
            r.selected_rows@ == Seq::<usize>::empty(),
            r.selected_cells@ == Seq::<(usize, usize)>::empty(),
    {
        SelectionState {
            selected_step: None,
            active_row: SequencerRow::Drum,
            active_drum_layer: 0,
            selected_rows: Vec::new(),
            selected_cells: Vec::new(),
        }
    }

    /// Tab (or Shift+Tab) moves to the next (previous) row; landing on a drum
    /// layer row makes its layer the active one.
    pub fn tab(&mut self, shift_held: bool, drum_expanded: bool)
        ensures
            final(self).active_row == if shift_held {
                prev_row(old(self).active_row, drum_expanded)
            } else {
                next_row(old(self).active_row, drum_expanded)
            },
            final(self).active_drum_layer == synced_layer(
                final(self).active_row,
                old(self).active_drum_layer,
            ),
            final(self).selected_step == old(self).selected_step,
            final(self).selected_rows@ == old(self).selected_rows@,
            final(self).selected_cells@ == old(self).selected_cells@,
    {
        self.active_row = if shift_held {
            self.active_row.prev(drum_expanded)
        } else {
            self.active_row.next(drum_expanded)
        };
        if let Some(layer) = self.active_row.drum_layer() {
            self.active_drum_layer = layer;
        }
    }

    /// Arrow keys with a step selected: left and right move the selected step
    /// within `0..drum_step_count` (right wins when both are held), up and down
    /// move to the previous and next row (up wins), keeping the active drum layer
    /// in step. Without a selected step nothing moves.
    pub fn arrows(
        &mut self,
        left: bool,
        right: bool,
        up: bool,
        down: bool,
        drum_step_count: usize,
        drum_expanded: bool,
    )
        requires
            right ==> (old(self).selected_step matches Some(s) ==> s < usize::MAX),
        ensures
            final(self).selected_rows@ == old(self).selected_rows@,
            final(self).selected_cells@ == old(self).selected_cells@,
            match old(self).selected_step {
                None => {
                    &&& final(self).selected_step == old(self).selected_step
                    &&& final(self).active_row == old(self).active_row
                    &&& final(self).active_drum_layer == old(self).active_drum_layer
                },
                Some(cur) => {
                    let max_step = if drum_step_count >= 1 {
                        drum_step_count - 1
                    } else {
                        0
                    };
                    &&& final(self).selected_step == if right {
                        Some(
                            if cur + 1 < max_step {
                                (cur + 1) as usize
                            } else {
                                max_step as usize
                            },
                        )
                    } else if left {
                        Some(
                            if cur >= 1 {
                                (cur - 1) as usize
                            } else {
                                0usize
                            },
                        )
                    } else {
                        Some(cur)
                    }
                    &&& final(self).active_row == if up {
                        prev_row(old(self).active_row, drum_expanded)
                    } else if down {
                        next_row(old(self).active_row, drum_expanded)
                    } else {
                        old(self).active_row
                    }
                    &&& final(self).active_drum_layer == if up || down {
                        synced_layer(final(self).active_row, old(self).active_drum_layer)
                    } else {
                        old(self).active_drum_layer
                    }
                },
            },
    {
        let current_step = match self.selected_step {
            Some(s) => s,
            None => {
                return ;
            },
        };
        let max_step = if drum_step_count >= 1 {
            drum_step_count - 1
        } else {
            0
        };
        if left {
            self.selected_step = Some(
                if current_step >= 1 {
                    current_step - 1
                } else {
                    0
                },
            );
        }
        if right {
            let next = current_step + 1;
            self.selected_step = Some(
                if next < max_step {
                    next
                } else {
                    max_step
                },
            );
        }
        let new_row = if up {
            Some(self.active_row.prev(drum_expanded))
        } else if down {
            Some(self.active_row.next(drum_expanded))
        } else {
            None
        };
        if let Some(row) = new_row {
            self.active_row = row;
            self.active_drum_layer = match row.drum_layer() {
                Some(l) => l,
                None => self.active_drum_layer,
            };
        }
    }
}

impl SelectionState {
    /// Switch `row` on or off (the opposite of what it is) together with every
    /// selected row that holds a sample; the rows changed, `row` first and the
    /// others in selection order.
    fn toggle_rows(&self, row_enabled: &mut [bool; 12], has_sample: &[bool; 12], row: usize) -> (r: Vec<
        usize,
    >)
        requires
            row < 12,
            forall|k: int| 0 <= k < self.selected_rows@.len() ==> #[trigger] self.selected_rows@[k] < 12,
        ensures
            final(row_enabled)@ == rows_set(
                old(row_enabled)@,
                self.selected_rows@,
                has_sample@,
                row,
                !old(row_enabled)@[row as int],
            ),
            r@ == seq![row] + self.selected_rows@.filter(carried_rows(row, has_sample@)),
    {
        let ghost before = row_enabled@;
        let on = !row_enabled[row];
        row_enabled[row] = on;
        let mut changed: Vec<usize> = Vec::new();
        changed.push(row);
        let sel = &self.selected_rows;
        let n = sel.len();
        for i in 0..n
            invariant
                n == sel@.len(),
                row < 12,
                on == !before[row as int],
                forall|k: int| 0 <= k < sel@.len() ==> #[trigger] sel@[k] < 12,
                row_enabled@ == rows_set(before, sel@.take(i as int), has_sample@, row, on),
                changed@ == seq![row] + sel@.take(i as int).filter(carried_rows(row, has_sample@)),
        {
            let ghost prev = sel@.take(i as int);
            proof {
                assert(sel@.take(i + 1) =~= prev.push(sel@[i as int]));
                lemma_filter_push_carried(prev, sel@[i as int], row, has_sample@);
            }
            let r2 = sel[i];
            if r2 != row && has_sample[r2] {
                row_enabled[r2] = on;
                changed.push(r2);
            }
            proof {
                assert forall|l: int| 0 <= l < 12 implies #[trigger] sel@.take(i + 1).contains(l as usize) == (
                prev.contains(l as usize) || r2 == l) by {
                    if prev.contains(l as usize) {
                        let k = choose|k: int| 0 <= k < prev.len() && #[trigger] prev[k] == l as usize;
                        assert(sel@.take(i + 1)[k] == l as usize);
                    }
                    if r2 == l {
                        assert(sel@.take(i + 1)[i as int] == l as usize);
                    }
                    if sel@.take(i + 1).contains(l as usize) {
                        let k = choose|k: int| 0 <= k < i + 1 && #[trigger] sel@.take(i + 1)[k] == l as usize;
                        if k < i {
                            assert(prev[k] == l as usize);
                        }
                    }
                }
                assert(row_enabled@ =~= rows_set(before, sel@.take(i + 1), has_sample@, row, on));
            }
        }
        assert(sel@.take(n as int) =~= sel@);
        changed
    }

    /// A click on a drum-layer row's sample box makes that row the active one.
    /// With Ctrl held it toggles the row's selection; otherwise, on a row that
    /// holds a sample, it mutes or unmutes the row together with the selected
    /// rows that hold samples and clears the selection. Returns the rows whose
    /// switch changed.
    pub fn click_row_sample(&mut self, row_enabled: &mut [bool; 12], has_sample: &[bool; 12], row: usize, ctrl: bool) -> (r: Vec<usize>)
        requires
            row < 12,
            !ctrl && has_sample@[row as int] ==> forall|k: int|
                0 <= k < old(self).selected_rows@.len() ==> #[trigger] old(self).selected_rows@[k] < 12,
        ensures
            final(self).active_drum_layer == row,
            final(self).active_row == SequencerRow::DrumLayer(row),
            final(self).selected_step == old(self).selected_step,
            final(self).selected_cells@ == old(self).selected_cells@,
            ctrl ==> final(self).selected_rows@ == toggled_rows(old(self).selected_rows@, row)
                && final(row_enabled)@ == old(row_enabled)@ && r@.len() == 0,
            !ctrl && has_sample@[row as int] ==> final(self).selected_rows@.len() == 0
                && final(row_enabled)@ == rows_set(
                old(row_enabled)@,
                old(self).selected_rows@,
                has_sample@,
                row,
                !old(row_enabled)@[row as int],
            ) && r@ == seq![row] + old(self).selected_rows@.filter(carried_rows(row, has_sample@)),
            !ctrl && !has_sample@[row as int] ==> final(self).selected_rows@ == old(self).selected_rows@
                && final(row_enabled)@ == old(row_enabled)@ && r@.len() == 0,
    {
        self.active_drum_layer = row;
        self.active_row = SequencerRow::DrumLayer(row);
        if ctrl {
            toggle_row_selection(&mut self.selected_rows, row);
            return Vec::new();
        }
        if !has_sample[row] {
            return Vec::new();
        }
        let changed = self.toggle_rows(row_enabled, has_sample, row);
        self.selected_rows = Vec::new();
        changed
    }

    /// A click on a cell of the expanded drum grid selects its step and makes
    /// its row the active one. With Ctrl held it toggles the cell's selection;
    /// otherwise the cell's layer switches to the opposite of what it is, every
    /// selected cell switches the same way, and the selection clears. Returns
    /// the steps whose cells changed, the clicked one first and the others in
    /// selection order.
    pub fn click_cell(&mut self, steps: &mut Vec<DrumStep>, row: usize, step: usize, ctrl: bool) -> (r: Vec<usize>)
        requires
            row < 12,
            step < old(steps)@.len(),
            !ctrl ==> forall|k: int|
                0 <= k < old(self).selected_cells@.len() ==> (#[trigger] old(self).selected_cells@[k]).0 < 12
                    && old(self).selected_cells@[k].1 < old(steps)@.len(),
        ensures
            final(self).selected_step == Some(step),
            final(self).active_drum_layer == row,
            final(self).active_row == SequencerRow::DrumLayer(row),
            final(self).selected_rows@ == old(self).selected_rows@,
            ctrl ==> final(self).selected_cells@ == toggled_cells(old(self).selected_cells@, (row, step))
                && final(steps)@ == old(steps)@ && r@.len() == 0,
            !ctrl ==> final(self).selected_cells@.len() == 0 && cells_set(
                old(steps)@,
                final(steps)@,
                old(self).selected_cells@,
                row,
                step,
                !old(steps)@[step as int].layers@[row as int].active,
            ) && r@ == seq![step] + old(self).selected_cells@.filter(other_cell_than((row, step))).map_values(
                step_of(),
            ),
    {
        self.selected_step = Some(step);
        self.active_drum_layer = row;
        self.active_row = SequencerRow::DrumLayer(row);
        if ctrl {
            toggle_cell_selection(&mut self.selected_cells, (row, step));
            return Vec::new();
        }
        let ghost before = steps@;
        assert(before.len() == steps.len());
        let on = !steps[step].layers[row].active;
        steps[step].layers[row].active = on;
        let mut changed: Vec<usize> = Vec::new();
        changed.push(step);
        let n = self.selected_cells.len();
        assert(cells_set(before, steps@, self.selected_cells@.take(0), row, step, on));
        for i in 0..n
            invariant
                n == self.selected_cells@.len(),
                self.selected_cells@ == old(self).selected_cells@,
                row < 12,
                step < before.len(),
                before.len() <= usize::MAX,
                on == !before[step as int].layers@[row as int].active,
                forall|k: int|
                    0 <= k < self.selected_cells@.len() ==> (#[trigger] self.selected_cells@[k]).0 < 12
                        && self.selected_cells@[k].1 < before.len(),
                cells_set(before, steps@, self.selected_cells@.take(i as int), row, step, on),
                changed@ == seq![step] + self.selected_cells@.take(i as int).filter(
                    other_cell_than((row, step)),
                ).map_values(step_of()),
        {
            let ghost sel = self.selected_cells@;
            let ghost prev = sel.take(i as int);
            proof {
                assert(sel.take(i + 1) =~= prev.push(sel[i as int]));
                lemma_filter_push_cell(prev, sel[i as int], (row, step));
            }
            let c = self.selected_cells[i];
            let ghost mid = steps@;
            if !(c.0 == row && c.1 == step) {
                steps[c.1].layers[c.0].active = on;
                changed.push(c.1);
                proof {
                    let f = prev.filter(other_cell_than((row, step)));
                    assert(f.push(c).map_values(step_of()) =~= f.map_values(step_of()).push(c.1));
                }
            } else {
                assert(c == (row, step));
            }
            proof {
                assert forall|l: int, s: int| 0 <= l < 12 && 0 <= s < before.len() implies #[trigger] cell_hit(
                    sel.take(i + 1),
                    row,
                    step,
                    l,
                    s,
                ) == (cell_hit(prev, row, step, l, s) || (l == c.0 && s == c.1)) by {
                    let x = (l as usize, s as usize);
                    if prev.contains(x) {
                        let k = choose|k: int| 0 <= k < prev.len() && #[trigger] prev[k] == x;
                        assert(sel.take(i + 1)[k] == x);
                    }
                    if l == c.0 && s == c.1 {
                        assert(sel.take(i + 1)[i as int] == x);
                    }
                    if sel.take(i + 1).contains(x) {
                        let k = choose|k: int| 0 <= k < i + 1 && #[trigger] sel.take(i + 1)[k] == x;
                        if k < i {
                            assert(prev[k] == x);
                        } else {
                            assert(x == c);
                        }
                    }
                }
                assert forall|s: int| 0 <= s < before.len() implies {
                    &&& (#[trigger] steps@[s]).active == before[s].active
                    &&& forall|l: int|
                        #![trigger steps@[s].layers@[l]]
                        0 <= l < 12 ==> steps@[s].layers@[l].sample_name == before[s].layers@[l].sample_name
                            && steps@[s].layers@[l].active == if cell_hit(sel.take(i + 1), row, step, l, s) {
                            on
                        } else {
                            before[s].layers@[l].active
                        }
                } by {
                    assert(mid[s].active == before[s].active);
                    assert forall|l: int| 0 <= l < 12 implies steps@[s].layers@[l].sample_name
                        == before[s].layers@[l].sample_name && steps@[s].layers@[l].active == if cell_hit(
                        sel.take(i + 1),
                        row,
                        step,
                        l,
                        s,
                    ) {
                        on
                    } else {
                        before[s].layers@[l].active
                    } by {
                        assert(mid[s].layers@[l].sample_name == before[s].layers@[l].sample_name);
                        assert(cell_hit(sel.take(i + 1), row, step, l, s) == (cell_hit(prev, row, step, l, s) || (l == c.0 && s == c.1)));
                    }
                }
            }
        }
        assert(self.selected_cells@.take(n as int) =~= self.selected_cells@);
        self.selected_cells = Vec::new();
        changed
    }

    /// "Mute"/"Unmute" from a row's menu: the row and the selected rows that
    /// hold samples switch together; the selection stays. Returns the rows whose
    /// switch changed.
    pub fn menu_toggle_row(&self, row_enabled: &mut [bool; 12], has_sample: &[bool; 12], row: usize) -> (r: Vec<usize>)
        requires
            row < 12,
            forall|k: int| 0 <= k < self.selected_rows@.len() ==> #[trigger] self.selected_rows@[k] < 12,
        ensures
            final(row_enabled)@ == rows_set(
                old(row_enabled)@,
                self.selected_rows@,
                has_sample@,
                row,
                !old(row_enabled)@[row as int],
            ),
            r@ == seq![row] + self.selected_rows@.filter(carried_rows(row, has_sample@)),
    {
        self.toggle_rows(row_enabled, has_sample, row)
    }
}

impl Default for SelectionState {
    fn default() -> (r: Self)
        ensures
            r.selected_step is None,
            r.active_row == SequencerRow::Drum,
            r.active_drum_layer == 0,
            r.selected_rows@ == Seq::<usize>::empty(),
            r.selected_cells@ == Seq::<(usize, usize)>::empty(),
    {
        Self::new()
    }
}

// ---------------------------------------------------------------------------
// Drum step editing
// ---------------------------------------------------------------------------

/// Toggle a drum step from the keyboard: on a drum-layer row the layer flips
/// and the step is on exactly when some layer is; on the drum row the step
/// itself flips; other rows leave it alone.
pub fn toggle_drum_step(steps: &mut Vec<DrumStep>, step: usize, row: SequencerRow)
    requires
        step < old(steps).len(),
        row matches SequencerRow::DrumLayer(l) ==> l < 12,
    ensures
        final(steps).len() == old(steps).len(),
        forall|i: int| 0 <= i < old(steps).len() && i != step ==> final(steps)@[i] == old(steps)@[i],
        match row {
            SequencerRow::DrumLayer(l) => {
                let before = old(steps)@[step as int];
                let after = final(steps)@[step as int];
                &&& after.layers@ == before.layers@.update(
                    l as int,
                    crate::sequencer::DrumLayer { active: !before.layers@[l as int].active, ..before.layers@[l as int] },
                )
                &&& after.active == (layer_mask(after.layers@, 12) != 0)
            },
            SequencerRow::Drum => final(steps)@[step as int] == (DrumStep {
                active: !old(steps)@[step as int].active,
                ..old(steps)@[step as int]
            }),
            _ => final(steps)@ == old(steps)@,
        },
{
    match row {
        SequencerRow::DrumLayer(layer) => {
            let flipped = !steps[step].layers[layer].active;
            steps[step].layers[layer].active = flipped;
            let mask = steps[step].active_layer_mask();
            steps[step].active = mask != 0;
        },
        SequencerRow::Drum => {
            let flipped = !steps[step].active;
            steps[step].active = flipped;
        },
        _ => {},
    }
}

/// Put a sample on one layer of a step: the layer gets the name and turns on,
/// and so does the step. Out-of-range positions change nothing.
pub fn set_step_sample_name(steps: &mut Vec<DrumStep>, step: usize, layer: usize, name: String)
    ensures
        final(steps).len() == old(steps).len(),
        step < old(steps).len() && layer < 12 ==> {
            let before = old(steps)@[step as int];
            let after = final(steps)@[step as int];
            &&& after.active
            &&& after.layers@ == before.layers@.update(
                layer as int,
                crate::sequencer::DrumLayer { sample_name: Some(name), active: true },
            )
            &&& forall|i: int| 0 <= i < old(steps).len() && i != step ==> final(steps)@[i] == old(steps)@[i]
        },
        !(step < old(steps).len() && layer < 12) ==> final(steps)@ == old(steps)@,
{
    if step < steps.len() && layer < 12 {
        steps[step].layers[layer].sample_name = Some(name);
        steps[step].layers[layer].active = true;
        steps[step].active = true;
    }
}

/// Take the sample off one layer of a step, turning the layer off; the step's
/// own switch stays. Out-of-range positions change nothing.
pub fn clear_step_sample_name(steps: &mut Vec<DrumStep>, step: usize, layer: usize)
    ensures
        final(steps).len() == old(steps).len(),
        step < old(steps).len() && layer < 12 ==> {
            let before = old(steps)@[step as int];
            let after = final(steps)@[step as int];
            &&& after.active == before.active
            &&& after.layers@ == before.layers@.update(
                layer as int,
                crate::sequencer::DrumLayer { sample_name: None, active: false },
            )
            &&& forall|i: int| 0 <= i < old(steps).len() && i != step ==> final(steps)@[i] == old(steps)@[i]
        },
        !(step < old(steps).len() && layer < 12) ==> final(steps)@ == old(steps)@,
{
    if step < steps.len() && layer < 12 {
        steps[step].layers[layer].sample_name = None;
        steps[step].layers[layer].active = false;
    }
}

/// Bit `i` set for each enabled row `i` among the first `n`.
pub open spec fn enabled_mask(rows: Seq<bool>, n: int) -> nat
    decreases n,
{
    if n <= 0 {
        0
    } else {
        enabled_mask(rows, n - 1) + if rows[n - 1] {
            pow2((n - 1) as nat)
        } else {
            0
        }
    }
}

proof fn lemma_enabled_mask_bound(rows: Seq<bool>, n: int)
    requires
        0 <= n,
    ensures
        enabled_mask(rows, n) < pow2(n as nat),
    decreases n,
{
    if n > 0 {
        lemma_enabled_mask_bound(rows, n - 1);
        lemma_pow2_unfold(n as nat);
    } else {
        lemma2_to64();
    }
}

/// The rows that play, as a bitmask (bit N = row N).
pub fn row_enabled_mask(row_enabled: &[bool; 12]) -> (r: u16)
    ensures
        r == enabled_mask(row_enabled@, 12),
{
    let mut mask: u16 = 0;
    for i in 0..12
        invariant
            mask == enabled_mask(row_enabled@, i as int),
    {
        proof {
            lemma2_to64();
            lemma_enabled_mask_bound(row_enabled@, i as int);
            lemma_u16_shl_is_mul(1, i as u16);
            lemma_pow2_unfold((i + 1) as nat);
        }
        if row_enabled[i] {
            let bit: u16 = 1u16 << (i as u16);
            assert(mask < (1u16 << (i as u16)) ==> (mask | (1u16 << (i as u16))) == mask + (1u16
                << (i as u16))) by (bit_vector)
                requires
                    i < 16,
            ;
            mask = mask | bit;
        }
    }
    mask
}

} // verus!
