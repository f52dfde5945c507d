//! Keyboard geometry: how wide each key is, how a frame's pixel columns are
//! shared out among the keys of a range, and which keys a frame shows pressed.
use vstd::prelude::*;

verus! {

/// Width of a whole key, in half-tone units.
pub const WHOLE_TONE_LEN: usize = 2;

/// Width of a half key, in half-tone units.
pub const HALF_TONE_LEN: usize = 1;

/// Physical width of a key in half-tone units. The layout repeats every octave
/// (12 semitones); note 21 is A0 and note 60 is middle C. The keys A, C, D, F
/// and G are whole (2 units); B, E and the five sharps are half (1 unit).
pub open spec fn key_weight(note: int) -> int {
    let r = note % 12;
    if r == 9 || r == 0 || r == 2 || r == 5 || r == 7 {
        2
    } else {
        1
    }
}

/// Total width, in half-tone units, of the `n` keys starting at `left`.
pub open spec fn range_units(left: int, n: nat) -> int
    decreases n,
{
    if n == 0 {
        0
    } else {
        range_units(left, (n - 1) as nat) + key_weight(left + n - 1)
    }
}

/// Sum of a sequence of integers.
pub open spec fn seq_sum(s: Seq<int>) -> int
    decreases s.len(),
{
    if s.len() == 0 {
        0
    } else {
        seq_sum(s.drop_last()) + s.last()
    }
}

/// Number of notes in the inclusive range `[left, right]`.
pub open spec fn range_len(left: int, right: int) -> nat {
    (right - left + 1) as nat
}

/// The pixel window widths of the notes `left..=right` on a frame that is
/// `pixel_width` columns wide: each note gets its weight times the whole
/// number of columns per half-tone unit. The remainder is left unassigned.
pub open spec fn partition(left: int, right: int, pixel_width: int) -> Seq<int> {
    let n = range_len(left, right);
    let per_unit = pixel_width / range_units(left, n);
    Seq::new(n, |i: int| key_weight(left + i) * per_unit)
}

/// Where the window of key `i` begins: right after the windows of the keys before it.
pub open spec fn window_start(widths: Seq<int>, i: int) -> int {
    seq_sum(widths.take(i))
}

/// Key `i` is pressed when every column of its window is in the foreground
/// (an empty window counts as pressed).
pub open spec fn window_pressed(columns: Seq<bool>, widths: Seq<int>, i: int) -> bool {
    let start = window_start(widths, i);
    forall|k: int| start <= k < start + widths[i] ==> #[trigger] columns[k]
}

/// The key state of a frame: one flag per window, windows taken left to
/// right without overlap.
pub open spec fn states_for_widths(columns: Seq<bool>, widths: Seq<int>) -> Seq<bool> {
    Seq::new(widths.len(), |i: int| window_pressed(columns, widths, i))
}

/// The key state of a frame for the notes `left..=right`, the frame being
/// given as one foreground flag per pixel column.
pub open spec fn key_states_spec(columns: Seq<bool>, left: int, right: int) -> Seq<bool> {
    states_for_widths(columns, partition(left, right, columns.len() as int))
}

/// A sequence of `usize` seen as integers.
pub open spec fn as_ints(s: Seq<usize>) -> Seq<int> {
    s.map_values(|x: usize| x as int)
}

proof fn lemma_key_weight_bounds(note: int)
    ensures
        1 <= key_weight(note) <= 2,
{
}

proof fn lemma_range_units_bounds(left: int, n: nat)
    ensures
        n <= range_units(left, n) <= 2 * n,
    decreases n,
{
    if n > 0 {
        lemma_range_units_bounds(left, (n - 1) as nat);
        lemma_key_weight_bounds(left + n - 1);
    }
}

proof fn lemma_range_units_contains(left: int, n: nat, j: int)
    requires
        0 <= j < n,
    ensures
        key_weight(left + j) <= range_units(left, n),
    decreases n,
{
    lemma_range_units_bounds(left, (n - 1) as nat);
    if j < n - 1 {
        lemma_range_units_contains(left, (n - 1) as nat, j);
    }
}

proof fn lemma_seq_sum_prefix_step(s: Seq<int>, i: int)
    requires
        0 <= i < s.len(),
    ensures
        seq_sum(s.take(i + 1)) == seq_sum(s.take(i)) + s[i],
{
    assert(s.take(i + 1).drop_last() =~= s.take(i));
}

proof fn lemma_seq_sum_prefix_le(s: Seq<int>, i: int)
    requires
        0 <= i <= s.len(),
        forall|k: int| 0 <= k < s.len() ==> s[k] >= 0,
    ensures
        seq_sum(s.take(i)) <= seq_sum(s),
    decreases s.len() - i,
{
    if i < s.len() {
        lemma_seq_sum_prefix_step(s, i);
        lemma_seq_sum_prefix_le(s, i + 1);
    } else {
        assert(s.take(i) =~= s);
    }
}

proof fn lemma_partition_prefix_sum(left: int, right: int, pixel_width: int, k: int)
    requires
        left <= right,
        0 <= k <= range_len(left, right),
    ensures
        seq_sum(partition(left, right, pixel_width).take(k)) == range_units(left, k as nat) * (
        pixel_width / range_units(left, range_len(left, right))),
    decreases k,
{
    let p = partition(left, right, pixel_width);
    let q = pixel_width / range_units(left, range_len(left, right));
    if k == 0 {
        assert(p.take(0) =~= Seq::<int>::empty());
    } else {
        lemma_partition_prefix_sum(left, right, pixel_width, k - 1);
        lemma_seq_sum_prefix_step(p, k - 1);
        let u = range_units(left, (k - 1) as nat);
        let w = key_weight(left + k - 1);
        assert(u * q + w * q == (u + w) * q) by (nonlinear_arith);
    }
}

/// The windows of a partition never cover more than the frame: their widths
/// add up to at most the pixel width (rounding may leave trailing columns
/// unassigned).
pub proof fn lemma_partition_within_width(left: int, right: int, pixel_width: int)
    requires
        left <= right,
        0 <= pixel_width,
    ensures
        seq_sum(partition(left, right, pixel_width)) <= pixel_width,
{
    let n = range_len(left, right);
    let p = partition(left, right, pixel_width);
    let units = range_units(left, n);
    lemma_range_units_bounds(left, n);
    lemma_partition_prefix_sum(left, right, pixel_width, n as int);
    assert(p.take(n as int) =~= p);
    let q = pixel_width / units;
    vstd::arithmetic::div_mod::lemma_fundamental_div_mod(pixel_width, units);
    assert(pixel_width % units >= 0) by {
        vstd::arithmetic::div_mod::lemma_mod_bound(pixel_width, units);
    }
    assert(units * q == q * units) by (nonlinear_arith);
}

/// The width of a key repeats every octave.
pub proof fn lemma_key_weight_periodic(note: int)
    ensures
        key_weight(note) == key_weight(note + 12),
{
    assert((note + 12) % 12 == note % 12);
}

/// Whether a note is a whole key (two half-tone units wide) rather than a half key.
pub fn is_key_full_tone(midi_id: usize) -> (r: bool)
    ensures
        r == (key_weight(midi_id as int) == 2),
{
    let r: usize = midi_id % 12;
    r == 9 || r == 0 || r == 2 || r == 5 || r == 7
}

/// The pixel window width of each note of `left..=right` on a frame that is
/// `pixel_width` columns wide.
pub fn key_windows(left: usize, right: usize, pixel_width: usize) -> (r: Vec<usize>)
    requires
        left <= right,
        2 * (right - left + 1) <= usize::MAX,
    ensures
        as_ints(r@) == partition(left as int, right as int, pixel_width as int),
{
    let n: usize = right - left + 1;
    let mut units: usize = 0;
    let mut i: usize = 0;
    while i < n
        invariant
            n == range_len(left as int, right as int),
            2 * n <= usize::MAX,
            left + n - 1 == right,
            i <= n,
            units == range_units(left as int, i as nat),
        decreases n - i,
    {
        proof {
            lemma_range_units_bounds(left as int, i as nat);
        }
        let note: usize = left + i;
        if is_key_full_tone(note) {
            units = units + WHOLE_TONE_LEN;
        } else {
            units = units + HALF_TONE_LEN;
        }
        i = i + 1;
    }
    proof {
        lemma_range_units_bounds(left as int, n as nat);
    }
    let per_unit: usize = pixel_width / units;
    let mut r: Vec<usize> = Vec::new();
    let mut j: usize = 0;
    while j < n
        invariant
            n == range_len(left as int, right as int),
            left + n - 1 == right,
            units == range_units(left as int, n as nat),
            units >= 1,
            per_unit == pixel_width / units,
            j <= n,
            r@.len() == j,
            forall|k: int|
                0 <= k < j ==> #[trigger] r@[k] as int == partition(
                    left as int,
                    right as int,
                    pixel_width as int,
                )[k],
        decreases n - j,
    {
        proof {
            lemma_range_units_contains(left as int, n as nat, j as int);
            let w = key_weight(left + j);
            let q = per_unit as int;
            vstd::arithmetic::div_mod::lemma_fundamental_div_mod(pixel_width as int, units as int);
            vstd::arithmetic::div_mod::lemma_mod_bound(pixel_width as int, units as int);
            assert(w * q <= units * q) by (nonlinear_arith)
                requires
                    w <= units,
                    q >= 0,
            ;
        }
        let note: usize = left + j;
        let width: usize = if is_key_full_tone(note) {
            WHOLE_TONE_LEN * per_unit
        } else {
            HALF_TONE_LEN * per_unit
        };
        r.push(width);
        j = j + 1;
    }
    assert(as_ints(r@) =~= partition(left as int, right as int, pixel_width as int));
    r
}

/// Whether every column of the window `[start, start + width)` is in the foreground.
fn window_all_pressed(columns: &Vec<bool>, start: usize, width: usize) -> (r: bool)
    requires
        start + width <= columns@.len(),
    ensures
        r == forall|k: int| start <= k < start + width ==> #[trigger] columns@[k],
{
    let ncols: usize = columns.len();
    assert(start + width <= ncols);
    let end: usize = start + width;
    let mut k: usize = start;
    while k < end
        invariant
            end == start + width,
            start <= k <= start + width,
            start + width <= columns@.len(),
            forall|m: int| start <= m < k ==> #[trigger] columns@[m],
        decreases end - k,
    {
        if !columns[k] {
            return false;
        }
        k = k + 1;
    }
    true
}

/// The key state of a frame, one flag per window of `widths`: the windows
/// are laid side by side from the first column on, and a key is pressed when
/// every column of its window is in the foreground.
pub fn key_states_for_widths(columns: &Vec<bool>, widths: &Vec<usize>) -> (r: Vec<bool>)
    requires
        seq_sum(as_ints(widths@)) <= columns@.len(),
    ensures
        r@ == states_for_widths(columns@, as_ints(widths@)),
{
    let ghost w = as_ints(widths@);
    let ncols: usize = columns.len();
    let mut r: Vec<bool> = Vec::new();
    let mut start: usize = 0;
    let mut i: usize = 0;
    while i < widths.len()
        invariant
            w == as_ints(widths@),
            seq_sum(w) <= columns@.len(),
            ncols == columns@.len(),
            i <= widths@.len(),
            start == window_start(w, i as int),
            r@.len() == i,
            forall|k: int| 0 <= k < i ==> #[trigger] r@[k] == window_pressed(columns@, w, k),
        decreases widths@.len() - i,
    {
        proof {
            lemma_seq_sum_prefix_step(w, i as int);
            lemma_seq_sum_prefix_le(w, i as int + 1);
        }
        let width: usize = widths[i];
        let pressed: bool = window_all_pressed(columns, start, width);
        r.push(pressed);
        start = start + width;
        i = i + 1;
    }
    assert(r@ =~= states_for_widths(columns@, w));
    r
}

/// The key state of a frame for the notes `leftmost..=rightmost`, given one
/// foreground flag per pixel column: each note's window comes from
/// [`key_windows`] over the frame's width.
pub fn key_states(columns: &Vec<bool>, leftmost: usize, rightmost: usize) -> (r: Vec<bool>)
    requires
        leftmost <= rightmost,
        2 * (rightmost - leftmost + 1) <= usize::MAX,
    ensures
        r@ == key_states_spec(columns@, leftmost as int, rightmost as int),
        r@.len() == rightmost - leftmost + 1,
{
    let widths: Vec<usize> = key_windows(leftmost, rightmost, columns.len());
    proof {
        lemma_partition_within_width(leftmost as int, rightmost as int, columns@.len() as int);
    }
    key_states_for_widths(columns, &widths)
}

} // verus!
