//! The whole conversion, from the frames' PNG files to the note events of
//! the MIDI track.
use vstd::prelude::*;

use crate::color::ColorKind;
use crate::colormatch::{classifies_png, png_classifies, ColorMatch};
use crate::keyboard::{key_states, key_states_spec};
use crate::sequencer::{frames_have_width, frames_view, sequence_events, sequence_spec, NoteEvent, TICK_STEP};

verus! {

/// The positions, in order, of the first `n` files of `frames` that
/// classify against `palette`.
pub open spec fn kept_positions(frames: Seq<Vec<u8>>, palette: Seq<ColorKind>, n: int) -> Seq<int>
    decreases n,
{
    if n <= 0 {
        Seq::empty()
    } else {
        let before = kept_positions(frames, palette, n - 1);
        if png_classifies(frames[n - 1]@, palette) {
            before.push(n - 1)
        } else {
            before
        }
    }
}

/// For each column of a classified frame, whether it is in the foreground.
pub open spec fn foreground_of(m: ColorMatch) -> Seq<bool> {
    m.data@.map_values(|c: ColorKind| c is ForegroundColor)
}

/// The key states of the notes `leftmost..=rightmost` in each classified frame.
pub open spec fn frame_states(matches: Seq<ColorMatch>, leftmost: int, rightmost: int) -> Seq<
    Seq<bool>,
> {
    matches.map_values(|m: ColorMatch| key_states_spec(foreground_of(m), leftmost, rightmost))
}

/// Classifies each PNG file of `frames` in turn and keeps, in their order,
/// exactly the frames that classify; a frame that fails is skipped, so the
/// next one takes its place in time. With an empty palette nothing classifies.
pub fn recognize_colors_in_files(frames: &Vec<Vec<u8>>, predefined_colors: &Vec<ColorKind>) -> (r:
    Vec<ColorMatch>)
    ensures
        r@.len() == kept_positions(frames@, predefined_colors@, frames@.len() as int).len(),
        forall|k: int|
            0 <= k < r@.len() ==> classifies_png(
                #[trigger] r@[k],
                frames@[kept_positions(frames@, predefined_colors@, frames@.len() as int)[k]]@,
                predefined_colors@,
            ),
{
    let mut r: Vec<ColorMatch> = Vec::new();
    let mut i: usize = 0;
    while i < frames.len()
        invariant
            i <= frames@.len(),
            r@.len() == kept_positions(frames@, predefined_colors@, i as int).len(),
            forall|k: int|
                0 <= k < r@.len() ==> classifies_png(
                    #[trigger] r@[k],
                    frames@[kept_positions(frames@, predefined_colors@, i as int)[k]]@,
                    predefined_colors@,
                ),
        decreases frames@.len() - i,
    {
        let ghost before = kept_positions(frames@, predefined_colors@, i as int);
        match ColorMatch::from_png(frames[i].as_slice(), predefined_colors) {
            Ok(m) => {
                r.push(m);
            },
            Err(_) => {},
        }
        i = i + 1;
        assert(forall|k: int|
            0 <= k < before.len() ==> kept_positions(frames@, predefined_colors@, i as int)[k]
                == before[k]);
    }
    r
}

/// The key states of the notes `leftmost..=rightmost` in each classified frame.
pub fn states_of_matches(matches: &Vec<ColorMatch>, leftmost: usize, rightmost: usize) -> (r: Vec<
    Vec<bool>,
>)
    requires
        leftmost <= rightmost,
        2 * (rightmost - leftmost + 1) <= usize::MAX,
    ensures
        frames_view(r@) == frame_states(matches@, leftmost as int, rightmost as int),
        frames_have_width(r@, (rightmost - leftmost + 1) as nat),
        r@.len() == matches@.len(),
{
    let mut r: Vec<Vec<bool>> = Vec::new();
    let mut k: usize = 0;
    while k < matches.len()
        invariant
            leftmost <= rightmost,
            2 * (rightmost - leftmost + 1) <= usize::MAX,
            k <= matches@.len(),
            r@.len() == k,
            forall|j: int|
                0 <= j < k ==> (#[trigger] r@[j])@ == key_states_spec(
                    foreground_of(matches@[j]),
                    leftmost as int,
                    rightmost as int,
                ) && r@[j]@.len() == rightmost - leftmost + 1,
        decreases matches@.len() - k,
    {
        let columns: Vec<bool> = matches[k].foreground_columns();
        assert(columns@ =~= foreground_of(matches@[k as int]));
        let states: Vec<bool> = key_states(&columns, leftmost, rightmost);
        r.push(states);
        k = k + 1;
    }
    assert(frames_view(r@) =~= frame_states(matches@, leftmost as int, rightmost as int));
    r
}

/// The note events of a list of classified frames for the notes
/// `leftmost..=rightmost`: frame `k` is turned into key states and diffed
/// against the frame before it at tick `k * TICK_STEP`.
pub fn midi_events(pressed_keys_pixelized: &Vec<ColorMatch>, leftmost: usize, rightmost: usize) -> (r:
    Vec<NoteEvent>)
    requires
        leftmost <= rightmost,
        2 * (rightmost - leftmost + 1) <= usize::MAX,
        pressed_keys_pixelized@.len() * TICK_STEP <= u64::MAX,
    ensures
        r@ == sequence_spec(
            frame_states(pressed_keys_pixelized@, leftmost as int, rightmost as int),
            leftmost as int,
            (rightmost - leftmost + 1) as nat,
            TICK_STEP as int,
        ),
{
    let frames = states_of_matches(pressed_keys_pixelized, leftmost, rightmost);
    sequence_events(&frames, leftmost, rightmost, TICK_STEP)
}

} // verus!
