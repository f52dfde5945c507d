//! Turns a time-ordered list of key states into timed note-on / note-off events.
use vstd::prelude::*;

verus! {

/// Ticks between two consecutive frames.
pub const TICK_STEP: u64 = 120;

/// Velocity of every event.
pub const VELOCITY: u8 = 100;

/// Whether a key goes down or comes up.
#[derive(Clone, Copy, Debug, PartialEq, Eq, Structural)]
pub enum NoteKind {
    On,
    Off,
}

/// One key press or release, at a given tick.
#[derive(Clone, Copy, Debug, PartialEq, Eq, Structural)]
pub struct NoteEvent {
    pub tick: u64,
    pub note: usize,
    pub kind: NoteKind,
    pub velocity: u8,
}

/// The event for key `note` taking state `pressed` at `tick`.
pub open spec fn event_for(tick: int, note: int, pressed: bool) -> NoteEvent {
    NoteEvent {
        tick: tick as u64,
        note: note as usize,
        kind: if pressed {
            NoteKind::On
        } else {
            NoteKind::Off
        },
        velocity: VELOCITY,
    }
}

/// The events between two key states, over their first `n` keys, in key
/// order: one for each key whose state differs.
pub open spec fn diff_events(prev: Seq<bool>, cur: Seq<bool>, leftmost: int, tick: int, n: int) -> Seq<
    NoteEvent,
>
    decreases n,
{
    if n <= 0 {
        Seq::empty()
    } else {
        let before = diff_events(prev, cur, leftmost, tick, n - 1);
        if prev[n - 1] != cur[n - 1] {
            before.push(event_for(tick, leftmost + n - 1, cur[n - 1]))
        } else {
            before
        }
    }
}

/// The events between two key states of `n` keys.
pub open spec fn frame_events(prev: Seq<bool>, cur: Seq<bool>, leftmost: int, tick: int) -> Seq<
    NoteEvent,
> {
    diff_events(prev, cur, leftmost, tick, cur.len() as int)
}

/// The state before frame `k`: all keys up before the first frame, else the
/// previous frame.
pub open spec fn state_before(frames: Seq<Seq<bool>>, k: int, n_keys: nat) -> Seq<bool> {
    if k == 0 {
        Seq::new(n_keys, |i: int| false)
    } else {
        frames[k - 1]
    }
}

/// The events of the first `k` frames: frame `j` is diffed against the state
/// before it, at tick `j * tick_step`.
pub open spec fn events_upto(
    frames: Seq<Seq<bool>>,
    leftmost: int,
    n_keys: nat,
    tick_step: int,
    k: int,
) -> Seq<NoteEvent>
    decreases k,
{
    if k <= 0 {
        Seq::empty()
    } else {
        events_upto(frames, leftmost, n_keys, tick_step, k - 1) + frame_events(
            state_before(frames, k - 1, n_keys),
            frames[k - 1],
            leftmost,
            (k - 1) * tick_step,
        )
    }
}

/// The whole event stream of a list of frames. Keys still down after the
/// last frame get no closing event.
pub open spec fn sequence_spec(
    frames: Seq<Seq<bool>>,
    leftmost: int,
    n_keys: nat,
    tick_step: int,
) -> Seq<NoteEvent> {
    events_upto(frames, leftmost, n_keys, tick_step, frames.len() as int)
}

/// The frames as sequences of flags.
pub open spec fn frames_view(frames: Seq<Vec<bool>>) -> Seq<Seq<bool>> {
    frames.map_values(|f: Vec<bool>| f@)
}

/// Every frame holds exactly `n_keys` flags.
pub open spec fn frames_have_width(frames: Seq<Vec<bool>>, n_keys: nat) -> bool {
    forall|k: int| 0 <= k < frames.len() ==> (#[trigger] frames[k])@.len() == n_keys
}

/// Appends the events between `prev` and `cur` to `out`.
fn push_frame_events(
    out: &mut Vec<NoteEvent>,
    prev: &Vec<bool>,
    cur: &Vec<bool>,
    leftmost: usize,
    tick: u64,
)
    requires
        prev@.len() == cur@.len(),
        leftmost + cur@.len() <= usize::MAX + 1,
    ensures
        final(out)@ == old(out)@ + frame_events(prev@, cur@, leftmost as int, tick as int),
{
    let mut i: usize = 0;
    while i < cur.len()
        invariant
            prev@.len() == cur@.len(),
            leftmost + cur@.len() <= usize::MAX + 1,
            i <= cur@.len(),
            out@ == old(out)@ + diff_events(prev@, cur@, leftmost as int, tick as int, i as int),
        decreases cur@.len() - i,
    {
        if prev[i] != cur[i] {
            let kind = if cur[i] {
                NoteKind::On
            } else {
                NoteKind::Off
            };
            let ev = NoteEvent { tick, note: leftmost + i, kind, velocity: VELOCITY };
            out.push(ev);
        }
        i = i + 1;
    }
}

/// The event stream of `frames`, the key states of `leftmost..=rightmost` in
/// time order. Before the first frame every key is up; frame `k` sits at tick
/// `k * tick_step`; each key whose state differs from the frame before gives
/// an event, in key order within a tick.
pub fn sequence_events(
    frames: &Vec<Vec<bool>>,
    leftmost: usize,
    rightmost: usize,
    tick_step: u64,
) -> (r: Vec<NoteEvent>)
    requires
        leftmost <= rightmost,
        rightmost - leftmost < usize::MAX,
        tick_step > 0,
        frames@.len() * tick_step <= u64::MAX,
        frames_have_width(frames@, (rightmost - leftmost + 1) as nat),
    ensures
        r@ == sequence_spec(
            frames_view(frames@),
            leftmost as int,
            (rightmost - leftmost + 1) as nat,
            tick_step as int,
        ),
{
    let n_keys: usize = rightmost - leftmost + 1;
    let ghost fv = frames_view(frames@);
    let mut prev: Vec<bool> = Vec::new();
    let mut i: usize = 0;
    while i < n_keys
        invariant
            i <= n_keys,
            prev@ == Seq::new(i as nat, |j: int| false),
        decreases n_keys - i,
    {
        prev.push(false);
        i = i + 1;
        assert(prev@ =~= Seq::new(i as nat, |j: int| false));
    }
    let mut out: Vec<NoteEvent> = Vec::new();
    let mut tick: u64 = 0;
    let mut k: usize = 0;
    while k < frames.len()
        invariant
            fv == frames_view(frames@),
            n_keys == rightmost - leftmost + 1,
            frames_have_width(frames@, n_keys as nat),
            frames@.len() * tick_step <= u64::MAX,
            k <= frames@.len(),
            tick == k * tick_step,
            prev@ == state_before(fv, k as int, n_keys as nat),
            out@ == events_upto(fv, leftmost as int, n_keys as nat, tick_step as int, k as int),
        decreases frames@.len() - k,
    {
        assert(frames@[k as int]@.len() == n_keys);
        push_frame_events(&mut out, &prev, &frames[k], leftmost, tick);
        prev = frames[k].clone();
        proof {
            assert((k + 1) * tick_step <= frames@.len() * tick_step) by (nonlinear_arith)
                requires
                    k + 1 <= frames@.len(),
            ;
            assert((k + 1) * tick_step == k * tick_step + tick_step) by (nonlinear_arith);
        }
        tick = tick + tick_step;
        k = k + 1;
    }
    out
}

/// The event stream is a function of the frames, the range and the tick
/// step alone: running the same frames through the sequencer twice gives the
/// same events.
pub proof fn lemma_sequence_deterministic(
    frames_a: Seq<Seq<bool>>,
    frames_b: Seq<Seq<bool>>,
    leftmost: int,
    n_keys: nat,
    tick_step: int,
)
    requires
        frames_a == frames_b,
    ensures
        sequence_spec(frames_a, leftmost, n_keys, tick_step) == sequence_spec(
            frames_b,
            leftmost,
            n_keys,
            tick_step,
        ),
{
}

proof fn lemma_diff_events_same(state: Seq<bool>, leftmost: int, tick: int, n: int)
    ensures
        diff_events(state, state, leftmost, tick, n) == Seq::<NoteEvent>::empty(),
    decreases n,
{
    if n > 0 {
        lemma_diff_events_same(state, leftmost, tick, n - 1);
    }
}

/// A frame equal to the one before it emits no events; in particular an
/// all-up frame after an all-up frame is silent.
pub proof fn lemma_unchanged_frame_is_silent(state: Seq<bool>, leftmost: int, tick: int)
    ensures
        frame_events(state, state, leftmost, tick) == Seq::<NoteEvent>::empty(),
{
    lemma_diff_events_same(state, leftmost, tick, state.len() as int);
}

/// A single key that goes down, up and down again over three frames gives
/// a press at tick 0, one release at `tick_step` and one press at
/// `2 * tick_step`.
pub proof fn lemma_single_key_toggle(leftmost: int, tick_step: int)
    ensures
        sequence_spec(seq![seq![true], seq![false], seq![true]], leftmost, 1, tick_step) == seq![
            event_for(0, leftmost, true),
            event_for(tick_step, leftmost, false),
            event_for(2 * tick_step, leftmost, true),
        ],
{
    let frames = seq![seq![true], seq![false], seq![true]];
    assert(state_before(frames, 0, 1) =~= seq![false]);
    reveal_with_fuel(events_upto, 4);
    reveal_with_fuel(diff_events, 2);
    assert(events_upto(frames, leftmost, 1, tick_step, 1) =~= seq![event_for(0, leftmost, true)]);
    assert(events_upto(frames, leftmost, 1, tick_step, 2) =~= seq![
        event_for(0, leftmost, true),
        event_for(tick_step, leftmost, false),
    ]);
    assert(sequence_spec(frames, leftmost, 1, tick_step) =~= seq![
        event_for(0, leftmost, true),
        event_for(tick_step, leftmost, false),
        event_for(2 * tick_step, leftmost, true),
    ]);
}

/// Over the whole stream: a frame equal to the state before it (an all-up
/// frame after an all-up frame, or after the all-up start) adds no events.
pub proof fn lemma_unchanged_frame_adds_nothing(
    frames: Seq<Seq<bool>>,
    leftmost: int,
    n_keys: nat,
    tick_step: int,
    k: int,
)
    requires
        0 <= k < frames.len(),
        frames[k] == state_before(frames, k, n_keys),
    ensures
        events_upto(frames, leftmost, n_keys, tick_step, k + 1) == events_upto(
            frames,
            leftmost,
            n_keys,
            tick_step,
            k,
        ),
{
    lemma_unchanged_frame_is_silent(frames[k], leftmost, k * tick_step);
    assert(events_upto(frames, leftmost, n_keys, tick_step, k) + Seq::<NoteEvent>::empty()
        =~= events_upto(frames, leftmost, n_keys, tick_step, k));
}

} // verus!
