//! Timing of key presses: how long to wait before, during and after a press.
//!
//! Every wait is drawn anew.  The continuous distributions behind the draws
//! are the caller's; here the drawn values are bounded, kept apart from the
//! previous ones and recorded, so that whatever was drawn, a wait stays within
//! what was configured.
use crate::random::{random_bool, random_u32};
use std::collections::HashMap;
use vstd::prelude::*;

verus! {

broadcast use {vstd::std_specs::hash::group_hash_axioms, vstd::map::group_map_axioms};

/// No wait between two presses is shorter than this many milliseconds.
pub const MINIMUM_DELAY: u32 = 20;

/// How long a key is held when timing does not vary.
pub const FIXED_PRESS_DURATION: u32 = 45;

/// The shortest and the longest time that a key is held.
pub const MIN_PRESS_DURATION: u32 = 20;

pub const MAX_PRESS_DURATION: u32 = 200;

/// What is remembered of the waits of one key.
#[derive(Debug, Clone, Copy, PartialEq, Eq, Structural)]
pub struct DelayState {
    pub last_delay: u32,
    pub consecutive_count: u8,
}

/// Nothing is remembered yet.
pub open spec fn fresh_delay_state() -> DelayState {
    DelayState { last_delay: 0, consecutive_count: 0 }
}

/// How much timing varies, and what is remembered of past waits.
pub struct TimingState {
    level: u8,
    delay_states: HashMap<usize, DelayState>,
    last_press_duration: u32,
}

/// The mathematical content of a [`TimingState`].
#[verifier::ext_equal]
pub struct TimingModel {
    pub level: u8,
    pub delay_states: Map<usize, DelayState>,
    pub last_press_duration: u32,
}

impl View for TimingState {
    type V = TimingModel;

    closed spec fn view(&self) -> TimingModel {
        TimingModel {
            level: self.level,
            delay_states: self.delay_states@,
            last_press_duration: self.last_press_duration,
        }
    }
}

/// What is remembered of key number `id`.
pub open spec fn remembered(m: TimingModel, id: usize) -> DelayState {
    if m.delay_states.contains_key(id) {
        m.delay_states[id]
    } else {
        fresh_delay_state()
    }
}

impl TimingState {
    /// Nothing remembered, and the middle level of variation.
    pub fn new() -> (r: TimingState)
        ensures
            r@ == (TimingModel { level: 1, delay_states: Map::empty(), last_press_duration: 0 }),
    {
        TimingState { level: 1, delay_states: HashMap::new(), last_press_duration: 0 }
    }

    fn recall(&self, profile_id: usize) -> (r: DelayState)
        ensures
            r == remembered(self@, profile_id),
    {
        match self.delay_states.get(&profile_id) {
            Some(state) => *state,
            None => DelayState { last_delay: 0, consecutive_count: 0 },
        }
    }
}

/// Forgets all past waits and keeps the level.
pub fn reset(timing: &mut TimingState)
    ensures
        final(timing)@ == (TimingModel {
            level: old(timing)@.level,
            delay_states: Map::empty(),
            last_press_duration: 0,
        }),
{
    timing.delay_states = HashMap::new();
    timing.last_press_duration = 0;
}

/// Sets how much timing varies; levels above two count as two.
pub fn set_timing_variation_level(timing: &mut TimingState, level: u8)
    ensures
        final(timing)@ == (TimingModel {
            level: if level > 2 {
                2
            } else {
                level
            },
            ..old(timing)@
        }),
{
    timing.level = if level > 2 {
        2
    } else {
        level
    };
}

// ---------------------------------------------------------------------------
// The wait after a press
// ---------------------------------------------------------------------------
/// `value`, moved into the range from `low` to `high`.
pub open spec fn clamped(value: int, low: int, high: int) -> int {
    if value < low {
        low
    } else if value > high {
        high
    } else {
        value
    }
}

/// The distance of two waits.
pub open spec fn apart(a: u32, b: u32) -> int {
    if a >= b {
        a - b
    } else {
        b - a
    }
}

fn distance(a: u32, b: u32) -> (r: u32)
    ensures
        r == apart(a, b),
{
    if a >= b {
        a - b
    } else {
        b - a
    }
}

/// The shortest wait for a base wait and the range around it; without a range
/// that is the base wait.
pub open spec fn shortest_delay(base_delay: u32, random_range: u32) -> int {
    if base_delay - random_range < MINIMUM_DELAY {
        MINIMUM_DELAY as int
    } else {
        base_delay - random_range
    }
}

/// The longest wait for a base wait and the range around it.
pub open spec fn longest_delay(base_delay: u32, random_range: u32) -> int {
    let wanted = if base_delay + random_range > u32::MAX {
        u32::MAX as int
    } else {
        base_delay + random_range
    };
    if wanted < shortest_delay(base_delay, random_range) {
        shortest_delay(base_delay, random_range)
    } else {
        wanted
    }
}

/// The shortest wait for a base wait and the range around it.
pub fn minimum_delay(base_delay: u32, random_range: u32) -> (r: u32)
    ensures
        r == shortest_delay(base_delay, random_range),
{
    let wanted: u32 = base_delay.saturating_sub(random_range);
    if wanted < MINIMUM_DELAY {
        MINIMUM_DELAY
    } else {
        wanted
    }
}

/// The longest wait for a base wait and the range around it.
pub fn maximum_delay(base_delay: u32, random_range: u32) -> (r: u32)
    ensures
        r == longest_delay(base_delay, random_range),
{
    let wanted: u32 = base_delay.saturating_add(random_range);
    let shortest: u32 = minimum_delay(base_delay, random_range);
    if wanted < shortest {
        shortest
    } else {
        wanted
    }
}

/// A wait moved into the range from `min_delay` to `max_delay`.
pub fn bounded_delay(wanted: i64, min_delay: u32, max_delay: u32) -> (r: u32)
    requires
        min_delay <= max_delay,
    ensures
        r == clamped(wanted as int, min_delay as int, max_delay as int),
{
    if wanted < min_delay as i64 {
        min_delay
    } else if wanted > max_delay as i64 {
        max_delay
    } else {
        wanted as u32
    }
}

/// The base wait with its random offset, which never leaves the range.
pub open spec fn jittered(base_delay: u32, random_range: u32, jitter: i64) -> u32 {
    let offset = if random_range == 0 {
        0
    } else {
        clamped(jitter as int, -random_range as int, random_range as int)
    };
    clamped(
        base_delay + offset,
        shortest_delay(base_delay, random_range),
        longest_delay(base_delay, random_range),
    ) as u32
}

/// The base wait with its random offset, which never leaves the range.
pub fn jittered_delay(base_delay: u32, random_range: u32, jitter: i64) -> (r: u32)
    ensures
        r == jittered(base_delay, random_range, jitter),
        shortest_delay(base_delay, random_range) <= r <= longest_delay(base_delay, random_range),
{
    let range: i64 = random_range as i64;
    let offset: i64 = if random_range == 0 {
        0
    } else if jitter < -range {
        -range
    } else if jitter > range {
        range
    } else {
        jitter
    };
    bounded_delay(
        base_delay as i64 + offset,
        minimum_delay(base_delay, random_range),
        maximum_delay(base_delay, random_range),
    )
}

/// A wait moved by `step` away from the last one, as far as the bounds let it.
pub open spec fn nudged(delay: u32, last_delay: u32, min_delay: u32, max_delay: u32, step: u32) -> int {
    let up_room = if max_delay > delay {
        max_delay - delay
    } else {
        0
    };
    let down_room = if delay > min_delay {
        delay - min_delay
    } else {
        0
    };
    let up = delay + if step < up_room {
        step as int
    } else {
        up_room
    };
    let down = delay - if step < down_room {
        step as int
    } else {
        down_room
    };
    if delay >= last_delay && up_room > 0 {
        up
    } else if delay < last_delay && down_room > 0 {
        down
    } else if up_room >= down_room && up_room > 0 {
        up
    } else {
        down
    }
}

/// Moves a wait by `step` away from the last one, as far as the bounds let it.
pub fn nudge_away(
    delay: u32,
    last_delay: u32,
    min_delay: u32,
    max_delay: u32,
    step: u32,
) -> (r: u32)
    ensures
        r == nudged(delay, last_delay, min_delay, max_delay, step),
{
    let up_room: u32 = max_delay.saturating_sub(delay);
    let down_room: u32 = delay.saturating_sub(min_delay);
    let up: u32 = delay + if step < up_room {
        step
    } else {
        up_room
    };
    let down: u32 = delay - if step < down_room {
        step
    } else {
        down_room
    };
    if delay >= last_delay && up_room > 0 {
        up
    } else if delay < last_delay && down_room > 0 {
        down
    } else if up_room >= down_room && up_room > 0 {
        up
    } else {
        down
    }
}

/// A wait kept apart from the last one: it moves by `small_step` where the two
/// are almost the same, and by `large_step` after three waits in a row that
/// were close to the one before.
pub open spec fn varied(
    delay: u32,
    state: DelayState,
    min_delay: u32,
    max_delay: u32,
    small_step: u32,
    large_step: u32,
) -> (u32, DelayState) {
    if state.last_delay == 0 || min_delay >= max_delay {
        (delay, state)
    } else {
        let moved = if apart(delay, state.last_delay) <= 2 {
            nudged(delay, state.last_delay, min_delay, max_delay, small_step) as u32
        } else {
            delay
        };
        let count = if apart(moved, state.last_delay) >= 8 {
            0
        } else if state.consecutive_count == u8::MAX {
            u8::MAX as int
        } else {
            state.consecutive_count + 1
        };
        if count >= 3 {
            (
                nudged(moved, state.last_delay, min_delay, max_delay, large_step) as u32,
                DelayState { consecutive_count: 0, ..state },
            )
        } else {
            (moved, DelayState { consecutive_count: count as u8, ..state })
        }
    }
}

/// Keeps a wait apart from the last one, with the given steps.
pub fn vary_repeat(
    delay: u32,
    state: &mut DelayState,
    min_delay: u32,
    max_delay: u32,
    small_step: u32,
    large_step: u32,
) -> (r: u32)
    ensures
        (r, *final(state)) == varied(delay, *old(state), min_delay, max_delay, small_step, large_step),
        min_delay <= delay <= max_delay ==> min_delay <= r <= max_delay,
{
    if state.last_delay == 0 || min_delay >= max_delay {
        return delay;
    }
    let last: u32 = state.last_delay;
    let moved: u32 = if distance(delay, last) <= 2 {
        nudge_away(delay, last, min_delay, max_delay, small_step)
    } else {
        delay
    };
    state.consecutive_count = if distance(moved, last) < 8 {
        state.consecutive_count.saturating_add(1)
    } else {
        0
    };
    if state.consecutive_count >= 3 {
        state.consecutive_count = 0;
        nudge_away(moved, last, min_delay, max_delay, large_step)
    } else {
        moved
    }
}

/// Keeps a wait apart from the last one, with steps drawn at random.
pub fn apply_repeat_variation(
    delay: u32,
    state: &mut DelayState,
    min_delay: u32,
    max_delay: u32,
) -> (r: u32)
    ensures
        exists|small_step: u32, large_step: u32|
            2 <= small_step <= 18 && 15 <= large_step <= 40 && (r, *final(state))
                == #[trigger] varied(
                delay,
                *old(state),
                min_delay,
                max_delay,
                small_step,
                large_step,
            ),
        min_delay <= delay <= max_delay ==> min_delay <= r <= max_delay,
{
    let small_step: u32 = random_u32(2, 18);
    let large_step: u32 = random_u32(15, 40);
    vary_repeat(delay, state, min_delay, max_delay, small_step, large_step)
}

/// What was drawn for one wait.
pub struct DelayDraws {
    /// The offset from the base wait.
    pub jitter: i64,
    /// The wait after correlation with the ones before.
    pub correlated: i64,
    pub small_step: u32,
    pub large_step: u32,
    /// The wait after the drift of tempo.
    pub drifted: i64,
}

/// The wait after jitter and correlation.
pub open spec fn correlated_delay(
    level: u8,
    base_delay: u32,
    random_range: u32,
    draws: DelayDraws,
) -> u32 {
    if level >= 1 && random_range > 0 {
        clamped(
            draws.correlated as int,
            shortest_delay(base_delay, random_range),
            longest_delay(base_delay, random_range),
        ) as u32
    } else {
        jittered(base_delay, random_range, draws.jitter)
    }
}

/// The wait once it is kept apart from the last one, and what is remembered.
pub open spec fn separated_delay(
    level: u8,
    base_delay: u32,
    random_range: u32,
    state: DelayState,
    draws: DelayDraws,
) -> (u32, DelayState) {
    let delay = correlated_delay(level, base_delay, random_range, draws);
    if level >= 1 {
        varied(
            delay,
            state,
            shortest_delay(base_delay, random_range) as u32,
            longest_delay(base_delay, random_range) as u32,
            draws.small_step,
            draws.large_step,
        )
    } else {
        (delay, state)
    }
}

/// The wait that the draws give, and what is remembered of it.  On the highest
/// level the tempo drifts, within the same range as everything else; nothing is
/// added on top.
pub open spec fn drawn_delay(
    level: u8,
    base_delay: u32,
    random_range: u32,
    state: DelayState,
    draws: DelayDraws,
) -> (u32, DelayState) {
    let (separated, after) = separated_delay(level, base_delay, random_range, state, draws);
    let delay = if level < 2 {
        separated
    } else {
        clamped(
            draws.drifted as int,
            shortest_delay(base_delay, random_range),
            longest_delay(base_delay, random_range),
        ) as u32
    };
    (delay, DelayState { last_delay: delay, ..after })
}

/// Whether the draws can come from the given sources in the given state.
pub open spec fn drawn_from<C: FnOnce(u32) -> i64, D: FnOnce(u32) -> i64>(
    level: u8,
    base_delay: u32,
    random_range: u32,
    state: DelayState,
    jitter: i64,
    correlate: C,
    drift: D,
    draws: DelayDraws,
) -> bool {
    let separated = separated_delay(level, base_delay, random_range, state, draws).0;
    &&& draws.jitter == jitter
    &&& level >= 1 && random_range > 0 ==> call_ensures(
        correlate,
        (jittered(base_delay, random_range, jitter),),
        draws.correlated,
    )
    &&& 2 <= draws.small_step <= 18
    &&& 15 <= draws.large_step <= 40
    &&& level >= 2 ==> call_ensures(drift, (separated,), draws.drifted)
}

/// Whether a wait and what is remembered after it come from draws of the given
/// sources.
pub open spec fn delay_follows<C: FnOnce(u32) -> i64, D: FnOnce(u32) -> i64>(
    before: TimingModel,
    after: TimingModel,
    base_delay: u32,
    random_range: u32,
    profile_id: usize,
    jitter: i64,
    correlate: C,
    drift: D,
    delay: u32,
) -> bool {
    let state = remembered(before, profile_id);
    exists|draws: DelayDraws|
        {
            let drawn = #[trigger] drawn_delay(before.level, base_delay, random_range, state, draws);
            &&& drawn_from(
                before.level,
                base_delay,
                random_range,
                state,
                jitter,
                correlate,
                drift,
                draws,
            )
            &&& delay == drawn.0
            &&& after == (TimingModel {
                delay_states: before.delay_states.insert(profile_id, drawn.1),
                ..before
            })
        }
}

/// When the sources are asked, and with what: `correlate` from the middle level
/// on and only where there is a range, with the wait after jitter; `drift` on the
/// highest level, with a wait within the range.  At other times neither is asked.
pub open spec fn sources_answer<C: FnOnce(u32) -> i64, D: FnOnce(u32) -> i64>(
    level: u8,
    base_delay: u32,
    random_range: u32,
    jitter: i64,
    correlate: C,
    drift: D,
) -> bool {
    &&& level >= 1 && random_range > 0 ==> call_requires(
        correlate,
        (jittered(base_delay, random_range, jitter),),
    )
    &&& level >= 2 ==> forall|delay: u32|
        shortest_delay(base_delay, random_range) <= delay <= longest_delay(
            base_delay,
            random_range,
        ) ==> #[trigger] call_requires(drift, (delay,))
}

/// The wait after a press of key number `profile_id`.
///
/// `jitter` is the drawn offset from the base wait.  `correlate` and `drift`
/// give a wait as moved by its correlation with the waits before and by the
/// drift of the tempo.
#[verifier::spinoff_prover]
pub fn next_delay<C: FnOnce(u32) -> i64, D: FnOnce(u32) -> i64>(
    timing: &mut TimingState,
    base_delay: u32,
    random_range: u32,
    profile_id: usize,
    jitter: i64,
    correlate: C,
    drift: D,
) -> (r: u32)
    requires
        sources_answer(
            old(timing)@.level,
            base_delay,
            random_range,
            jitter,
            correlate,
            drift,
        ),
    ensures
        delay_follows(
            old(timing)@,
            final(timing)@,
            base_delay,
            random_range,
            profile_id,
            jitter,
            correlate,
            drift,
            r,
        ),
        shortest_delay(base_delay, random_range) <= r <= longest_delay(base_delay, random_range),
{
    let min_delay: u32 = minimum_delay(base_delay, random_range);
    let max_delay: u32 = maximum_delay(base_delay, random_range);
    let mut delay: u32 = jittered_delay(base_delay, random_range, jitter);
    let ghost mut draws = DelayDraws {
        jitter,
        correlated: 0,
        small_step: 2,
        large_step: 15,
        drifted: 0,
    };
    if timing.level >= 1 && random_range > 0 {
        let correlated: i64 = correlate(delay);
        proof {
            draws.correlated = correlated;
        }
        delay = bounded_delay(correlated, min_delay, max_delay);
    }
    let mut state: DelayState = timing.recall(profile_id);
    let ghost before = state;
    if timing.level >= 1 {
        let ghost unvaried = delay;
        delay = apply_repeat_variation(delay, &mut state, min_delay, max_delay);
        proof {
            let (small_step, large_step) = choose|small_step: u32, large_step: u32|
                2 <= small_step <= 18 && 15 <= large_step <= 40 && (delay, state)
                    == #[trigger] varied(
                    unvaried,
                    before,
                    min_delay,
                    max_delay,
                    small_step,
                    large_step,
                );
            draws.small_step = small_step;
            draws.large_step = large_step;
        }
    }
    assert((delay, state) == separated_delay(timing.level, base_delay, random_range, before, draws));
    if timing.level >= 2 {
        let drifted: i64 = drift(delay);
        proof {
            draws.drifted = drifted;
        }
        delay = bounded_delay(drifted, min_delay, max_delay);
    }
    state.last_delay = delay;
    timing.delay_states.insert(profile_id, state);
    proof {
        assert((delay, state) == drawn_delay(timing.level, base_delay, random_range, before, draws));
        assert(drawn_from(
            timing.level,
            base_delay,
            random_range,
            before,
            jitter,
            correlate,
            drift,
            draws,
        ));
        assert(timing@ == (TimingModel {
            delay_states: old(timing)@.delay_states.insert(profile_id, state),
            ..old(timing)@
        }));
        assert((delay, state) == drawn_delay(
            old(timing)@.level,
            base_delay,
            random_range,
            remembered(old(timing)@, profile_id),
            draws,
        ));
        lemma_delay_stays_bounded(timing.level, base_delay, random_range, before, draws);
    }
    delay
}

/// Whatever is drawn, on every level a wait stays between the shortest and the
/// longest one.
pub proof fn lemma_delay_stays_bounded(
    level: u8,
    base_delay: u32,
    random_range: u32,
    state: DelayState,
    draws: DelayDraws,
)
    ensures
        shortest_delay(base_delay, random_range) <= drawn_delay(
            level,
            base_delay,
            random_range,
            state,
            draws,
        ).0 <= longest_delay(base_delay, random_range),
{
    let min_delay = shortest_delay(base_delay, random_range) as u32;
    let max_delay = longest_delay(base_delay, random_range) as u32;
    let delay = correlated_delay(level, base_delay, random_range, draws);
    assert(min_delay <= delay <= max_delay);
}

/// Whatever the sources draw and whatever came before, on every level a wait
/// after a press stays between the shortest and the longest one: no pause is
/// added to it.
pub proof fn lemma_wait_stays_bounded<C: FnOnce(u32) -> i64, D: FnOnce(u32) -> i64>(
    before: TimingModel,
    after: TimingModel,
    base_delay: u32,
    random_range: u32,
    profile_id: usize,
    jitter: i64,
    correlate: C,
    drift: D,
    delay: u32,
)
    requires
        delay_follows(
            before,
            after,
            base_delay,
            random_range,
            profile_id,
            jitter,
            correlate,
            drift,
            delay,
        ),
    ensures
        shortest_delay(base_delay, random_range) <= delay <= longest_delay(
            base_delay,
            random_range,
        ),
{
    let state = remembered(before, profile_id);
    let draws = choose|draws: DelayDraws|
        {
            let drawn = #[trigger] drawn_delay(before.level, base_delay, random_range, state, draws);
            &&& drawn_from(
                before.level,
                base_delay,
                random_range,
                state,
                jitter,
                correlate,
                drift,
                draws,
            )
            &&& delay == drawn.0
            &&& after == (TimingModel {
                delay_states: before.delay_states.insert(profile_id, drawn.1),
                ..before
            })
        };
    lemma_delay_stays_bounded(before.level, base_delay, random_range, state, draws);
}

/// The waits lie on both sides of the base wait, at most the range away from
/// it, except that none is below [`MINIMUM_DELAY`].
pub proof fn lemma_range_is_around_base(base_delay: u32, random_range: u32)
    requires
        base_delay >= MINIMUM_DELAY,
        base_delay + random_range <= u32::MAX,
    ensures
        longest_delay(base_delay, random_range) == base_delay + random_range,
        shortest_delay(base_delay, random_range) == if base_delay - random_range
            < MINIMUM_DELAY {
            MINIMUM_DELAY as int
        } else {
            base_delay - random_range
        },
{
}

/// Without a range nothing varies: on every level a wait is the base wait.
pub proof fn lemma_fixed_delay(level: u8, base_delay: u32, state: DelayState, draws: DelayDraws)
    requires
        base_delay >= MINIMUM_DELAY,
    ensures
        drawn_delay(level, base_delay, 0, state, draws).0 == base_delay,
{
}

// ---------------------------------------------------------------------------
// The waits before and during a press
// ---------------------------------------------------------------------------
/// The wait before a press of key number `profile_id`: none on any level, as
/// the rhythm lies in the intervals alone.  On the highest level the key is
/// remembered from then on.
pub fn next_pre_press_delay(timing: &mut TimingState, profile_id: usize) -> (r: u32)
    ensures
        r == 0,
        final(timing)@ == if old(timing)@.level <= 1 {
            old(timing)@
        } else {
            TimingModel {
                delay_states: old(timing)@.delay_states.insert(
                    profile_id,
                    remembered(old(timing)@, profile_id),
                ),
                ..old(timing)@
            }
        },
{
    if timing.level > 1 {
        let state: DelayState = timing.recall(profile_id);
        timing.delay_states.insert(profile_id, state);
    }
    0
}

/// How long a key is held by the draws: from 35 milliseconds for a short press
/// and from 80 for a long one, and by `change` longer or shorter where that
/// would repeat the last time.
pub open spec fn drawn_press_duration(last: u32, short: bool, spread: u32, change: i32) -> int {
    let wanted = clamped(
        if short {
            35 + spread
        } else {
            80 + spread
        },
        MIN_PRESS_DURATION as int,
        MAX_PRESS_DURATION as int,
    );
    if wanted == last {
        clamped(wanted + change, MIN_PRESS_DURATION as int, MAX_PRESS_DURATION as int)
    } else {
        wanted
    }
}

/// How long a key is held, with the given draws.
pub fn press_duration(last: u32, short: bool, spread: u32, change: i32) -> (r: u32)
    ensures
        r == drawn_press_duration(last, short, spread, change),
        MIN_PRESS_DURATION <= r <= MAX_PRESS_DURATION,
{
    let least: u32 = if short {
        35
    } else {
        80
    };
    let wanted: u32 = bounded_delay(
        least as i64 + spread as i64,
        MIN_PRESS_DURATION,
        MAX_PRESS_DURATION,
    );
    if wanted == last {
        bounded_delay(wanted as i64 + change as i64, MIN_PRESS_DURATION, MAX_PRESS_DURATION)
    } else {
        wanted
    }
}

/// How long the key is held.
///
/// `short` and `spread` are drawn by the caller.  A time that would repeat the
/// last one is made two to seven milliseconds longer or shorter.
pub fn next_press_duration(timing: &mut TimingState, short: bool, spread: u32) -> (r: u32)
    ensures
        old(timing)@.level == 0 ==> r == FIXED_PRESS_DURATION && final(timing)@ == old(timing)@,
        old(timing)@.level > 0 ==> {
            &&& exists|change: i32|
                (2 <= change <= 7 || -7 <= change <= -2) && r == #[trigger] drawn_press_duration(
                    old(timing)@.last_press_duration,
                    short,
                    spread,
                    change,
                )
            &&& final(timing)@ == (TimingModel { last_press_duration: r, ..old(timing)@ })
        },
        MIN_PRESS_DURATION <= r <= MAX_PRESS_DURATION,
{
    if timing.level == 0 {
        return FIXED_PRESS_DURATION;
    }
    let amount: u32 = random_u32(2, 7);
    let change: i32 = if random_bool() {
        amount as i32
    } else {
        -(amount as i32)
    };
    let duration: u32 = press_duration(timing.last_press_duration, short, spread, change);
    assert(duration == drawn_press_duration(
        timing@.last_press_duration,
        short,
        spread,
        change,
    ));
    timing.last_press_duration = duration;
    duration
}

// ---------------------------------------------------------------------------
// What holds of the waits
// ---------------------------------------------------------------------------
/// What is remembered of a key is what was last noted of it, and nothing of one
/// that was not noted; notes on other keys do not touch it.
pub proof fn lemma_remembered(m: TimingModel, id: usize, other: usize, state: DelayState)
    ensures
        ({
            let noted = TimingModel { delay_states: m.delay_states.insert(id, state), ..m };
            &&& remembered(noted, id) == state
            &&& other != id ==> remembered(noted, other) == remembered(m, other)
            &&& !m.delay_states.contains_key(id) ==> remembered(m, id).last_delay == 0
                && remembered(m, id).consecutive_count == 0
        }),
{
}

/// A wait is never below 20 milliseconds, never more than the range away from
/// the base where that is allowed, and never loses the base itself.
pub proof fn lemma_bounds_of_waits(base_delay: u32, random_range: u32)
    ensures
        20 <= shortest_delay(base_delay, random_range) <= longest_delay(base_delay, random_range)
            <= u32::MAX,
        base_delay >= random_range + 20 ==> shortest_delay(base_delay, random_range) == base_delay
            - random_range,
        base_delay < random_range + 20 ==> shortest_delay(base_delay, random_range) == 20,
        20 <= base_delay + random_range <= u32::MAX ==> longest_delay(base_delay, random_range)
            == base_delay + random_range,
        base_delay + random_range < 20 ==> longest_delay(base_delay, random_range) == 20,
        base_delay >= 20 ==> shortest_delay(base_delay, random_range) <= base_delay
            <= longest_delay(base_delay, random_range),
{
}

/// A drawn offset moves the wait by just as much, as far as the range and the
/// shortest wait allow, and a greater offset never makes it shorter.
pub proof fn lemma_jitter_moves_wait(base_delay: u32, random_range: u32, jitter: i64, more: i64)
    ensures
        -random_range <= jitter <= random_range && base_delay + jitter >= 20 && base_delay
            + random_range <= u32::MAX ==> jittered(base_delay, random_range, jitter) == base_delay
            + jitter,
        jitter > random_range ==> jittered(base_delay, random_range, jitter) == longest_delay(
            base_delay,
            random_range,
        ),
        jitter < -random_range ==> jittered(base_delay, random_range, jitter) == shortest_delay(
            base_delay,
            random_range,
        ),
        jitter <= more ==> jittered(base_delay, random_range, jitter) <= jittered(
            base_delay,
            random_range,
            more,
        ),
{
}

/// A wait that is moved goes away from the last one where there is room, by the
/// whole step where that fits and else as far as the bound, and it stays where
/// there is no room at all.
pub proof fn lemma_nudge(delay: u32, last_delay: u32, min_delay: u32, max_delay: u32, step: u32)
    requires
        min_delay <= delay <= max_delay,
    ensures
        ({
            let r = nudged(delay, last_delay, min_delay, max_delay, step);
            &&& min_delay <= r <= max_delay
            &&& delay - step <= r <= delay + step
            &&& delay >= last_delay && delay < max_delay ==> r == if delay + step <= max_delay {
                delay + step
            } else {
                max_delay as int
            }
            &&& delay < last_delay && delay > min_delay ==> r == if delay - step >= min_delay {
                delay - step
            } else {
                min_delay as int
            }
            &&& delay >= last_delay && delay == max_delay && min_delay < max_delay ==> r == if delay
                - step >= min_delay {
                delay - step
            } else {
                min_delay as int
            }
            &&& delay < last_delay && delay == min_delay && min_delay < max_delay ==> r == if delay
                + step <= max_delay {
                delay + step
            } else {
                max_delay as int
            }
            &&& min_delay == max_delay ==> r == delay
        }),
{
}

/// A wait that is far from the last one is kept; one that is almost the same is
/// moved a little.  The third close one in a row is moved further, and the row
/// begins anew; the last wait is not touched by this.
pub proof fn lemma_repeats_are_varied(
    delay: u32,
    state: DelayState,
    min_delay: u32,
    max_delay: u32,
    small_step: u32,
    large_step: u32,
)
    requires
        min_delay <= delay <= max_delay,
    ensures
        ({
            let (r, after) = varied(delay, state, min_delay, max_delay, small_step, large_step);
            let near = |wait: int| wait - state.last_delay < 8 && state.last_delay - wait < 8;
            let same = delay - state.last_delay <= 2 && state.last_delay - delay <= 2;
            let moved = if same {
                nudged(delay, state.last_delay, min_delay, max_delay, small_step)
            } else {
                delay as int
            };
            &&& min_delay <= r <= max_delay
            &&& after.last_delay == state.last_delay
            &&& state.last_delay == 0 || min_delay == max_delay ==> r == delay && after == state
            &&& state.last_delay > 0 && min_delay < max_delay ==> {
                &&& !near(moved) ==> r == moved && after.consecutive_count == 0
                &&& near(moved) && state.consecutive_count < 2 ==> r == moved
                    && after.consecutive_count == state.consecutive_count + 1
                &&& near(moved) && state.consecutive_count >= 2 ==> r == nudged(
                    moved as u32,
                    state.last_delay,
                    min_delay,
                    max_delay,
                    large_step,
                ) && after.consecutive_count == 0
            }
        }),
{
    lemma_nudge(delay, state.last_delay, min_delay, max_delay, small_step);
}

/// What the levels do: on the lowest the wait is that of the drawn offset alone;
/// from the middle one on the first wait of a key is the correlated one, where
/// there is a range; on the highest it is the drifted one.  All are kept in the
/// range, and the wait that is given is the one that is remembered.
pub proof fn lemma_levels(
    level: u8,
    base_delay: u32,
    random_range: u32,
    state: DelayState,
    draws: DelayDraws,
)
    ensures
        ({
            let (r, after) = drawn_delay(level, base_delay, random_range, state, draws);
            let shortest = shortest_delay(base_delay, random_range);
            let longest = longest_delay(base_delay, random_range);
            &&& after.last_delay == r
            &&& level == 0 ==> r == jittered(base_delay, random_range, draws.jitter)
                && after.consecutive_count == state.consecutive_count
            &&& level == 1 && random_range > 0 && state.last_delay == 0 && shortest
                <= draws.correlated <= longest ==> r == draws.correlated
            &&& level >= 2 && shortest <= draws.drifted <= longest ==> r == draws.drifted
            &&& level >= 2 && draws.drifted < shortest ==> r == shortest
            &&& level >= 2 && draws.drifted > longest ==> r == longest
        }),
{
}

/// A key is held from 35 milliseconds on in a short press and from 80 on in a
/// long one, by the drawn spread longer, between 20 and 200; a time that would
/// repeat the last one is changed by what was drawn for that, and no other is.
pub proof fn lemma_press_duration(last: u32, short: bool, spread: u32, change: i32)
    ensures
        ({
            let least: int = if short {
                35
            } else {
                80
            };
            let r = drawn_press_duration(last, short, spread, change);
            &&& 20 <= r <= 200
            &&& least + spread <= 200 && least + spread != last ==> r == least + spread
            &&& least + spread > 200 && last != 200 ==> r == 200
            &&& least + spread == last && last <= 200 && 20 <= last + change <= 200 ==> r == last
                + change
            &&& last == 200 && least + spread >= 200 && -180 <= change <= 0 ==> r == 200 + change
        }),
{
}

/// A new state stands on the middle level and remembers nothing; a reset forgets
/// everything and keeps the level; a level is taken over up to the highest, two,
/// and forgets nothing.
pub proof fn lemma_states(
    fresh: TimingState,
    reset_one: &mut TimingState,
    set_one: &mut TimingState,
    level: u8,
    id: usize,
)
    requires
        call_ensures(TimingState::new, (), fresh),
        call_ensures(reset, (reset_one,), ()),
        call_ensures(set_timing_variation_level, (set_one, level), ()),
    ensures
        fresh@.level == 1 && fresh@.last_press_duration == 0,
        remembered(fresh@, id).last_delay == 0 && remembered(fresh@, id).consecutive_count == 0,
        final(reset_one)@.level == old(reset_one)@.level,
        final(reset_one)@.last_press_duration == 0,
        remembered(final(reset_one)@, id) == remembered(fresh@, id),
        level <= 2 ==> final(set_one)@.level == level,
        level > 2 ==> final(set_one)@.level == 2,
        remembered(final(set_one)@, id) == remembered(old(set_one)@, id),
        final(set_one)@.last_press_duration == old(set_one)@.last_press_duration,
{
}

/// Nothing is waited for before a press, and nothing that is remembered changes.
pub proof fn lemma_no_wait_before_press(
    timing: &mut TimingState,
    profile_id: usize,
    other: usize,
    r: u32,
)
    requires
        call_ensures(next_pre_press_delay, (timing, profile_id), r),
    ensures
        r == 0,
        remembered(final(timing)@, other) == remembered(old(timing)@, other),
        final(timing)@.level == old(timing)@.level,
        final(timing)@.last_press_duration == old(timing)@.last_press_duration,
{
}

/// Whether a wait is an answer of a source to another wait, brought to the nearest
/// one between two bounds.
pub open spec fn answered_within<F: FnOnce(u32) -> i64>(
    source: F,
    asked: u32,
    shortest: int,
    longest: int,
    wait: u32,
) -> bool {
    exists|answer: i64|
        {
            &&& #[trigger] call_ensures(source, (asked,), answer)
            &&& shortest <= answer <= longest ==> wait == answer
            &&& answer < shortest ==> wait == shortest
            &&& answer > longest ==> wait == longest
        }
}

/// Whether a wait comes from the jittered one by correlation, where there is a
/// range, and by a variation of repeats with a small step from 2 to 18 and a large
/// one from 15 to 40.
pub open spec fn varied_wait<C: FnOnce(u32) -> i64>(
    base_delay: u32,
    random_range: u32,
    state: DelayState,
    jitter: i64,
    correlate: C,
    wait: u32,
) -> bool {
    let (shortest, longest) = (
        shortest_delay(base_delay, random_range),
        longest_delay(base_delay, random_range),
    );
    let first = jittered(base_delay, random_range, jitter);
    exists|moved: u32, small: u32, large: u32|
        {
            &&& wait == (#[trigger] varied(
                moved,
                state,
                shortest as u32,
                longest as u32,
                small,
                large,
            )).0
            &&& 2 <= small <= 18
            &&& 15 <= large <= 40
            &&& random_range == 0 ==> moved == first
            &&& random_range > 0 ==> answered_within(correlate, first, shortest, longest, moved)
        }
}

/// On the lowest level a wait is just jittered.  On the middle one it is also
/// correlated and kept apart from the last; on the highest the result drifts, within
/// the same bounds.  Every wait is remembered for its key, and for no other.
pub proof fn lemma_wait_of_level<C: FnOnce(u32) -> i64, D: FnOnce(u32) -> i64>(
    before: TimingModel,
    after: TimingModel,
    base_delay: u32,
    random_range: u32,
    profile_id: usize,
    other: usize,
    jitter: i64,
    correlate: C,
    drift: D,
    delay: u32,
)
    requires
        delay_follows(
            before,
            after,
            base_delay,
            random_range,
            profile_id,
            jitter,
            correlate,
            drift,
            delay,
        ),
    ensures
        ({
            let state = remembered(before, profile_id);
            &&& after.level == before.level
            &&& after.last_press_duration == before.last_press_duration
            &&& remembered(after, profile_id).last_delay == delay
            &&& other != profile_id ==> remembered(after, other) == remembered(before, other)
            &&& before.level == 0 ==> delay == jittered(base_delay, random_range, jitter)
                && remembered(after, profile_id).consecutive_count == state.consecutive_count
            &&& before.level == 1 ==> varied_wait(
                base_delay,
                random_range,
                state,
                jitter,
                correlate,
                delay,
            )
            &&& before.level >= 2 ==> exists|separated: u32|
                {
                    &&& #[trigger] varied_wait(
                        base_delay,
                        random_range,
                        state,
                        jitter,
                        correlate,
                        separated,
                    )
                    &&& answered_within(
                        drift,
                        separated,
                        shortest_delay(base_delay, random_range),
                        longest_delay(base_delay, random_range),
                        delay,
                    )
                }
        }),
{
    let state = remembered(before, profile_id);
    let level = before.level;
    let draws = choose|draws: DelayDraws|
        {
            let drawn = #[trigger] drawn_delay(level, base_delay, random_range, state, draws);
            &&& drawn_from(
                level,
                base_delay,
                random_range,
                state,
                jitter,
                correlate,
                drift,
                draws,
            )
            &&& delay == drawn.0
            &&& after == (TimingModel {
                delay_states: before.delay_states.insert(profile_id, drawn.1),
                ..before
            })
        };
    let (shortest, longest) = (
        shortest_delay(base_delay, random_range),
        longest_delay(base_delay, random_range),
    );
    let first = jittered(base_delay, random_range, jitter);
    let separated = separated_delay(level, base_delay, random_range, state, draws).0;
    if level >= 1 {
        let moved = correlated_delay(level, base_delay, random_range, draws);
        if random_range > 0 {
            assert(call_ensures(correlate, (first,), draws.correlated));
            assert(answered_within(correlate, first, shortest, longest, moved));
        }
        assert(separated == varied(
            moved,
            state,
            shortest as u32,
            longest as u32,
            draws.small_step,
            draws.large_step,
        ).0);
        assert(varied_wait(base_delay, random_range, state, jitter, correlate, separated));
    }
    if level >= 2 {
        assert(call_ensures(drift, (separated,), draws.drifted));
        assert(answered_within(drift, separated, shortest, longest, delay));
    }
}

/// On the lowest level every press takes 45 milliseconds, and nothing is
/// remembered.  On the others a press takes at least 35 or 80 of them, at most 200,
/// never as long as the one before, and its length is remembered.
pub proof fn lemma_presses_differ(timing: &mut TimingState, short: bool, spread: u32, r: u32)
    requires
        call_ensures(next_press_duration, (timing, short, spread), r),
    ensures
        old(timing)@.level == 0 ==> r == 45 && final(timing)@ == old(timing)@,
        old(timing)@.level > 0 ==> {
            let least: int = if short {
                35
            } else {
                80
            };
            let last = old(timing)@.last_press_duration;
            &&& 20 <= r <= 200
            &&& least + spread <= 200 && least + spread != last ==> r == least + spread
            &&& least + spread == last && last < 193 ==> r != last && last - 7 <= r <= last + 7
            &&& final(timing)@.last_press_duration == r
            &&& final(timing)@.level == old(timing)@.level
            &&& final(timing)@.delay_states == old(timing)@.delay_states
        },
{
}

} // verus!
