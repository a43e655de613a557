use autokey_rust::humanizer::{
    apply_repeat_variation, bounded_delay, jittered_delay, maximum_delay, minimum_delay,
    next_delay, next_pre_press_delay, next_press_duration, nudge_away, press_duration, reset,
    set_timing_variation_level, vary_repeat, DelayState, TimingState,
};
use std::cell::{Cell, RefCell};
use std::collections::HashMap;

const STATES: usize = 8;

/// The continuous draws behind the timing: a normal distribution, a chain of
/// correlated states and a drifting tempo.
struct Draws {
    spare: Cell<Option<f64>>,
    chain: Cell<usize>,
    transitions: Vec<Vec<f64>>,
    tempo: RefCell<HashMap<usize, f64>>,
}

impl Draws {
    fn new() -> Self {
        let mut transitions = Vec::new();
        for i in 0..STATES {
            let weights: Vec<f64> = (0..STATES)
                .map(|j| (-(i as f64 - j as f64).abs() * 0.6).exp())
                .collect();
            let sum: f64 = weights.iter().sum();
            transitions.push(weights.iter().map(|w| w / sum).collect());
        }
        Draws {
            spare: Cell::new(None),
            chain: Cell::new(STATES / 2),
            transitions,
            tempo: RefCell::new(HashMap::new()),
        }
    }

    fn gaussian(&self) -> f64 {
        if let Some(spare) = self.spare.take() {
            return spare;
        }
        loop {
            let u = fastrand::f64() * 2.0 - 1.0;
            let v = fastrand::f64() * 2.0 - 1.0;
            let s = u * u + v * v;
            if !(0.0..1.0).contains(&s) || s == 0.0 {
                continue;
            }
            let factor = (-2.0 * s.ln() / s).sqrt();
            self.spare.set(Some(v * factor));
            return u * factor;
        }
    }

    fn bias(&self) -> f64 {
        let r = fastrand::f64();
        let mut sum = 0.0;
        let mut next = STATES - 1;
        for j in 0..STATES {
            sum += self.transitions[self.chain.get()][j];
            if r < sum {
                next = j;
                break;
            }
        }
        self.chain.set(next);
        (next as f64 / (STATES - 1) as f64 - 0.5) * 0.3
    }

    fn delay(&self, timing: &mut TimingState, base: u32, range: u32, id: usize) -> u32 {
        let jitter = if range == 0 {
            0
        } else {
            (self.gaussian() * (f64::from(range) / 3.0).max(1.0)).round() as i64
        };
        next_delay(
            timing,
            base,
            range,
            id,
            jitter,
            |delay| (f64::from(delay) * (1.0 + self.bias())).round() as i64,
            |delay| {
                let change = self.gaussian() * 0.006;
                let mut tempo = self.tempo.borrow_mut();
                let factor = tempo.entry(id).or_insert(1.0);
                *factor = (*factor + change).clamp(0.92, 1.08);
                (f64::from(delay) * *factor).round() as i64
            },
        )
    }
}

#[test]
fn delay_stays_in_configured_bounds_without_extra_pauses() {
    let draws = Draws::new();
    let mut timing = TimingState::new();
    reset(&mut timing);
    set_timing_variation_level(&mut timing, 1);
    for _ in 0..500 {
        let delay = draws.delay(&mut timing, 1000, 200, 0);
        assert!((800..=1200).contains(&delay));
    }
}

#[test]
fn level_zero_keeps_configured_random_range() {
    let draws = Draws::new();
    let mut timing = TimingState::new();
    reset(&mut timing);
    set_timing_variation_level(&mut timing, 0);
    let mut changed = false;
    for _ in 0..200 {
        let delay = draws.delay(&mut timing, 500, 200, 0);
        assert!((300..=700).contains(&delay));
        changed |= delay != 500;
    }
    assert!(changed);
    assert_eq!(next_press_duration(&mut timing, true, 4), 45);
    assert_eq!(next_pre_press_delay(&mut timing, 0), 0);
}

#[test]
fn level_two_short_pauses_remain_bounded() {
    let draws = Draws::new();
    let mut timing = TimingState::new();
    reset(&mut timing);
    set_timing_variation_level(&mut timing, 2);
    for _ in 0..2000 {
        let delay = draws.delay(&mut timing, 1000, 200, 0);
        assert!((800..=1374).contains(&delay));
    }
}

#[test]
fn markov_chain_produces_correlated_delays() {
    let draws = Draws::new();
    let mut timing = TimingState::new();
    reset(&mut timing);
    set_timing_variation_level(&mut timing, 1);

    let delays: Vec<u32> = (0..200).map(|_| draws.delay(&mut timing, 1000, 200, 0)).collect();

    let median = 1000u32;
    let mut correlated = 0usize;
    let mut total = 0usize;
    for window in delays.windows(2) {
        total += 1;
        if (window[0] >= median) == (window[1] >= median) {
            correlated += 1;
        }
    }

    let correlation_ratio = correlated as f64 / total as f64;
    assert!(
        correlation_ratio > 0.50,
        "delay correlation ratio should be > 0.50, got {correlation_ratio:.2}"
    );
}

#[test]
fn shortest_and_longest_delays() {
    assert_eq!(minimum_delay(1000, 200), 800);
    assert_eq!(maximum_delay(1000, 200), 1200);
    assert_eq!(minimum_delay(100, 200), 20);
    assert_eq!(minimum_delay(10, 0), 20);
    assert_eq!(maximum_delay(10, 0), 20);
    assert_eq!(minimum_delay(100, 0), 100);
    assert_eq!(minimum_delay(30, 0), 30);
    assert_eq!(minimum_delay(1000, 0), 1000);
    assert_eq!(maximum_delay(1000, 0), 1000);
    assert_eq!(maximum_delay(u32::MAX, 5), u32::MAX);
    assert_eq!(bounded_delay(-4, 20, 30), 20);
    assert_eq!(bounded_delay(25, 20, 30), 25);
    assert_eq!(bounded_delay(i64::MAX, 20, 30), 30);
}

#[test]
fn jitter_stays_in_range() {
    assert_eq!(jittered_delay(500, 200, 0), 500);
    assert_eq!(jittered_delay(500, 200, 150), 650);
    assert_eq!(jittered_delay(500, 200, -900), 300);
    assert_eq!(jittered_delay(500, 200, i64::MAX), 700);
    assert_eq!(jittered_delay(500, 200, i64::MIN), 300);
    assert_eq!(jittered_delay(500, 0, 77), 500);
    assert_eq!(jittered_delay(50, 200, -60), 20);
}

#[test]
fn nudging_moves_away_within_bounds() {
    assert_eq!(nudge_away(1000, 1000, 800, 1200, 10), 1010);
    assert_eq!(nudge_away(999, 1000, 800, 1200, 10), 989);
    assert_eq!(nudge_away(1195, 1190, 800, 1200, 10), 1200);
    assert_eq!(nudge_away(1200, 1199, 800, 1200, 10), 1190);
    assert_eq!(nudge_away(800, 801, 800, 1200, 10), 810);
    assert_eq!(nudge_away(900, 900, 900, 900, 10), 900);
}

#[test]
fn repeated_delays_are_varied() {
    let mut state = DelayState {
        last_delay: 1000,
        consecutive_count: 0,
    };
    assert_eq!(vary_repeat(1001, &mut state, 800, 1200, 2, 15), 1003);
    assert_eq!(state.consecutive_count, 1);
    assert_eq!(vary_repeat(1100, &mut state, 800, 1200, 2, 15), 1100);
    assert_eq!(state.consecutive_count, 0);
    state.consecutive_count = 2;
    assert_eq!(vary_repeat(1005, &mut state, 800, 1200, 2, 15), 1020);
    assert_eq!(state.consecutive_count, 0);
    state.last_delay = 0;
    assert_eq!(vary_repeat(1001, &mut state, 800, 1200, 2, 15), 1001);
    state.last_delay = 1000;
    for _ in 0..200 {
        let delay = apply_repeat_variation(1000, &mut state, 800, 1200);
        assert!(delay >= 1002 && delay <= 1058);
    }
}

#[test]
fn fixed_timing_is_exact() {
    let mut timing = TimingState::new();
    set_timing_variation_level(&mut timing, 0);
    let delay = next_delay(&mut timing, 777, 0, 3, 0, |_| panic!(), |_| panic!());
    assert_eq!(delay, 777);
    set_timing_variation_level(&mut timing, 1);
    let delay = next_delay(&mut timing, 777, 0, 3, 0, |_| panic!(), |_| panic!());
    assert_eq!(delay, 777);
    set_timing_variation_level(&mut timing, 0);
    let delay = next_delay(&mut timing, 777, 50, 3, -20, |_| 0, |_| 0);
    assert_eq!(delay, 757);
}

#[test]
fn without_a_range_nothing_varies() {
    let draws = Draws::new();
    for base in [20, 45, 1000] {
        let mut timing = TimingState::new();
        reset(&mut timing);
        for level in [0, 1, 2] {
            set_timing_variation_level(&mut timing, level);
            for _ in 0..100 {
                assert_eq!(draws.delay(&mut timing, base, 0, 0), base);
            }
            let delay = next_delay(&mut timing, base, 0, 0, 7, |_| 5000, |_| -9);
            assert_eq!(delay, base);
        }
    }
}

#[test]
fn levels_above_two_count_as_two() {
    for level in [2, 9] {
        let mut timing = TimingState::new();
        set_timing_variation_level(&mut timing, level);
        let delay = next_delay(&mut timing, 1000, 200, 0, 0, |d| d as i64, |d| d as i64 - 50);
        assert_eq!(delay, 950);
    }
    let mut timing = TimingState::new();
    set_timing_variation_level(&mut timing, 1);
    let delay = next_delay(&mut timing, 1000, 200, 0, 0, |d| d as i64, |d| d as i64 - 50);
    assert_eq!(delay, 1000);
}

#[test]
fn no_level_adds_pauses() {
    let draws = Draws::new();
    for level in [0, 1, 2] {
        let mut timing = TimingState::new();
        set_timing_variation_level(&mut timing, level);
        for _ in 0..2000 {
            assert_eq!(next_pre_press_delay(&mut timing, 0), 0);
            let delay = draws.delay(&mut timing, 1000, 200, 0);
            assert!((800..=1200).contains(&delay));
        }
        let mut timing = TimingState::new();
        set_timing_variation_level(&mut timing, level);
        let delay = next_delay(&mut timing, 1000, 200, 0, 900, |_| 5000, |_| 5000);
        assert_eq!(delay, 1200);
    }
}

#[test]
fn resetting_forgets_the_last_delay() {
    let mut timing = TimingState::new();
    set_timing_variation_level(&mut timing, 1);
    assert_eq!(next_delay(&mut timing, 500, 100, 0, 0, |d| d as i64, |_| 0), 500);
    assert_ne!(next_delay(&mut timing, 500, 100, 0, 0, |d| d as i64, |_| 0), 500);
    reset(&mut timing);
    assert_eq!(next_delay(&mut timing, 500, 100, 0, 0, |d| d as i64, |_| 0), 500);
    assert_eq!(next_delay(&mut timing, 500, 100, 1, 0, |d| d as i64, |_| 0), 500);
}

#[test]
fn press_durations_are_bounded_and_change() {
    assert_eq!(press_duration(0, true, 10, 3), 45);
    assert_eq!(press_duration(45, true, 10, 3), 48);
    assert_eq!(press_duration(45, true, 10, -7), 38);
    assert_eq!(press_duration(0, false, 10, 3), 90);
    assert_eq!(press_duration(0, false, 4000, 3), 200);
    assert_eq!(press_duration(200, false, 4000, 7), 200);
    assert_eq!(press_duration(0, true, u32::MAX, 3), 200);
    let mut timing = TimingState::new();
    let mut last = next_press_duration(&mut timing, true, 5);
    assert_eq!(last, 40);
    for _ in 0..50 {
        let next = next_press_duration(&mut timing, true, last - 35);
        let apart = next.abs_diff(last);
        assert!((2..=7).contains(&apart));
        last = 40;
        reset(&mut timing);
        assert_eq!(next_press_duration(&mut timing, true, 5), 40);
    }
}
