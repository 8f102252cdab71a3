use gacha_sim::banner::BannerConfig;
use gacha_sim::goal::GoalKind;
use gacha_sim::goal::GoalPart;
use gacha_sim::goal::GoalPreset;
use gacha_sim::goal::GoalSpec;
use gacha_sim::histogram::ResultHistogram;
use gacha_sim::sim::PitySimulator;
use gacha_sim::Color;

fn legendary_banner() -> BannerConfig {
    BannerConfig {
        focus_sizes: [3, 3, 3, 3],
        rate_focus: 8,
        rate_off: 0,
        pity_floor: 50,
        pity_ceiling: 120,
        pity_step: 50,
    }
}

fn one_red() -> GoalSpec {
    GoalSpec {
        kind: GoalKind::All,
        goals: vec![GoalPart { unit_color: Color::Red, num_copies: 1 }],
        preset: GoalPreset::Custom,
    }
}

/// Upper bound on one trial's length that the simulator proves:
/// `total_copies * (7 * ceiling + 8) + 4 * ceiling`.
fn proven_bound(b: &BannerConfig, g: &GoalSpec) -> usize {
    let copies: usize = g.goals.iter().map(|p| p.num_copies as usize).sum();
    copies * (7 * b.pity_ceiling as usize + 8) + 4 * b.pity_ceiling as usize
}

#[test]
fn trials_terminate_within_bound() {
    let b = legendary_banner();
    let g = one_red();
    let bound = proven_bound(&b, &g);
    let mut sim = PitySimulator::new(b, g.clone(), 42);
    for _ in 0..200 {
        let rolls = sim.roll_until_goal();
        assert!(rolls >= 1);
        assert!(rolls <= bound);
    }
}

#[test]
fn multi_copy_goal_needs_at_least_its_copies() {
    let b = legendary_banner();
    let g = GoalSpec {
        kind: GoalKind::All,
        goals: vec![
            GoalPart { unit_color: Color::Red, num_copies: 2 },
            GoalPart { unit_color: Color::Blue, num_copies: 1 },
        ],
        preset: GoalPreset::Custom,
    };
    let bound = proven_bound(&b, &g);
    let mut sim = PitySimulator::new(b, g, 5);
    for _ in 0..100 {
        let rolls = sim.roll_until_goal();
        // At least one roll per required copy.
        assert!(rolls >= 3);
        assert!(rolls <= bound);
    }
}

/// An independent implementation of the roll model, written directly
/// from the rate description with floating-point arithmetic and a
/// different random number generator.
struct ReferenceModel {
    banner: BannerConfig,
    state: u64,
}

impl ReferenceModel {
    fn next_unit(&mut self) -> f64 {
        // xorshift64*, unrelated to the library's congruential source.
        let mut x = self.state;
        x ^= x >> 12;
        x ^= x << 25;
        x ^= x >> 27;
        self.state = x;
        let out = x.wrapping_mul(0x2545F4914F6CDD1D) >> 11;
        out as f64 / (1u64 << 53) as f64
    }

    fn top_rate(&self, pity: u16) -> f64 {
        let b = &self.banner;
        let base = (b.rate_focus as f64 + b.rate_off as f64) * 100.0;
        if pity >= b.pity_ceiling {
            10000.0
        } else if pity <= b.pity_floor {
            base
        } else {
            let ramped = base + (pity - b.pity_floor) as f64 * b.pity_step as f64;
            ramped.min(10000.0)
        }
    }

    /// One trial aiming at a single focus copy of `target`.
    fn trial(&mut self, target: usize) -> usize {
        let b = self.banner;
        let mut pity = [0u16; 4];
        let mut rolls = 0usize;
        loop {
            rolls += 1;
            // Hard pity: the first ceiling color hits its focus pool.
            let forced = (0..4).find(|&c| b.focus_sizes[c] > 0 && pity[c] >= b.pity_ceiling);
            let hit: Option<usize> = match forced {
                Some(c) => Some(c),
                None => {
                    // One weighted draw over the sixteen outcomes.
                    let rf = b.rate_focus as f64;
                    let ro = b.rate_off as f64;
                    let mut weights = [0.0f64; 16];
                    for i in 0..16 {
                        let c = i % 4;
                        let top = self.top_rate(pity[c]);
                        let avail = b.focus_sizes[c] > 0;
                        weights[i] = match i / 4 {
                            0 => {
                                if avail {
                                    2.0 * top * rf
                                } else {
                                    0.0
                                }
                            }
                            1 => 2.0 * top * ro + if avail { 0.0 } else { 2.0 * top * rf },
                            _ => (10000.0 - top) * (rf + ro),
                        };
                    }
                    let total: f64 = weights.iter().sum();
                    let mut r = self.next_unit() * total;
                    let mut idx = 15;
                    for (i, w) in weights.iter().enumerate() {
                        if r < *w {
                            idx = i;
                            break;
                        }
                        r -= *w;
                    }
                    if idx / 4 == 0 { Some(idx % 4) } else { None }
                }
            };
            match hit {
                Some(c) => {
                    if c == target {
                        return rolls;
                    }
                    for k in 0..4 {
                        if k == c {
                            pity[k] = b.pity_floor;
                        } else {
                            pity[k] = (pity[k] + 1).min(b.pity_ceiling);
                        }
                    }
                }
                None => {
                    for k in 0..4 {
                        pity[k] = (pity[k] + 1).min(b.pity_ceiling);
                    }
                }
            }
        }
    }
}

#[test]
fn legendary_scenario_mean_matches_reference() {
    let b = legendary_banner();
    let g = one_red();
    let trials = 1000;

    let mut sim = PitySimulator::new(b, g, 20260101);
    let mut hist = ResultHistogram::new();
    for _ in 0..trials {
        hist.record(sim.roll_until_goal());
    }
    let s = hist.summary().expect("trials were recorded");
    assert_eq!(s.count as usize, trials);
    let mean = s.total_rolls as f64 / s.count as f64;

    let mut reference = ReferenceModel { banner: b, state: 0x9E3779B97F4A7C15 };
    let mut ref_total = 0usize;
    for _ in 0..trials {
        ref_total += reference.trial(0);
    }
    let ref_mean = ref_total as f64 / trials as f64;

    // Two independent estimates of the same expectation.
    assert!(mean > 1.0 && ref_mean > 1.0);
    let rel = (mean - ref_mean).abs() / ref_mean;
    assert!(rel < 0.15, "library mean {mean}, reference mean {ref_mean}");
}

#[test]
fn histogram_mean_is_plausible_for_flat_rates() {
    // 8% focus rate, uniform colors: one red focus is roughly a 2%
    // event per roll at the base rate, helped by pity escalation.
    let b = legendary_banner();
    let g = one_red();
    let mut sim = PitySimulator::new(b, g, 7);
    let mut hist = ResultHistogram::new();
    for _ in 0..1000 {
        hist.record(sim.roll_until_goal());
    }
    let s = hist.summary().expect("trials were recorded");
    let mean = s.total_rolls as f64 / s.count as f64;
    assert!(mean > 10.0 && mean < 100.0, "mean {mean}");
    assert!(s.median >= 1 && s.median <= s.p90);
}

#[test]
fn same_seed_gives_same_trials() {
    let b = legendary_banner();
    let g = one_red();
    let mut s1 = PitySimulator::new(b, g.clone(), 99);
    let mut s2 = PitySimulator::new(b, g, 99);
    for _ in 0..50 {
        assert_eq!(s1.roll_until_goal(), s2.roll_until_goal());
    }
}
