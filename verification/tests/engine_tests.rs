use gacha_sim::banner::BannerConfig;
use gacha_sim::controller::RunController;
use gacha_sim::goal::GoalKind;
use gacha_sim::goal::GoalPart;
use gacha_sim::goal::GoalPreset;
use gacha_sim::goal::GoalSpec;
use gacha_sim::histogram::ResultHistogram;
use gacha_sim::rng::Rng;
use gacha_sim::weighted_choice::sample;
use gacha_sim::weighted_choice::weighted_choice;
use gacha_sim::Color;
use gacha_sim::Pool;

fn banner() -> BannerConfig {
    BannerConfig {
        focus_sizes: [3, 3, 3, 3],
        rate_focus: 3,
        rate_off: 3,
        pity_floor: 50,
        pity_ceiling: 120,
        pity_step: 50,
    }
}

#[test]
fn color_ordinals_are_dense() {
    assert_eq!(Color::try_from(0), Ok(Color::Red));
    assert_eq!(Color::try_from(1), Ok(Color::Blue));
    assert_eq!(Color::try_from(2), Ok(Color::Green));
    assert_eq!(Color::try_from(3), Ok(Color::Colorless));
    assert_eq!(Color::try_from(4), Err(()));
    let all = Color::all();
    assert_eq!(all, vec![Color::Red, Color::Blue, Color::Green, Color::Colorless]);
    for (i, c) in all.iter().enumerate() {
        assert_eq!(c.index(), i);
    }
}

#[test]
fn pool_ordinals_are_dense() {
    assert_eq!(Pool::try_from(0), Ok(Pool::Focus));
    assert_eq!(Pool::try_from(1), Ok(Pool::Fivestar));
    assert_eq!(Pool::try_from(2), Ok(Pool::Fourstar));
    assert_eq!(Pool::try_from(3), Ok(Pool::Threestar));
    assert_eq!(Pool::try_from(4), Err(()));
}

#[test]
fn banner_validation() {
    assert!(BannerConfig::new([3, 3, 3, 3], (3, 3), 50, 120, 50).is_some());
    // A focus rate of zero would make every goal unreachable.
    assert!(BannerConfig::new([3, 3, 3, 3], (0, 3), 50, 120, 50).is_none());
    // Rates above 100 percent.
    assert!(BannerConfig::new([3, 3, 3, 3], (60, 60), 50, 120, 50).is_none());
    // Ceiling too close to the floor.
    assert!(BannerConfig::new([3, 3, 3, 3], (3, 3), 118, 120, 50).is_none());
    // Ceiling beyond the supported schedule length.
    assert!(BannerConfig::new([3, 3, 3, 3], (3, 3), 50, 1200, 50).is_none());
}

#[test]
fn top_rate_schedule() {
    let b = banner();
    // Flat at the base below and at the floor: (3 + 3) * 100 bp.
    assert_eq!(b.top_rate_at(0), 600);
    assert_eq!(b.top_rate_at(50), 600);
    // Linear ramp above the floor.
    assert_eq!(b.top_rate_at(51), 650);
    assert_eq!(b.top_rate_at(60), 1100);
    // Guaranteed at the ceiling.
    assert_eq!(b.top_rate_at(120), 10000);
    assert_eq!(b.top_rate_at(500), 10000);
}

#[test]
fn top_rate_saturates_before_ceiling() {
    let b = BannerConfig {
        focus_sizes: [1, 0, 0, 0],
        rate_focus: 50,
        rate_off: 40,
        pity_floor: 10,
        pity_ceiling: 200,
        pity_step: 500,
    };
    assert_eq!(b.top_rate_at(10), 9000);
    assert_eq!(b.top_rate_at(11), 9500);
    assert_eq!(b.top_rate_at(12), 10000);
    assert_eq!(b.top_rate_at(13), 10000);
}

#[test]
fn weighted_choice_picks_by_cumulative_weight() {
    let ws = vec![2u64, 0, 3, 5];
    assert_eq!(weighted_choice(&ws, 0), 0);
    assert_eq!(weighted_choice(&ws, 1), 0);
    assert_eq!(weighted_choice(&ws, 2), 2);
    assert_eq!(weighted_choice(&ws, 4), 2);
    assert_eq!(weighted_choice(&ws, 5), 3);
    assert_eq!(weighted_choice(&ws, 9), 3);
}

#[test]
fn sampler_degenerate_inputs_fail() {
    let mut rng = Rng::new(7);
    assert_eq!(sample(&vec![], &mut rng), None);
    assert_eq!(sample(&vec![0u64, 0, 0], &mut rng), None);
    let got = sample(&vec![0u64, 9, 0], &mut rng);
    assert_eq!(got, Some(1));
}

#[test]
fn goal_availability_gating() {
    let b = banner();
    // Empty part list: not available.
    let empty = GoalSpec { kind: GoalKind::All, goals: vec![], preset: GoalPreset::Custom };
    assert!(!empty.is_available(&b));
    // A part whose color has no focus slots: not available.
    let mut narrow = b;
    narrow.focus_sizes = [0, 3, 3, 3];
    let red = GoalSpec {
        kind: GoalKind::All,
        goals: vec![GoalPart { unit_color: Color::Red, num_copies: 1 }],
        preset: GoalPreset::Custom,
    };
    assert!(!red.is_available(&narrow));
    assert!(red.is_available(&b));
}

#[test]
fn goal_satisfaction_rules() {
    let g_all = GoalSpec {
        kind: GoalKind::All,
        goals: vec![
            GoalPart { unit_color: Color::Red, num_copies: 2 },
            GoalPart { unit_color: Color::Blue, num_copies: 1 },
        ],
        preset: GoalPreset::Custom,
    };
    let g_any = GoalSpec { kind: GoalKind::Any, goals: g_all.goals.clone(), preset: GoalPreset::Custom };
    let none = vec![0u64, 0, 0, 0];
    let red_only = vec![2u64, 0, 0, 0];
    let both = vec![2u64, 1, 0, 0];
    assert!(!g_all.is_satisfied(&none));
    assert!(!g_all.is_satisfied(&red_only));
    assert!(g_all.is_satisfied(&both));
    assert!(!g_any.is_satisfied(&none));
    assert!(g_any.is_satisfied(&red_only));
    assert!(g_any.is_satisfied(&both));
}

#[test]
fn preset_rederives_parts_from_banner() {
    let mut b = banner();
    let mut g = GoalSpec { kind: GoalKind::Any, goals: vec![], preset: GoalPreset::Custom };
    g.set_preset(&b, GoalPreset::AllFocusColors);
    assert_eq!(g.kind, GoalKind::All);
    assert_eq!(g.goals.len(), 4);
    // After the banner loses two colors the expansion must shrink too.
    b.focus_sizes = [0, 3, 0, 3];
    g.set_preset(&b, GoalPreset::AllFocusColors);
    assert_eq!(
        g.goals,
        vec![
            GoalPart { unit_color: Color::Blue, num_copies: 1 },
            GoalPart { unit_color: Color::Colorless, num_copies: 1 },
        ]
    );
    let empty = BannerConfig { focus_sizes: [0, 0, 0, 0], ..b };
    assert!(GoalPreset::Custom.is_available(&empty));
    assert!(!GoalPreset::AllFocusColors.is_available(&empty));
    assert!(GoalPreset::AnyFocus.is_available(&b));
}

#[test]
fn histogram_conservation() {
    let mut h = ResultHistogram::new();
    assert_eq!(h.count(), 0);
    for rolls in [5usize, 3, 5, 9, 5] {
        h.record(rolls);
    }
    assert_eq!(h.count(), 5);
    let buckets = h.raw_buckets();
    let total: u64 = buckets.iter().map(|p| p.1).sum();
    assert_eq!(total, 5);
    assert_eq!(buckets[5], (5, 3));
    assert_eq!(buckets[3], (3, 1));
    assert_eq!(buckets[9], (9, 1));
    assert_eq!(buckets.len(), 10);
    h.clear();
    assert_eq!(h.count(), 0);
    assert_eq!(h.raw_buckets().len(), 0);
}

#[test]
fn histogram_summary_statistics() {
    let mut h = ResultHistogram::new();
    for rolls in [1usize, 2, 2, 3, 10] {
        h.record(rolls);
    }
    let s = h.summary().expect("non-empty histogram");
    assert_eq!(s.count, 5);
    assert_eq!(s.total_rolls, 18);
    assert_eq!(s.median, 2);
    assert_eq!(s.p90, 10);
    assert_eq!(h.percentile(0), 0);
    assert_eq!(h.percentile(100), 10);
    let empty = ResultHistogram::new();
    assert!(empty.summary().is_none());
}

#[test]
fn clear_on_reconfigure() {
    let mut ctl = RunController::standard(11);
    ctl.run(5);
    assert!(ctl.count() > 0);
    // Changing the banner clears the results.
    ctl.set_focus_size(Color::Red, 2);
    assert_eq!(ctl.count(), 0);
    ctl.run(5);
    assert!(ctl.count() > 0);
    // Changing the goal clears the results.
    ctl.set_kind(GoalKind::Any);
    assert_eq!(ctl.count(), 0);
    ctl.run(5);
    assert!(ctl.count() > 0);
    // Replacing the whole configuration clears the results.
    ctl.configure_banner(banner());
    assert_eq!(ctl.count(), 0);
}

#[test]
fn legendary_rates_force_focus_layout() {
    let mut ctl = RunController::standard(3);
    ctl.set_focus_size(Color::Red, 7);
    assert_eq!(ctl.banner.focus_sizes, [7, 3, 3, 3]);
    ctl.set_rates((8, 0));
    assert_eq!(ctl.banner.focus_sizes, [3, 3, 3, 3]);
    assert_eq!(ctl.banner.starting_rates(), (8, 0));
    ctl.set_rates((3, 3));
    assert_eq!(ctl.banner.focus_sizes, [3, 3, 3, 3]);
}

#[test]
fn goal_part_editing() {
    let mut ctl = RunController::standard(3);
    ctl.configure_goal(GoalSpec { kind: GoalKind::All, goals: vec![], preset: GoalPreset::Custom });
    // A part asking for zero copies is dropped, not retained.
    ctl.add_part(Color::Red, 0);
    assert_eq!(ctl.goal.goals.len(), 0);
    ctl.add_part(Color::Red, 2);
    ctl.add_part(Color::Green, 1);
    assert_eq!(ctl.goal.goals.len(), 2);
    ctl.set_part_color(1, Color::Blue);
    assert_eq!(ctl.goal.goals[1].unit_color, Color::Blue);
    ctl.set_part_quantity(1, 5);
    assert_eq!(ctl.goal.goals[1].num_copies, 5);
    // Setting a part's quantity to zero removes it.
    ctl.set_part_quantity(0, 0);
    assert_eq!(ctl.goal.goals, vec![GoalPart { unit_color: Color::Blue, num_copies: 5 }]);
}

#[test]
fn run_requires_availability() {
    let mut ctl = RunController::standard(3);
    ctl.configure_goal(GoalSpec { kind: GoalKind::All, goals: vec![], preset: GoalPreset::Custom });
    assert!(!ctl.is_goal_available());
    ctl.run(50);
    // An unavailable goal never runs a trial.
    assert_eq!(ctl.count(), 0);
    ctl.add_part(Color::Red, 1);
    assert!(ctl.is_goal_available());
    ctl.run(5);
    assert!(ctl.count() > 0);
}

#[test]
fn preset_resync_happens_before_run() {
    let mut ctl = RunController::standard(9);
    // The preset re-derives against the current banner when running.
    ctl.set_focus_size(Color::Red, 0);
    ctl.run(5);
    assert!(ctl.goal.goals.iter().all(|p| p.unit_color != Color::Red));
    assert!(ctl.count() > 0);
}

#[test]
fn rng_draws_are_deterministic_and_bounded() {
    let mut a = Rng::new(1);
    let mut b = Rng::new(1);
    let mut seen_nonzero = false;
    for _ in 0..100 {
        let x = a.next_below(37);
        assert!(x < 37);
        assert_eq!(x, b.next_below(37));
        if x != 0 {
            seen_nonzero = true;
        }
    }
    assert!(seen_nonzero);
}

#[test]
fn part_list_is_unbounded() {
    let mut ctl = RunController::standard(1);
    ctl.configure_goal(GoalSpec { kind: GoalKind::All, goals: vec![], preset: GoalPreset::Custom });
    for _ in 0..300 {
        ctl.add_part(Color::Red, 1);
    }
    assert_eq!(ctl.goal.goals.len(), 300);
    ctl.run(5);
    assert!(ctl.count() > 0);
}
