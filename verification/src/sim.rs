use crate::banner::BannerConfig;
use crate::banner::FULL_RATE_BP;
use crate::goal::part_done;
use crate::goal::GoalKind;
use crate::goal::GoalPart;
use crate::goal::GoalSpec;
use crate::rng::lcg_next;
use crate::rng::lcg_output;
use crate::rng::Rng;
use crate::weighted_choice::lemma_prefix_sum_monotone;
use crate::weighted_choice::prefix_sum;
use crate::weighted_choice::sample;
use crate::weighted_choice::total_weight;
use crate::Color;
use crate::Pool;
use crate::NUM_COLORS;
use vstd::prelude::*;

verus! {

/// Number of joint `(pool, color)` outcomes of one roll.
pub const NUM_OUTCOMES: usize = 16;

/// The color with ordinal `i` (callers keep `i` in range).
pub open spec fn color_of(i: int) -> Color {
    if i == 0 {
        Color::Red
    } else if i == 1 {
        Color::Blue
    } else if i == 2 {
        Color::Green
    } else {
        Color::Colorless
    }
}

/// The pool with ordinal `i` (callers keep `i` in range).
pub open spec fn pool_of(i: int) -> Pool {
    if i == 0 {
        Pool::Focus
    } else if i == 1 {
        Pool::Fivestar
    } else if i == 2 {
        Pool::Fourstar
    } else {
        Pool::Threestar
    }
}

/// The `(pool, color)` pair a flattened outcome index stands for.
pub open spec fn outcome_of(i: int) -> (Pool, Color) {
    (pool_of(i / 4), color_of(i % 4))
}

/// Weight of outcome `i` in one roll, given the per-color pity values.
///
/// Each color owns an equal share of the outcome space; its top-tier
/// part grows with its own pity and splits between the focus and the
/// generic sub-pool by the starting rates (the focus part falls to the
/// generic sub-pool when the banner offers no focus item of the color);
/// the rest of the share splits evenly between the two lower pools.
pub open spec fn weight_at(b: BannerConfig, pity: Seq<u16>, i: int) -> int {
    let c = i % 4;
    let top = b.top_rate(pity[c]);
    let avail = b.focus_sizes@[c] > 0;
    if i / 4 == 0 {
        if avail {
            2 * top * b.rate_focus
        } else {
            0
        }
    } else if i / 4 == 1 {
        2 * top * b.rate_off + if avail {
            0
        } else {
            2 * top * b.rate_focus
        }
    } else {
        (FULL_RATE_BP - top) * (b.rate_focus + b.rate_off)
    }
}

/// All sixteen outcome weights of one roll.
pub open spec fn weights_of(b: BannerConfig, pity: Seq<u16>) -> Seq<u64> {
    Seq::new(16, |i: int| weight_at(b, pity, i) as u64)
}

/// A color whose pity has reached the ceiling and whose focus pool is
/// non-empty: its focus hit is guaranteed by hard pity.
pub open spec fn eligible(b: BannerConfig, pity: Seq<u16>, c: int) -> bool {
    b.focus_sizes@[c] > 0 && pity[c] >= b.pity_ceiling
}

/// Ordinal of the first color whose focus hit hard pity guarantees,
/// or `4` when no color has reached the ceiling.
pub open spec fn first_eligible(b: BannerConfig, pity: Seq<u16>) -> int {
    if eligible(b, pity, 0) {
        0
    } else if eligible(b, pity, 1) {
        1
    } else if eligible(b, pity, 2) {
        2
    } else if eligible(b, pity, 3) {
        3
    } else {
        4
    }
}

/// A pity counter one roll later, capped at the ceiling (rates saturate
/// there, so larger values are indistinguishable).
pub open spec fn cap_inc(p: u16, ceiling: u16) -> u16 {
    if p >= ceiling {
        ceiling
    } else {
        (p + 1) as u16
    }
}

/// Pity values after a focus hit of color `c`: the hit color resets to
/// the floor, every other color escalates by one roll.
pub open spec fn pity_after_hit(p: Seq<u16>, c: int, b: BannerConfig) -> Seq<u16> {
    Seq::new(4, |k: int| if k == c {
        b.pity_floor
    } else {
        cap_inc(p[k], b.pity_ceiling)
    })
}

/// Pity values after a roll without a focus hit: every color escalates.
pub open spec fn pity_after_miss(p: Seq<u16>, b: BannerConfig) -> Seq<u16> {
    Seq::new(4, |k: int| cap_inc(p[k], b.pity_ceiling))
}

/// Every rate is positive for a well-formed banner.
proof fn lemma_top_rate_positive(b: BannerConfig, p: u16)
    requires
        b.wf(),
    ensures
        100 <= b.top_rate(p) <= FULL_RATE_BP as int,
{
    crate::banner::lemma_top_rate_monotone(b, p, p);
    if b.pity_floor < p < b.pity_ceiling {
        assert(0 <= (p - b.pity_floor) * b.pity_step) by (nonlinear_arith)
            requires
                p > b.pity_floor,
        ;
    }
}

/// Each outcome weight lies between 0 and 5,100,000.
proof fn lemma_weight_at_bounds(b: BannerConfig, pity: Seq<u16>, i: int)
    requires
        b.wf(),
        pity.len() == 4,
        0 <= i < 16,
    ensures
        0 <= weight_at(b, pity, i) <= 5100000,
{
    let c = i % 4;
    let top = b.top_rate(pity[c]);
    lemma_top_rate_positive(b, pity[c]);
    assert(0 <= 2 * top * b.rate_focus <= 5100000) by (nonlinear_arith)
        requires
            0 <= top <= 10000,
            0 <= b.rate_focus <= 255,
    ;
    assert(0 <= 2 * top * b.rate_off <= 5100000 - 2 * top * b.rate_focus || 2 * top * b.rate_off
        + 2 * top * b.rate_focus <= 5100000) by (nonlinear_arith)
        requires
            0 <= top <= 10000,
            0 <= b.rate_focus + b.rate_off <= 100,
            0 <= b.rate_focus,
            0 <= b.rate_off,
    ;
    assert(0 <= (FULL_RATE_BP - top) * (b.rate_focus + b.rate_off) <= 5100000) by (nonlinear_arith)
        requires
            0 <= top <= 10000,
            0 <= b.rate_focus + b.rate_off <= 100,
            FULL_RATE_BP == 10000,
    ;
}

/// Prefix sums of a sequence of bounded entries are bounded.
proof fn lemma_prefix_sum_bound(ws: Seq<u64>, m: int, n: int)
    requires
        0 <= n <= ws.len(),
        forall|j: int| 0 <= j < n ==> ws[j] <= m,
        m >= 0,
    ensures
        prefix_sum(ws, n) <= n * m,
    decreases n,
{
    if n > 0 {
        lemma_prefix_sum_bound(ws, m, n - 1);
        assert((n - 1) * m + m == n * m) by (nonlinear_arith);
    }
}

/// The total outcome weight is positive and fits the sampler: the two
/// top-tier outcomes of any one color together weigh the color's whole
/// top-tier share, which is never zero.
proof fn lemma_weights_sane(b: BannerConfig, pity: Seq<u16>)
    requires
        b.wf(),
        pity.len() == 4,
    ensures
        0 < total_weight(weights_of(b, pity)) <= 16 * 5100000,
{
    let ws = weights_of(b, pity);
    assert forall|j: int| 0 <= j < 16 implies ws[j] <= 5100000 by {
        lemma_weight_at_bounds(b, pity, j);
    }
    lemma_prefix_sum_bound(ws, 5100000, 16);
    lemma_weight_at_bounds(b, pity, 0);
    lemma_weight_at_bounds(b, pity, 4);
    lemma_top_rate_positive(b, pity[0]);
    let top = b.top_rate(pity[0]);
    assert(2 * top * b.rate_focus + 2 * top * b.rate_off >= 2 * 100 * 1) by (nonlinear_arith)
        requires
            top >= 100,
            b.rate_focus >= 1,
            b.rate_off >= 0,
    ;
    assert(ws[0] + ws[4] >= 200);
    lemma_prefix_sum_monotone(ws, 1, 4);
    lemma_prefix_sum_monotone(ws, 5, 16);
    assert(prefix_sum(ws, 0) == 0);
    assert(prefix_sum(ws, 1) == ws[0]);
    assert(prefix_sum(ws, 5) == prefix_sum(ws, 4) + ws[4]);
}

/// Build the sixteen outcome weights for the current pity values.
fn build_weights(banner: &BannerConfig, pity: &Vec<u16>) -> (ws: Vec<u64>)
    requires
        banner.wf(),
        pity@.len() == 4,
    ensures
        ws@ == weights_of(*banner, pity@),
{
    let mut ws: Vec<u64> = Vec::new();
    let mut i: usize = 0;
    while i < NUM_OUTCOMES
        invariant
            i <= 16,
            banner.wf(),
            pity@.len() == 4,
            ws@.len() == i,
            forall|j: int| 0 <= j < i ==> ws@[j] == weight_at(*banner, pity@, j) as u64,
        decreases 16 - i,
    {
        let c: usize = i % 4;
        let pool: usize = i / 4;
        let top: u64 = banner.top_rate_at(pity[c]) as u64;
        let avail: bool = banner.focus_sizes[c] > 0;
        proof {
            lemma_weight_at_bounds(*banner, pity@, i as int);
            lemma_top_rate_positive(*banner, pity@[c as int]);
            assert(2 * top * (banner.rate_focus as u64) <= 5100000) by (nonlinear_arith)
                requires
                    top <= 10000,
                    banner.rate_focus <= 255,
            ;
            assert(2 * top * (banner.rate_off as u64) <= 5100000) by (nonlinear_arith)
                requires
                    top <= 10000,
                    banner.rate_off <= 255,
            ;
            assert((10000 - top) * ((banner.rate_focus + banner.rate_off) as u64) <= 5100000)
                by (nonlinear_arith)
                requires
                    100 <= top <= 10000,
                    banner.rate_focus + banner.rate_off <= 100,
            ;
        }
        let w: u64 = if pool == 0 {
            if avail {
                2 * top * (banner.rate_focus as u64)
            } else {
                0
            }
        } else if pool == 1 {
            2 * top * (banner.rate_off as u64) + if avail {
                0
            } else {
                2 * top * (banner.rate_focus as u64)
            }
        } else {
            (FULL_RATE_BP as u64 - top) * (banner.rate_focus as u64 + banner.rate_off as u64)
        };
        ws.push(w);
        i = i + 1;
    }
    proof {
        assert(ws@ =~= weights_of(*banner, pity@));
    }
    ws
}

/// Ordinal of the first hard-pity color, or 4 when there is none.
fn find_eligible(banner: &BannerConfig, pity: &Vec<u16>) -> (r: usize)
    requires
        banner.wf(),
        pity@.len() == 4,
    ensures
        r == first_eligible(*banner, pity@),
{
    let mut r: usize = 4;
    if banner.focus_sizes[0] > 0 && pity[0] >= banner.pity_ceiling {
        r = 0;
    } else if banner.focus_sizes[1] > 0 && pity[1] >= banner.pity_ceiling {
        r = 1;
    } else if banner.focus_sizes[2] > 0 && pity[2] >= banner.pity_ceiling {
        r = 2;
    } else if banner.focus_sizes[3] > 0 && pity[3] >= banner.pity_ceiling {
        r = 3;
    }
    r
}

/// Turn a flattened outcome index into its `(pool, color)` pair.
fn decode_outcome(idx: usize) -> (o: (Pool, Color))
    requires
        idx < 16,
    ensures
        o == outcome_of(idx as int),
{
    let pool = match idx / 4 {
        0 => Pool::Focus,
        1 => Pool::Fivestar,
        2 => Pool::Fourstar,
        _ => Pool::Threestar,
    };
    let color = match idx % 4 {
        0 => Color::Red,
        1 => Color::Blue,
        2 => Color::Green,
        _ => Color::Colorless,
    };
    (pool, color)
}

/// Draw one roll outcome.
///
/// When some color has reached the pity ceiling, hard pity guarantees
/// the focus hit of the first such color and no randomness is consumed;
/// otherwise one draw selects among the sixteen weighted outcomes.
fn next_outcome(banner: &BannerConfig, pity: &Vec<u16>, rng: &mut Rng) -> (o: (Pool, Color))
    requires
        banner.wf(),
        pity@.len() == 4,
    ensures
        first_eligible(*banner, pity@) < 4 ==> o == (
            Pool::Focus,
            color_of(first_eligible(*banner, pity@)),
        ) && *final(rng) == *old(rng),
        first_eligible(*banner, pity@) == 4 ==> final(rng).state == lcg_next(old(rng).state) && (
        exists|idx: int|
            #![trigger prefix_sum(weights_of(*banner, pity@), idx)]
            {
                let ws = weights_of(*banner, pity@);
                let r = lcg_output(old(rng).state) % (total_weight(ws) as u64);
                &&& 0 <= idx < 16
                &&& prefix_sum(ws, idx) <= r < prefix_sum(ws, idx + 1)
                &&& o == outcome_of(idx)
            }),
        o.0 == Pool::Focus ==> banner.focus_sizes@[o.1.ord()] > 0,
        o.1.ord() < NUM_COLORS,
{
    let fe = find_eligible(banner, pity);
    if fe < 4 {
        let color = match fe {
            0 => Color::Red,
            1 => Color::Blue,
            2 => Color::Green,
            _ => Color::Colorless,
        };
        (Pool::Focus, color)
    } else {
        let ws = build_weights(banner, pity);
        proof {
            lemma_weights_sane(*banner, pity@);
        }
        match sample(&ws, rng) {
            Some(idx) => {
                proof {
                    let i = idx as int;
                    if i / 4 == 0 && !(banner.focus_sizes@[i % 4] > 0) {
                        assert(weight_at(*banner, pity@, i) == 0);
                        assert(false);
                    }
                }
                decode_outcome(idx)
            },
            None => {
                proof {
                    assert(false);
                }
                (Pool::Threestar, Color::Red)
            },
        }
    }
}


/// Copies the inventory still owes the goal's parts, summed over every
/// part (a satisfied part owes nothing).
pub open spec fn deficit_of(parts: Seq<GoalPart>, inv: Seq<u64>) -> int
    decreases parts.len(),
{
    if parts.len() == 0 {
        0
    } else {
        let p = parts[0];
        let d = if part_done(p, inv) {
            0
        } else {
            p.num_copies - inv[p.unit_color.ord()]
        };
        d + deficit_of(parts.drop_first(), inv)
    }
}

/// Color ordinal of the first unsatisfied part, or 0 when none is.
pub open spec fn first_unsat_color(parts: Seq<GoalPart>, inv: Seq<u64>) -> int
    decreases parts.len(),
{
    if parts.len() == 0 {
        0
    } else if !part_done(parts[0], inv) {
        parts[0].unit_color.ord()
    } else {
        first_unsat_color(parts.drop_first(), inv)
    }
}

/// Escalation credit: how far past the floor the pity counters of the
/// offered colors below ordinal `c` have climbed.
pub open spec fn pity_below(b: BannerConfig, pity: Seq<u16>, c: int) -> int
    decreases c,
{
    if c <= 0 {
        0
    } else {
        let t = if b.focus_sizes@[c - 1] > 0 && pity[c - 1] > b.pity_floor {
            pity[c - 1] - b.pity_floor
        } else {
            0
        };
        pity_below(b, pity, c - 1) + t
    }
}

/// Ranking value of a running trial: it strictly shrinks on every roll,
/// which bounds the trial's length.
pub open spec fn measure_of(
    b: BannerConfig,
    parts: Seq<GoalPart>,
    pity: Seq<u16>,
    inv: Seq<u64>,
) -> int {
    let g = first_unsat_color(parts, inv);
    deficit_of(parts, inv) * (7 * b.pity_ceiling + 8) + 4 * (b.pity_ceiling - pity[g])
        + pity_below(b, pity, g)
}

/// Total copies the goal asks for before any roll.
pub open spec fn sum_copies(parts: Seq<GoalPart>) -> int
    decreases parts.len(),
{
    if parts.len() == 0 {
        0
    } else {
        parts[0].num_copies + sum_copies(parts.drop_first())
    }
}

/// Largest copy requirement the goal places on one color.
pub open spec fn need_of(parts: Seq<GoalPart>, c: int) -> int
    decreases parts.len(),
{
    if parts.len() == 0 {
        0
    } else {
        let own: int = if parts[0].unit_color.ord() == c {
            parts[0].num_copies as int
        } else {
            0
        };
        let rest = need_of(parts.drop_first(), c);
        if own > rest {
            own
        } else {
            rest
        }
    }
}

/// Smallest copy requirement among the goal's parts.
pub open spec fn min_need(parts: Seq<GoalPart>) -> int
    decreases parts.len(),
{
    if parts.len() == 0 {
        0
    } else if parts.len() == 1 {
        parts[0].num_copies as int
    } else {
        let rest = min_need(parts.drop_first());
        if (parts[0].num_copies as int) < rest {
            parts[0].num_copies as int
        } else {
            rest
        }
    }
}

/// Fewest rolls that could possibly satisfy the goal: every required
/// copy for an all-parts goal, the cheapest part for an any-part goal.
pub open spec fn min_rolls(goal: GoalSpec) -> int {
    match goal.kind {
        GoalKind::All => need_of(goal.goals@, 0) + need_of(goal.goals@, 1) + need_of(
            goal.goals@,
            2,
        ) + need_of(goal.goals@, 3),
        GoalKind::Any => min_need(goal.goals@),
    }
}

/// Upper bound on the length of one trial: the ranking value of the
/// start state, where no copy is owned and every pity counter is zero.
pub open spec fn roll_bound(b: BannerConfig, goal: GoalSpec) -> int {
    sum_copies(goal.goals@) * (7 * b.pity_ceiling + 8) + 4 * b.pity_ceiling
}

/// The deficit is never negative and never exceeds the goal's total
/// copy requirement.
proof fn lemma_deficit_bounds(parts: Seq<GoalPart>, inv: Seq<u64>)
    ensures
        0 <= deficit_of(parts, inv) <= sum_copies(parts),
    decreases parts.len(),
{
    if parts.len() > 0 {
        lemma_deficit_bounds(parts.drop_first(), inv);
    }
}

/// The goal's total copy requirement grows at most 255 per part.
proof fn lemma_sum_copies_bound(parts: Seq<GoalPart>)
    ensures
        0 <= sum_copies(parts) <= 255 * parts.len(),
    decreases parts.len(),
{
    if parts.len() > 0 {
        lemma_sum_copies_bound(parts.drop_first());
        assert(255 * ((parts.len() - 1) as int) + 255 == 255 * (parts.len() as int))
            by (nonlinear_arith);
    }
}

/// While some part is unsatisfied the deficit is positive, and the
/// first unsatisfied part names the color the measure watches.
proof fn lemma_first_unsat(parts: Seq<GoalPart>, inv: Seq<u64>)
    requires
        exists|i: int| 0 <= i < parts.len() && !part_done(#[trigger] parts[i], inv),
    ensures
        deficit_of(parts, inv) >= 1,
        exists|i: int|
            0 <= i < parts.len() && !part_done(#[trigger] parts[i], inv)
                && parts[i].unit_color.ord() == first_unsat_color(parts, inv),
    decreases parts.len(),
{
    lemma_deficit_bounds(parts.drop_first(), inv);
    if !part_done(parts[0], inv) {
        assert(parts[0].unit_color.ord() == first_unsat_color(parts, inv));
    } else {
        let j = choose|i: int| 0 <= i < parts.len() && !part_done(#[trigger] parts[i], inv);
        assert(parts.drop_first()[j - 1] == parts[j]);
        lemma_first_unsat(parts.drop_first(), inv);
        let k = choose|i: int|
            0 <= i < parts.drop_first().len() && !part_done(#[trigger] parts.drop_first()[i], inv)
                && parts.drop_first()[i].unit_color.ord() == first_unsat_color(
                parts.drop_first(),
                inv,
            );
        assert(parts[k + 1] == parts.drop_first()[k]);
    }
}

/// How one more copy of color `c` moves the deficit: never up; strictly
/// down when a part of color `c` is unsatisfied; otherwise unchanged,
/// with the watched color unchanged as well.
proof fn lemma_deficit_after_inc(parts: Seq<GoalPart>, inv: Seq<u64>, c: int)
    requires
        0 <= c < 4,
        inv.len() == 4,
        inv[c] < u64::MAX,
    ensures
        deficit_of(parts, inv.update(c, (inv[c] + 1) as u64)) <= deficit_of(parts, inv),
        (exists|i: int|
            0 <= i < parts.len() && #[trigger] parts[i].unit_color.ord() == c && !part_done(
                parts[i],
                inv,
            )) ==> deficit_of(parts, inv.update(c, (inv[c] + 1) as u64)) <= deficit_of(parts, inv)
            - 1,
        (forall|i: int|
            0 <= i < parts.len() && #[trigger] parts[i].unit_color.ord() == c ==> part_done(
                parts[i],
                inv,
            )) ==> deficit_of(parts, inv.update(c, (inv[c] + 1) as u64)) == deficit_of(parts, inv)
            && first_unsat_color(parts, inv.update(c, (inv[c] + 1) as u64)) == first_unsat_color(
            parts,
            inv,
        ),
    decreases parts.len(),
{
    let inv2 = inv.update(c, (inv[c] + 1) as u64);
    if parts.len() > 0 {
        lemma_deficit_after_inc(parts.drop_first(), inv, c);
        assert forall|i: int|
            0 <= i < parts.drop_first().len() && #[trigger] parts.drop_first()[i].unit_color.ord()
                == c && !part_done(parts.drop_first()[i], inv) implies exists|i2: int|
            0 <= i2 < parts.len() && #[trigger] parts[i2].unit_color.ord() == c && !part_done(
                parts[i2],
                inv,
            ) by {
            assert(parts[i + 1] == parts.drop_first()[i]);
        }
        if exists|i: int|
            0 <= i < parts.len() && #[trigger] parts[i].unit_color.ord() == c && !part_done(
                parts[i],
                inv,
            ) {
            let j = choose|i: int|
                0 <= i < parts.len() && #[trigger] parts[i].unit_color.ord() == c && !part_done(
                    parts[i],
                    inv,
                );
            if j > 0 {
                assert(parts.drop_first()[j - 1] == parts[j]);
            }
        }
    }
}

/// When each watched escalation credit moves by at most one step up, or
/// resets, the total credit below `c` grows by at most `c`.
proof fn lemma_below_step(b: BannerConfig, p1: Seq<u16>, p2: Seq<u16>, c: int)
    requires
        0 <= c <= 4,
        p1.len() == 4,
        p2.len() == 4,
        forall|k: int| 0 <= k < c ==> p2[k] <= p1[k] + 1 || p2[k] <= b.pity_floor,
    ensures
        pity_below(b, p2, c) <= pity_below(b, p1, c) + c,
    decreases c,
{
    if c > 0 {
        lemma_below_step(b, p1, p2, c - 1);
    }
}

/// The escalation credit below `c` stays within `c` saturated ramps.
proof fn lemma_below_bounds(b: BannerConfig, pity: Seq<u16>, c: int)
    requires
        0 <= c <= 4,
        pity.len() == 4,
        b.wf(),
        forall|k: int| 0 <= k < 4 ==> pity[k] <= b.pity_ceiling,
    ensures
        0 <= pity_below(b, pity, c) <= c * (b.pity_ceiling as int),
    decreases c,
{
    if c > 0 {
        lemma_below_bounds(b, pity, c - 1);
        assert((c - 1) * (b.pity_ceiling as int) + b.pity_ceiling == c * (b.pity_ceiling as int))
            by (nonlinear_arith);
    }
}

/// A hard-pity hit on an offered color below `g` pays back its whole
/// ramp, which outweighs the single steps of the other colors.
proof fn lemma_below_forced(b: BannerConfig, p1: Seq<u16>, p2: Seq<u16>, hitc: int, g: int)
    requires
        b.wf(),
        0 <= hitc < g <= 4,
        p1.len() == 4,
        p2.len() == 4,
        b.focus_sizes@[hitc] > 0,
        p1[hitc] == b.pity_ceiling,
        p2[hitc] == b.pity_floor,
        forall|k: int| 0 <= k < g && k != hitc ==> p2[k] <= p1[k] + 1,
    ensures
        pity_below(b, p2, g) <= pity_below(b, p1, g) - (b.pity_ceiling - b.pity_floor) + (g - 1),
    decreases g,
{
    if g - 1 == hitc {
        lemma_below_step(b, p1, p2, g - 1);
    } else {
        lemma_below_forced(b, p1, p2, hitc, g - 1);
    }
}

/// When every part is satisfied, each color's inventory covers the
/// largest requirement placed on it.
proof fn lemma_need_le_inv(parts: Seq<GoalPart>, inv: Seq<u64>, c: int)
    requires
        0 <= c < 4,
        inv.len() == 4,
        forall|i: int| 0 <= i < parts.len() ==> part_done(#[trigger] parts[i], inv),
    ensures
        need_of(parts, c) <= inv[c],
    decreases parts.len(),
{
    if parts.len() > 0 {
        assert(part_done(parts[0], inv));
        assert forall|i: int|
            0 <= i < parts.drop_first().len() implies part_done(
            #[trigger] parts.drop_first()[i],
            inv,
        ) by {
            assert(parts.drop_first()[i] == parts[i + 1]);
        }
        lemma_need_le_inv(parts.drop_first(), inv, c);
    }
}

/// No part requires fewer copies than the cheapest part.
proof fn lemma_min_need_le(parts: Seq<GoalPart>, i: int)
    requires
        0 <= i < parts.len(),
    ensures
        min_need(parts) <= parts[i].num_copies,
    decreases parts.len(),
{
    if parts.len() > 1 && i > 0 {
        assert(parts.drop_first()[i - 1] == parts[i]);
        lemma_min_need_le(parts.drop_first(), i - 1);
    }
}

/// Whether the trial-length bound of the banner and goal fits the
/// roll counter: the machine limit a caller must establish before
/// simulating.
pub fn roll_bound_fits(banner: &BannerConfig, goal: &GoalSpec) -> (r: bool)
    ensures
        r == (roll_bound(*banner, *goal) <= usize::MAX as int),
{
    let n = goal.goals.len();
    let mut acc: u128 = 0;
    let mut i: usize = 0;
    proof {
        assert(goal.goals@.skip(0) =~= goal.goals@);
    }
    while i < n
        invariant
            i <= n,
            n == goal.goals@.len(),
            acc + sum_copies(goal.goals@.skip(i as int)) == sum_copies(goal.goals@),
            acc <= 255 * (i as int),
        decreases n - i,
    {
        proof {
            assert(goal.goals@.skip(i as int).drop_first() =~= goal.goals@.skip(i as int + 1));
            assert(goal.goals@.skip(i as int)[0] == goal.goals@[i as int]);
            assert(255 * (i as int) + 255 == 255 * (i as int + 1)) by (nonlinear_arith);
        }
        acc = acc + goal.goals[i].num_copies as u128;
        i = i + 1;
    }
    proof {
        assert(goal.goals@.skip(n as int) =~= Seq::<GoalPart>::empty());
        assert(acc == sum_copies(goal.goals@));
        assert(acc * (7 * (banner.pity_ceiling as int) + 8) + 4 * (banner.pity_ceiling as int)
            < 0x10000000000000000000000000000) by (nonlinear_arith)
            requires
                0 <= acc <= 255 * 0xFFFFFFFFFFFFFFFFu64,
                0 <= banner.pity_ceiling <= 0xFFFF,
        ;
    }
    let w1: u128 = 7 * (banner.pity_ceiling as u128) + 8;
    let bound: u128 = acc * w1 + 4 * (banner.pity_ceiling as u128);
    bound <= usize::MAX as u128
}

/// Advances one trial: draws rolls from the banner via the weighted
/// sampler, escalating and resetting per-color pity, until the goal
/// reports success.
pub struct PitySimulator {
    pub banner: BannerConfig,
    pub goal: GoalSpec,
    pub rng: Rng,
}

impl PitySimulator {
    /// A simulator is only built over a well-formed banner and a goal
    /// that is available on it; an unavailable goal must never be run.
    pub open spec fn wf(self) -> bool {
        &&& self.banner.wf()
        &&& self.goal.wf()
        &&& self.goal.available(self.banner)
    }

    /// A simulator for one banner and goal, seeded deterministically.
    pub fn new(banner: BannerConfig, goal: GoalSpec, seed: u64) -> (r: PitySimulator)
        requires
            banner.wf(),
            goal.wf(),
            goal.available(banner),
        ensures
            r.wf(),
            r.banner == banner,
            r.goal == goal,
            r.rng.state == seed,
    {
        PitySimulator { banner: banner, goal: goal, rng: Rng::new(seed) }
    }

    /// Run one trial: roll until the goal is satisfied and report how
    /// many rolls it took. The count always reaches at least the
    /// theoretical minimum and never exceeds the hard-pity bound.
    pub fn roll_until_goal(&mut self) -> (rolls: usize)
        requires
            old(self).wf(),
            roll_bound(old(self).banner, old(self).goal) <= usize::MAX as int,
        ensures
            final(self).banner == old(self).banner,
            final(self).goal == old(self).goal,
            final(self).wf(),
            min_rolls(old(self).goal) <= rolls as int,
            rolls as int <= roll_bound(old(self).banner, old(self).goal),
    {
        let ghost parts = self.goal.goals@;
        let mut pity: Vec<u16> = Vec::new();
        pity.push(0);
        pity.push(0);
        pity.push(0);
        pity.push(0);
        let mut inv: Vec<u64> = Vec::new();
        inv.push(0);
        inv.push(0);
        inv.push(0);
        inv.push(0);
        let mut rolls: usize = 0;
        proof {
            lemma_deficit_zeros(parts, inv@);
            lemma_sum_copies_bound(parts);
            lemma_first_unsat_range(parts, inv@);
            lemma_below_zero(self.banner, pity@, first_unsat_color(parts, inv@));
        }
        let mut done = self.goal.is_satisfied(&inv);
        while !done
            invariant
                self.banner == old(self).banner,
                self.goal == old(self).goal,
                parts == self.goal.goals@,
                self.banner.wf(),
                self.goal.wf(),
                self.goal.available(self.banner),
                pity@.len() == 4,
                inv@.len() == 4,
                forall|k: int| 0 <= k < 4 ==> #[trigger] pity@[k] <= self.banner.pity_ceiling,
                done == self.goal.satisfied(inv@),
                inv@[0] + inv@[1] + inv@[2] + inv@[3] <= rolls as int,
                !done ==> rolls + measure_of(self.banner, parts, pity@, inv@) <= roll_bound(
                    self.banner,
                    self.goal,
                ),
                done ==> rolls as int <= roll_bound(self.banner, self.goal),
                roll_bound(self.banner, self.goal) <= usize::MAX as int,
            decreases measure_of(self.banner, parts, pity@, inv@),
        {
            let ghost pity0 = pity@;
            let ghost inv0 = inv@;
            let ghost m_old = measure_of(self.banner, parts, pity0, inv0);
            proof {
                lemma_unsat_witness(self.goal, inv0);
                lemma_first_unsat(parts, inv0);
                lemma_first_unsat_range(parts, inv0);
                lemma_below_bounds(self.banner, pity0, first_unsat_color(parts, inv0));
                assert(deficit_of(parts, inv0) * (7 * (self.banner.pity_ceiling as int) + 8) >= 8)
                    by (nonlinear_arith)
                    requires
                        deficit_of(parts, inv0) >= 1,
                        self.banner.pity_ceiling >= 0,
                ;
                assert(measure_of(self.banner, parts, pity0, inv0) >= 1);
            }
            let o = next_outcome(&self.banner, &pity, &mut self.rng);
            rolls = rolls + 1;
            if o.0 == Pool::Focus {
                let c = o.1.index();
                let val = inv[c];
                proof {
                    assert(inv0[c as int] <= inv0[0] + inv0[1] + inv0[2] + inv0[3]);
                }
                inv.set(c, val + 1);
                apply_hit(&mut pity, c, &self.banner);
            } else {
                apply_miss(&mut pity, &self.banner);
            }
            done = self.goal.is_satisfied(&inv);
            proof {
                lemma_roll_progress(
                    self.banner,
                    parts,
                    pity0,
                    inv0,
                    pity@,
                    inv@,
                    o,
                    first_eligible(self.banner, pity0),
                );
            }
        }
        proof {
            if self.goal.kind == GoalKind::All {
                lemma_need_le_inv(parts, inv@, 0);
                lemma_need_le_inv(parts, inv@, 1);
                lemma_need_le_inv(parts, inv@, 2);
                lemma_need_le_inv(parts, inv@, 3);
            } else {
                let i = choose|i: int|
                    0 <= i < parts.len() && part_done(#[trigger] parts[i], inv@);
                lemma_min_need_le(parts, i);
                let c = parts[i].unit_color.ord();
                assert(inv@[c] <= inv@[0] + inv@[1] + inv@[2] + inv@[3]);
            }
        }
        rolls
    }
}

/// With no copies owned, the deficit is the goal's full requirement.
proof fn lemma_deficit_zeros(parts: Seq<GoalPart>, inv: Seq<u64>)
    requires
        inv.len() == 4,
        forall|k: int| 0 <= k < 4 ==> inv[k] == 0,
    ensures
        deficit_of(parts, inv) == sum_copies(parts),
    decreases parts.len(),
{
    if parts.len() > 0 {
        lemma_deficit_zeros(parts.drop_first(), inv);
    }
}

/// With every pity counter at zero the escalation credit is zero.
proof fn lemma_below_zero(b: BannerConfig, pity: Seq<u16>, c: int)
    requires
        pity.len() == 4,
        forall|k: int| 0 <= k < 4 ==> pity[k] == 0,
        0 <= c <= 4,
    ensures
        pity_below(b, pity, c) == 0,
    decreases c,
{
    if c > 0 {
        lemma_below_zero(b, pity, c - 1);
    }
}

/// A goal that is not yet satisfied has an unsatisfied part.
proof fn lemma_unsat_witness(goal: GoalSpec, inv: Seq<u64>)
    requires
        goal.goals@.len() > 0,
        !goal.satisfied(inv),
    ensures
        exists|i: int| 0 <= i < goal.goals@.len() && !part_done(#[trigger] goal.goals@[i], inv),
{
    match goal.kind {
        GoalKind::All => {
        },
        GoalKind::Any => {
            assert(!part_done(goal.goals@[0], inv));
        },
    }
}

/// One roll strictly shrinks the trial's ranking value.
///
/// Either the hit reduces the deficit outright; or the watched color's
/// pity climbs one step; or the watched color sits at the ceiling, in
/// which case hard pity forces a focus hit below it that pays back a
/// whole ramp.
proof fn lemma_roll_progress(
    b: BannerConfig,
    parts: Seq<GoalPart>,
    pity0: Seq<u16>,
    inv0: Seq<u64>,
    pity1: Seq<u16>,
    inv1: Seq<u64>,
    o: (Pool, Color),
    fe: int,
)
    requires
        b.wf(),
        pity0.len() == 4,
        inv0.len() == 4,
        forall|k: int| 0 <= k < 4 ==> #[trigger] pity0[k] <= b.pity_ceiling,
        exists|i: int| 0 <= i < parts.len() && !part_done(#[trigger] parts[i], inv0),
        forall|i: int|
            0 <= i < parts.len() ==> b.focus_sizes@[#[trigger] parts[i].unit_color.ord()] > 0,
        fe == first_eligible(b, pity0),
        fe < 4 ==> o == (Pool::Focus, color_of(fe)),
        o.0 == Pool::Focus ==> b.focus_sizes@[o.1.ord()] > 0 && o.1.ord() < 4,
        o.0 == Pool::Focus ==> inv0[o.1.ord()] < u64::MAX && inv1 == inv0.update(
            o.1.ord(),
            (inv0[o.1.ord()] + 1) as u64,
        ) && pity1 == pity_after_hit(pity0, o.1.ord(), b),
        o.0 != Pool::Focus ==> inv1 == inv0 && pity1 == pity_after_miss(pity0, b),
    ensures
        measure_of(b, parts, pity1, inv1) < measure_of(b, parts, pity0, inv0),
        0 <= measure_of(b, parts, pity1, inv1),
        measure_of(b, parts, pity0, inv0) >= 1,
        forall|k: int| 0 <= k < 4 ==> #[trigger] pity1[k] <= b.pity_ceiling,
{
    let ceil = b.pity_ceiling as int;
    let floor = b.pity_floor as int;
    let w1 = 7 * ceil + 8;
    let r0 = deficit_of(parts, inv0);
    let g = first_unsat_color(parts, inv0);
    let r1 = deficit_of(parts, inv1);
    let g1 = first_unsat_color(parts, inv1);
    lemma_first_unsat(parts, inv0);
    let gi = choose|i: int|
        0 <= i < parts.len() && !part_done(#[trigger] parts[i], inv0) && parts[i].unit_color.ord()
            == first_unsat_color(parts, inv0);
    assert(b.focus_sizes@[g] > 0);
    assert(0 <= g < 4);
    lemma_below_bounds(b, pity0, g);
    assert(forall|k: int| 0 <= k < 4 ==> #[trigger] pity1[k] <= b.pity_ceiling);
    lemma_first_unsat_range(parts, inv1);
    lemma_below_bounds(b, pity1, g1);
    lemma_deficit_bounds(parts, inv0);
    lemma_deficit_bounds(parts, inv1);
    assert(pity_below(b, pity1, g1) <= 3 * ceil) by (nonlinear_arith)
        requires
            pity_below(b, pity1, g1) <= g1 * ceil,
            0 <= g1 <= 3,
            ceil >= 0,
    ;
    assert(deficit_of(parts, inv1) * w1 >= 0) by (nonlinear_arith)
        requires
            deficit_of(parts, inv1) >= 0,
            w1 >= 0,
    ;
    assert(r0 * w1 >= 1 * w1) by (nonlinear_arith)
        requires
            r0 >= 1,
            w1 >= 0,
    ;
    let m0 = measure_of(b, parts, pity0, inv0);
    let m1 = measure_of(b, parts, pity1, inv1);
    if o.0 == Pool::Focus {
        let c = o.1.ord();
        lemma_deficit_after_inc(parts, inv0, c);
        if exists|i: int|
            0 <= i < parts.len() && #[trigger] parts[i].unit_color.ord() == c && !part_done(
                parts[i],
                inv0,
            ) {
            assert(r1 <= r0 - 1);
            lemma_deficit_bounds(parts, inv1);
            assert(m1 <= m0 - 8) by (nonlinear_arith)
                requires
                    m1 == r1 * w1 + 4 * (ceil - pity1[g1]) + pity_below(b, pity1, g1),
                    m0 == r0 * w1 + 4 * (ceil - pity0[g]) + pity_below(b, pity0, g),
                    r1 <= r0 - 1,
                    r1 >= 0,
                    w1 == 7 * ceil + 8,
                    0 <= ceil - pity1[g1] <= ceil,
                    0 <= pity_below(b, pity1, g1) <= 3 * ceil,
                    0 <= ceil - pity0[g],
                    0 <= pity_below(b, pity0, g),
                    0 <= g1 < 4 || g1 == 0,
                    ceil >= 4,
            ;
        } else {
            assert(r1 == r0 && g1 == g);
            assert(c != g) by {
                if c == g {
                    assert(parts[gi].unit_color.ord() == c && !part_done(parts[gi], inv0));
                }
            }
            if pity0[g] < ceil {
                assert(pity1[g] == pity0[g] + 1);
                lemma_below_step(b, pity0, pity1, g);
                assert(m1 <= m0 - 1);
            } else {
                assert(eligible(b, pity0, g));
                assert(fe <= g && fe < 4);
                assert(o.1 == color_of(fe));
                assert(c == fe) by {
                    if fe == 0 {
                    } else if fe == 1 {
                    } else if fe == 2 {
                    } else {
                    }
                }
                assert(fe < g);
                assert(pity0[fe] >= b.pity_ceiling && pity0[fe] <= b.pity_ceiling);
                assert(b.focus_sizes@[fe] > 0);
                assert(pity1[fe] == b.pity_floor);
                lemma_below_forced(b, pity0, pity1, fe, g);
                assert(pity1[g] == b.pity_ceiling);
                assert(m1 <= m0 - 1);
            }
        }
    } else {
        assert(fe == 4);
        assert(r1 == r0 && g1 == g);
        assert(!eligible(b, pity0, g)) by {
            if eligible(b, pity0, g) {
                assert(first_eligible(b, pity0) <= g);
            }
        }
        assert(pity0[g] < b.pity_ceiling);
        assert(pity1[g] == pity0[g] + 1);
        lemma_below_step(b, pity0, pity1, g);
        assert(m1 <= m0 - 1);
    }
}

/// The watched color ordinal is always a valid color index.
proof fn lemma_first_unsat_range(parts: Seq<GoalPart>, inv: Seq<u64>)
    ensures
        0 <= first_unsat_color(parts, inv) <= 3,
    decreases parts.len(),
{
    if parts.len() > 0 {
        lemma_first_unsat_range(parts.drop_first(), inv);
    }
}

/// Immediately after a focus hit of a color, that color's top-tier
/// rate is back at the base rate: its pity counter was reset to the
/// floor, where the schedule is flat.
pub proof fn lemma_hit_resets_rate(b: BannerConfig, pity: Seq<u16>, c: int)
    requires
        b.wf(),
        0 <= c < 4,
        pity.len() == 4,
    ensures
        b.top_rate(pity_after_hit(pity, c, b)[c]) == b.base_rate(),
{
    crate::banner::lemma_rate_resets_to_base(b);
}

/// Apply a focus hit of color `c` to the pity counters: reset the hit
/// color to the floor, escalate the rest.
fn apply_hit(pity: &mut Vec<u16>, c: usize, b: &BannerConfig)
    requires
        old(pity)@.len() == 4,
        c < 4,
        b.wf(),
    ensures
        final(pity)@ == pity_after_hit(old(pity)@, c as int, *b),
{
    let ceil = b.pity_ceiling;
    let mut k: usize = 0;
    while k < 4
        invariant
            k <= 4,
            c < 4,
            pity@.len() == 4,
            ceil == b.pity_ceiling,
            forall|j: int| 0 <= j < k ==> pity@[j] == pity_after_hit(old(pity)@, c as int, *b)[j],
            forall|j: int| k <= j < 4 ==> pity@[j] == old(pity)@[j],
        decreases 4 - k,
    {
        if k == c {
            pity.set(k, b.pity_floor);
        } else {
            let p = pity[k];
            pity.set(k, if p >= ceil {
                ceil
            } else {
                p + 1
            });
        }
        k = k + 1;
    }
    proof {
        assert(pity@ =~= pity_after_hit(old(pity)@, c as int, *b));
    }
}

/// Apply a roll without a focus hit: escalate every pity counter.
fn apply_miss(pity: &mut Vec<u16>, b: &BannerConfig)
    requires
        old(pity)@.len() == 4,
        b.wf(),
    ensures
        final(pity)@ == pity_after_miss(old(pity)@, *b),
{
    let ceil = b.pity_ceiling;
    let mut k: usize = 0;
    while k < 4
        invariant
            k <= 4,
            pity@.len() == 4,
            ceil == b.pity_ceiling,
            forall|j: int| 0 <= j < k ==> pity@[j] == pity_after_miss(old(pity)@, *b)[j],
            forall|j: int| k <= j < 4 ==> pity@[j] == old(pity)@[j],
        decreases 4 - k,
    {
        let p = pity[k];
        pity.set(k, if p >= ceil {
            ceil
        } else {
            p + 1
        });
        k = k + 1;
    }
    proof {
        assert(pity@ =~= pity_after_miss(old(pity)@, *b));
    }
}

} // verus!
