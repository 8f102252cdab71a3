use crate::Color;
use crate::NUM_COLORS;
use vstd::prelude::*;

verus! {

/// Probability of a roll landing in the top rarity tier is measured in
/// basis points; this is the whole probability space of one color.
pub const FULL_RATE_BP: u16 = 10000;

/// Immutable-per-run description of the probability pool: per-color
/// focus-item counts, the base rates, and the pity schedule. All rate
/// arithmetic is exact, in basis points (1/10000).
#[verifier::ext_equal]
#[derive(Copy, Clone, Debug, PartialEq, Eq)]
pub struct BannerConfig {
    /// Number of distinct focus (rate-up) items of each color, indexed
    /// by color ordinal.
    pub focus_sizes: [u8; 4],
    /// Percentage chance of a roll splitting into the focus sub-pool of
    /// the top rarity tier, before pity escalation.
    pub rate_focus: u8,
    /// Percentage chance of a roll splitting into the generic sub-pool
    /// of the top rarity tier, before pity escalation.
    pub rate_off: u8,
    /// Pity counter value below which the top-tier rate stays flat.
    pub pity_floor: u16,
    /// Pity counter value at which a focus hit is guaranteed.
    pub pity_ceiling: u16,
    /// Basis points added to the top-tier rate per roll past the floor.
    pub pity_step: u16,
}

impl BannerConfig {
    /// Well-formedness: rates stay within the probability space after
    /// pity escalation, a focus hit is possible (so available goals are
    /// reachable), and the pity ramp is long enough that a color reset
    /// to the floor is never immediately guaranteed again.
    pub open spec fn wf(self) -> bool {
        &&& 1 <= self.rate_focus
        &&& self.rate_focus + self.rate_off <= 100
        &&& self.pity_floor + 4 <= self.pity_ceiling
        &&& self.pity_ceiling <= 1000
        &&& 1 <= self.pity_step
    }

    /// The starting rates as the `(focus, offfocus)` percentage pair.
    pub fn starting_rates(&self) -> (r: (u8, u8))
        ensures
            r.0 == self.rate_focus,
            r.1 == self.rate_off,
    {
        (self.rate_focus, self.rate_off)
    }

    /// Base chance of a top-tier hit, in basis points.
    pub open spec fn base_rate(self) -> int {
        (self.rate_focus + self.rate_off) * 100
    }

    /// Chance of a top-tier hit at the given pity value, in basis
    /// points: flat at the base below the floor, ramping linearly by
    /// `pity_step` above it, saturating at 100%, and forced to 100% at
    /// the ceiling.
    pub open spec fn top_rate(self, pity: u16) -> int {
        if pity >= self.pity_ceiling {
            FULL_RATE_BP as int
        } else if pity <= self.pity_floor {
            self.base_rate()
        } else {
            let ramped = self.base_rate() + (pity - self.pity_floor) * self.pity_step;
            if ramped >= FULL_RATE_BP as int {
                FULL_RATE_BP as int
            } else {
                ramped
            }
        }
    }

    /// Executable top-tier rate; matches `top_rate` exactly.
    pub fn top_rate_at(&self, pity: u16) -> (r: u16)
        requires
            self.wf(),
        ensures
            r == self.top_rate(pity),
            r <= FULL_RATE_BP,
    {
        if pity >= self.pity_ceiling {
            FULL_RATE_BP
        } else {
            let base: u32 = (self.rate_focus as u32 + self.rate_off as u32) * 100;
            if pity <= self.pity_floor {
                base as u16
            } else {
                let diff: u32 = (pity - self.pity_floor) as u32;
                proof {
                    assert(diff * self.pity_step <= 1000 * 65535) by (nonlinear_arith)
                        requires
                            diff <= 1000,
                            self.pity_step <= 65535,
                    ;
                }
                let ramp: u32 = diff * self.pity_step as u32;
                let total: u32 = base + ramp;
                if total >= FULL_RATE_BP as u32 {
                    FULL_RATE_BP
                } else {
                    total as u16
                }
            }
        }
    }

    /// A configuration checked for well-formedness: `Some` exactly when
    /// the fields satisfy the banner invariant.
    pub fn new(
        focus_sizes: [u8; 4],
        starting_rates: (u8, u8),
        pity_floor: u16,
        pity_ceiling: u16,
        pity_step: u16,
    ) -> (r: Option<BannerConfig>)
        ensures
            ({
                let b = BannerConfig {
                    focus_sizes: focus_sizes,
                    rate_focus: starting_rates.0,
                    rate_off: starting_rates.1,
                    pity_floor: pity_floor,
                    pity_ceiling: pity_ceiling,
                    pity_step: pity_step,
                };
                if b.wf() {
                    r == Some(b)
                } else {
                    r is None
                }
            }),
    {
        let ok = 1 <= starting_rates.0
            && starting_rates.0 as u16 + starting_rates.1 as u16 <= 100 && pity_floor <= 996
            && pity_floor + 4 <= pity_ceiling && pity_ceiling <= 1000 && 1 <= pity_step;
        if ok {
            Some(
                BannerConfig {
                    focus_sizes: focus_sizes,
                    rate_focus: starting_rates.0,
                    rate_off: starting_rates.1,
                    pity_floor: pity_floor,
                    pity_ceiling: pity_ceiling,
                    pity_step: pity_step,
                },
            )
        } else {
            None
        }
    }

    /// Whether the banner offers at least one focus item of the color.
    pub fn offers(&self, color: Color) -> (r: bool)
        ensures
            r == (self.focus_sizes@[color.ord()] > 0),
    {
        let i = color.index();
        self.focus_sizes[i] > 0
    }
}

/// The top-tier hit rate never decreases as the pity counter grows.
///
/// For any well-formed banner and pity values `p1 <= p2`, the rate at
/// `p2` is at least the rate at `p1`, and every rate stays within the
/// probability space.
pub proof fn lemma_top_rate_monotone(b: BannerConfig, p1: u16, p2: u16)
    requires
        b.wf(),
        p1 <= p2,
    ensures
        b.top_rate(p1) <= b.top_rate(p2),
        0 <= b.top_rate(p1) <= FULL_RATE_BP as int,
{
    if p1 > b.pity_floor {
        assert(0 <= (p1 - b.pity_floor) * b.pity_step) by (nonlinear_arith)
            requires
                p1 > b.pity_floor,
        ;
        assert((p1 - b.pity_floor) * b.pity_step <= (p2 - b.pity_floor) * b.pity_step)
            by (nonlinear_arith)
            requires
                b.pity_floor < p1 <= p2,
                b.pity_step >= 0,
        ;
    }
    if p2 > b.pity_floor {
        assert(0 <= (p2 - b.pity_floor) * b.pity_step) by (nonlinear_arith)
            requires
                p2 > b.pity_floor,
        ;
    }
}

/// Immediately after a focus hit resets a color's pity counter to the
/// floor, that color's top-tier rate is back at the base rate.
pub proof fn lemma_rate_resets_to_base(b: BannerConfig)
    requires
        b.wf(),
    ensures
        b.top_rate(b.pity_floor) == b.base_rate(),
{
}

} // verus!
