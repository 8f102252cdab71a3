use crate::banner::BannerConfig;
use crate::goal::GoalKind;
use crate::goal::GoalPart;
use crate::goal::GoalPreset;
use crate::goal::GoalSpec;
use crate::goal::kind_after_preset;
use crate::goal::parts_after_preset;
use crate::histogram::ResultHistogram;
use crate::rng::Rng;
use crate::sim::roll_bound;
use crate::sim::roll_bound_fits;
use crate::sim::PitySimulator;
use crate::Color;
use vstd::array::ArrayAdditionalExecFns;
use vstd::prelude::*;

verus! {

/// Relies on std::time::SystemTime::now and duration_since: wall-clock
/// milliseconds since the epoch. Nothing is assumed of the value: the
/// clock may jump either way, so the run loop only compares readings.
#[verifier::external_body]
fn now_millis() -> u64 {
    match std::time::SystemTime::now().duration_since(std::time::UNIX_EPOCH) {
        Ok(d) => d.as_millis() as u64,
        Err(_) => 0,
    }
}

/// Batches in one run double from this starting size.
pub const START_BATCH: u64 = 100;

/// Drives simulation runs for the boundary layer: it owns the current
/// banner and goal, replaces them wholesale (clearing stale results),
/// and fills the histogram with as many trials as a wall-clock budget
/// allows, doubling the batch size to amortize the time checks.
pub struct RunController {
    pub banner: BannerConfig,
    pub goal: GoalSpec,
    pub data: ResultHistogram,
    pub rng: Rng,
}

impl RunController {
    /// Configuration and results are consistent.
    pub open spec fn wf(self) -> bool {
        &&& self.banner.wf()
        &&& self.goal.wf()
        &&& self.data.inv()
    }

    /// A controller over the given configuration, with no results yet.
    pub fn new(banner: BannerConfig, goal: GoalSpec, seed: u64) -> (r: RunController)
        requires
            banner.wf(),
            goal.wf(),
        ensures
            r.wf(),
            r.banner == banner,
            r.goal == goal,
            r.data.total() == 0,
    {
        RunController { banner: banner, goal: goal, data: ResultHistogram::new(), rng: Rng::new(seed) }
    }

    /// A controller over a typical banner (three focus items of every
    /// color, 3%/3% starting rates) aiming at one focus item of each
    /// color.
    pub fn standard(seed: u64) -> (r: RunController)
        ensures
            r.wf(),
            r.data.total() == 0,
            r.goal.available(r.banner),
    {
        let banner = BannerConfig {
            focus_sizes: [3, 3, 3, 3],
            rate_focus: 3,
            rate_off: 3,
            pity_floor: 50,
            pity_ceiling: 120,
            pity_step: 50,
        };
        let mut goal = GoalSpec {
            kind: GoalKind::All,
            goals: Vec::new(),
            preset: GoalPreset::AllFocusColors,
        };
        goal.set_preset(&banner, GoalPreset::AllFocusColors);
        proof {
            crate::goal::lemma_preset_parts_available(banner);
            assert(banner.focus_sizes@[0] > 0);
        }
        RunController { banner: banner, goal: goal, data: ResultHistogram::new(), rng: Rng::new(seed) }
    }

    /// Replace the banner wholesale; stale results are discarded.
    pub fn configure_banner(&mut self, banner: BannerConfig)
        requires
            old(self).wf(),
            banner.wf(),
        ensures
            final(self).wf(),
            final(self).banner == banner,
            final(self).goal == old(self).goal,
            final(self).data.total() == 0,
    {
        self.banner = banner;
        self.data.clear();
    }

    /// Replace the goal wholesale; stale results are discarded.
    pub fn configure_goal(&mut self, goal: GoalSpec)
        requires
            old(self).wf(),
            goal.wf(),
        ensures
            final(self).wf(),
            final(self).banner == old(self).banner,
            final(self).goal == goal,
            final(self).data.total() == 0,
    {
        self.goal = goal;
        self.data.clear();
    }

    /// Change one color's focus pool size; stale results are discarded.
    pub fn set_focus_size(&mut self, color: Color, quantity: u8)
        requires
            old(self).wf(),
        ensures
            final(self).wf(),
            final(self).banner.focus_sizes@ == old(self).banner.focus_sizes@.update(
                color.ord(),
                quantity,
            ),
            final(self).banner.rate_focus == old(self).banner.rate_focus,
            final(self).banner.rate_off == old(self).banner.rate_off,
            final(self).banner.pity_floor == old(self).banner.pity_floor,
            final(self).banner.pity_ceiling == old(self).banner.pity_ceiling,
            final(self).banner.pity_step == old(self).banner.pity_step,
            final(self).goal == old(self).goal,
            final(self).data.total() == 0,
    {
        let i = color.index();
        self.banner.focus_sizes.set(i, quantity);
        self.data.clear();
    }

    /// Change the starting rates; stale results are discarded. The
    /// `(8, 0)` rate pair is the guaranteed-rate-up banner archetype,
    /// which always carries three focus items of every color.
    pub fn set_rates(&mut self, rates: (u8, u8))
        requires
            old(self).wf(),
            1 <= rates.0,
            rates.0 + rates.1 <= 100,
        ensures
            final(self).wf(),
            final(self).banner.rate_focus == rates.0,
            final(self).banner.rate_off == rates.1,
            final(self).banner.pity_floor == old(self).banner.pity_floor,
            final(self).banner.pity_ceiling == old(self).banner.pity_ceiling,
            final(self).banner.pity_step == old(self).banner.pity_step,
            rates == (8u8, 0u8) ==> final(self).banner.focus_sizes@ =~= seq![3u8, 3u8, 3u8, 3u8],
            rates != (8u8, 0u8) ==> final(self).banner.focus_sizes == old(self).banner.focus_sizes,
            final(self).goal == old(self).goal,
            final(self).data.total() == 0,
    {
        self.banner.rate_focus = rates.0;
        self.banner.rate_off = rates.1;
        if rates.0 == 8 && rates.1 == 0 {
            self.banner.focus_sizes = [3, 3, 3, 3];
        }
        self.data.clear();
    }

    /// Append a goal part; a request for zero copies is dropped, not
    /// kept as a no-op. Stale results are discarded.
    pub fn add_part(&mut self, color: Color, quantity: u8)
        requires
            old(self).wf(),
        ensures
            final(self).wf(),
            final(self).banner == old(self).banner,
            final(self).data.total() == 0,
            final(self).goal.kind == old(self).goal.kind,
            final(self).goal.preset == old(self).goal.preset,
            quantity >= 1 ==> final(self).goal.goals@ == old(self).goal.goals@.push(
                GoalPart { unit_color: color, num_copies: quantity },
            ),
            quantity == 0 ==> final(self).goal.goals@ == old(self).goal.goals@,
    {
        if quantity >= 1 {
            self.goal.goals.push(GoalPart { unit_color: color, num_copies: quantity });
        }
        self.data.clear();
    }

    /// Change one part's color; stale results are discarded.
    pub fn set_part_color(&mut self, index: usize, color: Color)
        requires
            old(self).wf(),
            index < old(self).goal.goals@.len(),
        ensures
            final(self).wf(),
            final(self).banner == old(self).banner,
            final(self).data.total() == 0,
            final(self).goal.kind == old(self).goal.kind,
            final(self).goal.preset == old(self).goal.preset,
            final(self).goal.goals@ == old(self).goal.goals@.update(
                index as int,
                GoalPart {
                    unit_color: color,
                    num_copies: old(self).goal.goals@[index as int].num_copies,
                },
            ),
    {
        let copies = self.goal.goals[index].num_copies;
        self.goal.goals.set(index, GoalPart { unit_color: color, num_copies: copies });
        self.data.clear();
    }

    /// Change one part's copy count; a count of zero removes the part
    /// outright. Stale results are discarded.
    pub fn set_part_quantity(&mut self, index: usize, quantity: u8)
        requires
            old(self).wf(),
            index < old(self).goal.goals@.len(),
        ensures
            final(self).wf(),
            final(self).banner == old(self).banner,
            final(self).data.total() == 0,
            final(self).goal.kind == old(self).goal.kind,
            final(self).goal.preset == old(self).goal.preset,
            quantity == 0 ==> final(self).goal.goals@ == old(self).goal.goals@.remove(
                index as int,
            ),
            quantity >= 1 ==> final(self).goal.goals@ == old(self).goal.goals@.update(
                index as int,
                GoalPart {
                    unit_color: old(self).goal.goals@[index as int].unit_color,
                    num_copies: quantity,
                },
            ),
    {
        if quantity == 0 {
            self.goal.goals.remove(index);
        } else {
            let color = self.goal.goals[index].unit_color;
            self.goal.goals.set(index, GoalPart { unit_color: color, num_copies: quantity });
        }
        self.data.clear();
    }

    /// Change the combination rule; stale results are discarded.
    pub fn set_kind(&mut self, kind: GoalKind)
        requires
            old(self).wf(),
        ensures
            final(self).wf(),
            final(self).banner == old(self).banner,
            final(self).data.total() == 0,
            final(self).goal.kind == kind,
            final(self).goal.preset == old(self).goal.preset,
            final(self).goal.goals@ == old(self).goal.goals@,
    {
        self.goal.kind = kind;
        self.data.clear();
    }

    /// Re-derive the goal from a preset, if the preset is available on
    /// the current banner; stale results are discarded either way. An
    /// available non-custom preset replaces rule and parts with its
    /// expansion on the current banner; the custom preset keeps both.
    pub fn set_goal_preset(&mut self, preset: GoalPreset)
        requires
            old(self).wf(),
        ensures
            final(self).wf(),
            final(self).banner == old(self).banner,
            final(self).data.total() == 0,
            preset.available_on(old(self).banner) ==> final(self).goal.preset == preset
                && final(self).goal.kind == kind_after_preset(preset, old(self).goal.kind)
                && final(self).goal.goals@ == parts_after_preset(
                preset,
                old(self).goal.goals@,
                old(self).banner,
            ),
            !preset.available_on(old(self).banner) ==> final(self).goal == old(self).goal,
    {
        if preset.is_available(&self.banner) {
            self.goal.set_preset(&self.banner, preset);
        }
        self.data.clear();
    }

    /// Whether the current goal may be run on the current banner;
    /// surfaced so the boundary can disable the run action.
    pub fn is_goal_available(&self) -> (r: bool)
        ensures
            r == self.goal.available(self.banner),
    {
        self.goal.is_available(&self.banner)
    }

    /// Run trials for roughly `budget_ms` milliseconds of wall-clock
    /// time, recording each trial's roll count.
    ///
    /// The goal is first re-derived from its preset so the parts match
    /// the banner; if it is then unavailable nothing runs and nothing
    /// changes in the histogram. Batches double in size, and the run
    /// overshoots the budget by at most the duration of its last batch.
    pub fn run(&mut self, budget_ms: u64)
        requires
            old(self).wf(),
        ensures
            final(self).wf(),
            final(self).banner == old(self).banner,
            final(self).goal.preset == old(self).goal.preset,
            final(self).goal.kind == kind_after_preset(old(self).goal.preset, old(self).goal.kind),
            final(self).goal.goals@ == parts_after_preset(
                old(self).goal.preset,
                old(self).goal.goals@,
                old(self).banner,
            ),
            final(self).data.total() >= old(self).data.total(),
            final(self).goal.available(final(self).banner) && roll_bound(
                final(self).banner,
                final(self).goal,
            ) <= usize::MAX as int ==> final(self).data.total() >= old(self).data.total()
                + START_BATCH || final(self).data.total() == u64::MAX,
            !(final(self).goal.available(final(self).banner) && roll_bound(
                final(self).banner,
                final(self).goal,
            ) <= usize::MAX as int) ==> final(self)@ == old(self)@ && final(self).data.total()
                == old(self).data.total(),
    {
        let preset = self.goal.preset;
        self.goal.set_preset(&self.banner, preset);
        if !self.goal.is_available(&self.banner) {
            return ;
        }
        if !roll_bound_fits(&self.banner, &self.goal) {
            return ;
        }
        let seed = self.rng.next();
        let goal_copy = self.goal.clone();
        proof {
            assert(goal_copy.wf());
            assert(goal_copy.available(self.banner));
        }
        let mut sim = PitySimulator::new(self.banner, goal_copy, seed);
        proof {
            assert(roll_bound(sim.banner, sim.goal) == roll_bound(self.banner, self.goal));
        }
        run_trials(&mut self.data, &mut sim, budget_ms);
    }

    /// The recorded distribution as `(roll_count, occurrences)` pairs.
    pub fn raw_buckets(&self) -> (r: Vec<(usize, u64)>)
        ensures
            r@.len() == self.data@.len(),
            forall|i: int| 0 <= i < r@.len() ==> #[trigger] r@[i] == (i as usize, self.data@[i]),
    {
        self.data.raw_buckets()
    }

    /// Summary of the recorded distribution, `None` while empty.
    pub fn summary(&self) -> (r: Option<crate::histogram::Summary>)
        requires
            self.wf(),
        ensures
            (r is None) <==> self.data.total() == 0,
            r matches Some(su) ==> su.count == self.data.total(),
    {
        self.data.summary()
    }

    /// Number of trials recorded so far.
    pub fn count(&self) -> (r: u64)
        requires
            self.wf(),
        ensures
            r == self.data.total(),
    {
        self.data.count()
    }
}

/// Fill the histogram with trials of `sim` until the wall-clock
/// budget runs out: one full starting batch always runs, and each
/// later batch doubles, so the time checks stay amortized.
fn run_trials(data: &mut ResultHistogram, sim: &mut PitySimulator, budget_ms: u64)
    requires
        old(data).inv(),
        old(sim).wf(),
        roll_bound(old(sim).banner, old(sim).goal) <= usize::MAX as int,
    ensures
        final(data).inv(),
        final(data).total() >= old(data).total() + START_BATCH || final(data).total()
            == u64::MAX,
        final(data).total() >= old(data).total(),
{
    let start = now_millis();
    let mut limit: u64 = START_BATCH;
    let mut batches: u64 = 0;
    while batches < 64
        invariant
            data.inv(),
            data.total() >= old(data).total(),
            batches == 0 ==> data.total() == old(data).total(),
            batches >= 1 ==> data.total() >= old(data).total() + START_BATCH || data.total()
                == u64::MAX,
            limit >= START_BATCH,
            sim.wf(),
            roll_bound(sim.banner, sim.goal) <= usize::MAX as int,
            batches <= 64,
        decreases 64 - batches,
    {
        batches = batches + 1;
        let ghost batch_start = data.total();
        let mut i: u64 = 0;
        while i < limit
            invariant
                i <= limit,
                data.inv(),
                data.total() >= old(data).total(),
                batch_start >= old(data).total(),
                data.total() >= batch_start + i || data.total() == u64::MAX,
                batch_start >= old(data).total() + START_BATCH || batch_start == old(
                    data,
                ).total() || data.total() == u64::MAX,
                sim.wf(),
                roll_bound(sim.banner, sim.goal) <= usize::MAX as int,
            decreases limit - i,
        {
            if data.count() == u64::MAX {
                i = limit;
            } else {
                let rolls = sim.roll_until_goal();
                data.record(rolls);
                i = i + 1;
            }
        }
        proof {
            assert(data.total() >= batch_start + limit || data.total() == u64::MAX);
        }
        limit = if limit >= 0x1000_0000_0000_0000 {
            limit
        } else {
            limit * 2
        };
        let now = now_millis();
        let elapsed = if now >= start {
            now - start
        } else {
            0
        };
        if elapsed >= budget_ms {
            batches = 64;
        }
    }
}

impl View for RunController {
    type V = Seq<u64>;

    /// The observable result state: the histogram's buckets.
    open spec fn view(&self) -> Seq<u64> {
        self.data@
    }
}

} // verus!
