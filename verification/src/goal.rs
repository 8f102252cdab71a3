use crate::banner::BannerConfig;
use crate::Color;
use crate::NUM_COLORS;
use vstd::prelude::*;

verus! {

/// Combination rule over the parts of a goal.
#[derive(Copy, Clone, Debug, PartialEq, Eq, Structural)]
pub enum GoalKind {
    /// Every part must be satisfied.
    All,
    /// At least one part must be satisfied.
    Any,
}

/// Named convenience shapes that expand to concrete parts on a banner.
#[derive(Copy, Clone, Debug, PartialEq, Eq, Structural)]
pub enum GoalPreset {
    /// Keep the parts exactly as the user listed them.
    Custom,
    /// One focus copy of any single color the banner offers.
    AnyFocus,
    /// One focus copy of every color the banner offers.
    AllFocusColors,
}

/// "Acquire at least `num_copies` focus copies of `unit_color`."
#[derive(Copy, Clone, Debug, PartialEq, Eq, Structural)]
pub struct GoalPart {
    pub unit_color: Color,
    pub num_copies: u8,
}

/// A user-specified acquisition target: an ordered list of parts plus
/// the rule that combines them, and the preset it was derived from.
#[verifier::ext_equal]
#[derive(Debug, PartialEq, Eq)]
pub struct GoalSpec {
    pub kind: GoalKind,
    pub goals: Vec<GoalPart>,
    pub preset: GoalPreset,
}

/// The parts a non-custom preset expands to on the given banner: one
/// copy of each color the banner offers, in ordinal order.
pub open spec fn preset_parts(b: BannerConfig) -> Seq<GoalPart> {
    let s0 = Seq::<GoalPart>::empty();
    let s1 = if b.focus_sizes@[0] > 0 {
        s0.push(GoalPart { unit_color: Color::Red, num_copies: 1 })
    } else {
        s0
    };
    let s2 = if b.focus_sizes@[1] > 0 {
        s1.push(GoalPart { unit_color: Color::Blue, num_copies: 1 })
    } else {
        s1
    };
    let s3 = if b.focus_sizes@[2] > 0 {
        s2.push(GoalPart { unit_color: Color::Green, num_copies: 1 })
    } else {
        s2
    };
    if b.focus_sizes@[3] > 0 {
        s3.push(GoalPart { unit_color: Color::Colorless, num_copies: 1 })
    } else {
        s3
    }
}

/// The combination rule a preset change leaves in place: the custom
/// preset keeps the current rule, the named shapes fix theirs.
pub open spec fn kind_after_preset(p: GoalPreset, k: GoalKind) -> GoalKind {
    match p {
        GoalPreset::Custom => k,
        GoalPreset::AnyFocus => GoalKind::Any,
        GoalPreset::AllFocusColors => GoalKind::All,
    }
}

/// The part list a preset change leaves in place: the custom preset
/// keeps the current parts, the named shapes expand on the banner.
pub open spec fn parts_after_preset(
    p: GoalPreset,
    parts: Seq<GoalPart>,
    b: BannerConfig,
) -> Seq<GoalPart> {
    match p {
        GoalPreset::Custom => parts,
        _ => preset_parts(b),
    }
}

/// Whether a part is met by a per-color inventory of focus copies.
pub open spec fn part_done(part: GoalPart, inv: Seq<u64>) -> bool {
    inv[part.unit_color.ord()] >= part.num_copies
}

impl GoalPreset {
    /// Whether the preset expands to a runnable goal on the banner.
    pub open spec fn available_on(self, b: BannerConfig) -> bool {
        match self {
            GoalPreset::Custom => true,
            _ => exists|c: int| 0 <= c < NUM_COLORS && b.focus_sizes@[c] > 0,
        }
    }

    /// Whether the preset expands to a runnable goal on the banner.
    pub fn is_available(self, banner: &BannerConfig) -> (r: bool)
        ensures
            r == self.available_on(*banner),
    {
        match self {
            GoalPreset::Custom => true,
            _ => {
                let some = banner.focus_sizes[0] > 0 || banner.focus_sizes[1] > 0
                    || banner.focus_sizes[2] > 0 || banner.focus_sizes[3] > 0;
                proof {
                    if !some {
                        assert(forall|c: int| 0 <= c < NUM_COLORS ==> banner.focus_sizes@[c] == 0);
                    }
                }
                some
            },
        }
    }
}

impl GoalSpec {
    /// Well-formedness: no part asks for zero copies (such a part is
    /// removed, never retained as a no-op).
    pub open spec fn wf(self) -> bool {
        forall|i: int| 0 <= i < self.goals@.len() ==> self.goals@[i].num_copies >= 1
    }

    /// The same target: equal rule, parts and preset.
    pub open spec fn eqv(self, other: GoalSpec) -> bool {
        &&& self.kind == other.kind
        &&& self.goals@ == other.goals@
        &&& self.preset == other.preset
    }

    /// A goal may be run on a banner only if it has at least one part
    /// and every part's color has at least one focus slot there.
    pub open spec fn available(self, b: BannerConfig) -> bool {
        &&& self.goals@.len() > 0
        &&& forall|i: int|
            0 <= i < self.goals@.len() ==> b.focus_sizes@[#[trigger] self.goals@[i].unit_color.ord()]
                > 0
    }

    /// Whether the inventory meets the goal under its combination rule.
    pub open spec fn satisfied(self, inv: Seq<u64>) -> bool {
        match self.kind {
            GoalKind::All => forall|i: int|
                0 <= i < self.goals@.len() ==> part_done(#[trigger] self.goals@[i], inv),
            GoalKind::Any => exists|i: int|
                0 <= i < self.goals@.len() && part_done(#[trigger] self.goals@[i], inv),
        }
    }

    /// Availability check the boundary performs before running.
    pub fn is_available(&self, banner: &BannerConfig) -> (r: bool)
        ensures
            r == self.available(*banner),
    {
        let n = self.goals.len();
        if n == 0 {
            return false;
        }
        let mut i: usize = 0;
        while i < n
            invariant
                i <= n,
                n == self.goals@.len(),
                forall|j: int|
                    0 <= j < i ==> banner.focus_sizes@[#[trigger] self.goals@[j].unit_color.ord()]
                        > 0,
            decreases n - i,
        {
            if !banner.offers(self.goals[i].unit_color) {
                return false;
            }
            i = i + 1;
        }
        true
    }

    /// Evaluate the goal against a per-color inventory of focus copies.
    pub fn is_satisfied(&self, inventory: &Vec<u64>) -> (r: bool)
        requires
            inventory@.len() == NUM_COLORS,
        ensures
            r == self.satisfied(inventory@),
    {
        let n = self.goals.len();
        match self.kind {
            GoalKind::All => {
                let mut i: usize = 0;
                while i < n
                    invariant
                        i <= n,
                        n == self.goals@.len(),
                        inventory@.len() == NUM_COLORS,
                        self.kind == GoalKind::All,
                        forall|j: int| 0 <= j < i ==> part_done(#[trigger] self.goals@[j], inventory@),
                    decreases n - i,
                {
                    let part = self.goals[i];
                    if inventory[part.unit_color.index()] < part.num_copies as u64 {
                        proof {
                            assert(!part_done(self.goals@[i as int], inventory@));
                        }
                        return false;
                    }
                    i = i + 1;
                }
                true
            },
            GoalKind::Any => {
                let mut i: usize = 0;
                while i < n
                    invariant
                        i <= n,
                        n == self.goals@.len(),
                        inventory@.len() == NUM_COLORS,
                        self.kind == GoalKind::Any,
                        forall|j: int|
                            0 <= j < i ==> !part_done(#[trigger] self.goals@[j], inventory@),
                    decreases n - i,
                {
                    let part = self.goals[i];
                    if inventory[part.unit_color.index()] >= part.num_copies as u64 {
                        proof {
                            assert(part_done(self.goals@[i as int], inventory@));
                        }
                        return true;
                    }
                    i = i + 1;
                }
                false
            },
        }
    }

    /// Re-derive the goal from a preset against the current banner.
    ///
    /// A non-custom preset replaces the parts with one copy of each
    /// color the banner offers, so a stale part never survives a banner
    /// change; the custom preset keeps the parts as they are.
    pub fn set_preset(&mut self, banner: &BannerConfig, preset: GoalPreset)
        ensures
            final(self).preset == preset,
            final(self).kind == kind_after_preset(preset, old(self).kind),
            final(self).goals@ == parts_after_preset(preset, old(self).goals@, *banner),
            old(self).wf() ==> final(self).wf(),
    {
        self.preset = preset;
        match preset {
            GoalPreset::Custom => {},
            GoalPreset::AnyFocus => {
                self.kind = GoalKind::Any;
                self.goals = expand_preset(banner);
            },
            GoalPreset::AllFocusColors => {
                self.kind = GoalKind::All;
                self.goals = expand_preset(banner);
            },
        }
    }
}

/// Build the concrete part list a non-custom preset stands for.
fn expand_preset(banner: &BannerConfig) -> (r: Vec<GoalPart>)
    ensures
        r@ == preset_parts(*banner),
{
    let mut parts: Vec<GoalPart> = Vec::new();
    if banner.focus_sizes[0] > 0 {
        parts.push(GoalPart { unit_color: Color::Red, num_copies: 1 });
    }
    if banner.focus_sizes[1] > 0 {
        parts.push(GoalPart { unit_color: Color::Blue, num_copies: 1 });
    }
    if banner.focus_sizes[2] > 0 {
        parts.push(GoalPart { unit_color: Color::Green, num_copies: 1 });
    }
    if banner.focus_sizes[3] > 0 {
        parts.push(GoalPart { unit_color: Color::Colorless, num_copies: 1 });
    }
    proof {
        assert(parts@ =~= preset_parts(*banner));
    }
    parts
}

impl Clone for GoalSpec {
    /// A copy describing the same target.
    fn clone(&self) -> (r: Self)
        ensures
            r.eqv(*self),
    {
        let n = self.goals.len();
        let mut gs: Vec<GoalPart> = Vec::new();
        let mut i: usize = 0;
        while i < n
            invariant
                i <= n,
                n == self.goals@.len(),
                gs@ =~= self.goals@.subrange(0, i as int),
            decreases n - i,
        {
            gs.push(self.goals[i]);
            i = i + 1;
        }
        proof {
            assert(gs@ =~= self.goals@);
        }
        GoalSpec { kind: self.kind, goals: gs, preset: self.preset }
    }
}

/// An available non-custom preset always expands to an available goal:
/// the expansion is non-empty exactly when some color is offered, and
/// every expanded part names an offered color and one copy.
pub proof fn lemma_preset_parts_available(b: BannerConfig)
    ensures
        (preset_parts(b).len() > 0) <==> (exists|c: int|
            0 <= c < NUM_COLORS && b.focus_sizes@[c] > 0),
        forall|i: int|
            0 <= i < preset_parts(b).len() ==> b.focus_sizes@[(
            #[trigger] preset_parts(b)[i]).unit_color.ord()] > 0 && preset_parts(b)[i].num_copies
                == 1,
{
    if preset_parts(b).len() > 0 {
        if b.focus_sizes@[0] > 0 {
        } else if b.focus_sizes@[1] > 0 {
        } else if b.focus_sizes@[2] > 0 {
        } else {
            assert(b.focus_sizes@[3] > 0);
        }
    }
}

} // verus!
