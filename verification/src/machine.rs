//! Machines: what they can craft and how fast.

use vstd::prelude::*;

use crate::ids::{CraftingCategory, MachineId};
use crate::key::KeyEq;
use crate::quantity::Quantity;
use crate::resource::IconRef;
use crate::text::{decimal, decimal_string, join_display, joined};

verus! {

/// The kind of prototype a machine was read from.
#[derive(Debug, Clone, Copy, PartialEq, Eq, Structural)]
pub enum MachineKind {
    AssemblingMachine,
    Furnace,
    RocketSilo,
    MiningDrill,
    Other,
}

/// The name under which a kind of machine is written.
pub open spec fn kind_name(kind: MachineKind) -> Seq<char> {
    match kind {
        MachineKind::AssemblingMachine => "assembling-machine"@,
        MachineKind::Furnace => "furnace"@,
        MachineKind::RocketSilo => "rocket-silo"@,
        MachineKind::MiningDrill => "mining-drill"@,
        MachineKind::Other => "other"@,
    }
}

impl MachineKind {
    /// The kind's name in kebab case, such as `assembling-machine`.
    pub fn name(&self) -> (s: &'static str)
        ensures
            s@ == kind_name(*self),
    {
        proof {
            reveal_strlit("assembling-machine");
            reveal_strlit("furnace");
            reveal_strlit("rocket-silo");
            reveal_strlit("mining-drill");
            reveal_strlit("other");
        }
        match self {
            MachineKind::AssemblingMachine => "assembling-machine",
            MachineKind::Furnace => "furnace",
            MachineKind::RocketSilo => "rocket-silo",
            MachineKind::MiningDrill => "mining-drill",
            MachineKind::Other => "other",
        }
    }
}

/// A machine: it runs recipes of its crafting categories at its crafting
/// speed, drawing `energy_usage_watts`.
#[derive(Debug)]
pub struct Machine<N> {
    pub id: MachineId,
    pub kind: MachineKind,
    pub crafting_categories: Vec<CraftingCategory>,
    pub crafting_speed: N,
    pub module_slots: u32,
    pub energy_usage_watts: N,
    pub icon: Option<IconRef>,
}

/// Some category of `categories` is `category`.
pub open spec fn has_category(categories: Seq<CraftingCategory>, category: Seq<char>) -> bool {
    exists|i: int| 0 <= i < categories.len() && #[trigger] categories[i]@ == category
}

/// The names of a list of crafting categories.
pub open spec fn category_views(categories: Seq<CraftingCategory>) -> Seq<Seq<char>> {
    categories.map_values(|c: CraftingCategory| c@)
}

/// The names of the categories, joined with `, `.
pub fn join_categories(categories: &Vec<CraftingCategory>) -> (s: String)
    ensures
        s@ == joined(category_views(categories@), ", "@),
{
    let mut names: Vec<String> = Vec::new();
    let n = categories.len();
    let mut i: usize = 0;
    while i < n
        invariant
            n == categories@.len(),
            i <= n,
            names@.len() == i,
            forall|j: int| 0 <= j < i ==> #[trigger] names@[j]@ == categories@[j]@,
        decreases n - i,
    {
        names.push(categories[i].as_str().to_owned());
        i = i + 1;
    }
    let s = join_display(&names, ", ");
    proof {
        assert(names@.map_values(|p: String| p@) =~= category_views(categories@));
    }
    s
}

/// A power in watts as text: in gigawatts, megawatts or kilowatts (with
/// two decimals) where its size reaches a billion, a million or a thousand,
/// either way, and otherwise in watts (with none).
pub open spec fn watts_text<N: Quantity>(w: N) -> Seq<char> {
    let giga = N::spec_from_u64(1_000_000_000);
    let mega = N::spec_from_u64(1_000_000);
    let kilo = N::spec_from_u64(1_000);
    let zero = N::spec_zero();
    if giga.spec_at_most(w) || w.spec_at_most(zero.spec_minus(giga)) {
        w.spec_over(giga).spec_format_fixed(2)@ + " GW"@
    } else if mega.spec_at_most(w) || w.spec_at_most(zero.spec_minus(mega)) {
        w.spec_over(mega).spec_format_fixed(2)@ + " MW"@
    } else if kilo.spec_at_most(w) || w.spec_at_most(zero.spec_minus(kilo)) {
        w.spec_over(kilo).spec_format_fixed(2)@ + " kW"@
    } else {
        w.spec_format_fixed(0)@ + " W"@
    }
}

/// A power in watts as text, in the largest of gigawatts, megawatts and
/// kilowatts that its size reaches (with two decimals), or else in watts
/// (with none).
pub fn format_watts<N: Quantity>(w: N) -> (s: String)
    ensures
        s@ == watts_text(w),
{
    let giga = N::from_u64(1_000_000_000);
    let mega = N::from_u64(1_000_000);
    let kilo = N::from_u64(1_000);
    let zero = N::zero();
    let (mut s, unit) = if giga.at_most(w) || w.at_most(zero.minus(giga)) {
        (w.over(giga).format_fixed(2), " GW")
    } else if mega.at_most(w) || w.at_most(zero.minus(mega)) {
        (w.over(mega).format_fixed(2), " MW")
    } else if kilo.at_most(w) || w.at_most(zero.minus(kilo)) {
        (w.over(kilo).format_fixed(2), " kW")
    } else {
        (w.format_fixed(0), " W")
    };
    let ghost digits = s@;
    s.append(unit);
    proof {
        assert(s@ == digits + unit@);
    }
    s
}

/// `s` is the text of the machine `m`: its kind in parentheses, its speed,
/// its module slots, its power and its categories.
pub open spec fn machine_text_ok<N: Quantity>(m: Machine<N>, s: Seq<char>) -> bool {
    s == machine_text(
        m.kind,
        m.crafting_speed.spec_format()@,
        m.module_slots,
        watts_text(m.energy_usage_watts),
        m.crafting_categories@,
    )
}

/// The text of a machine, given the texts of its speed and its power.
pub open spec fn machine_text(
    kind: MachineKind,
    speed: Seq<char>,
    slots: u32,
    power: Seq<char>,
    categories: Seq<CraftingCategory>,
) -> Seq<char> {
    "("@ + kind_name(kind) + ") speed="@ + speed + " slots="@ + decimal(slots as nat) + " energy="@ + power
        + " categories=["@ + joined(category_views(categories), ", "@) + "]"@
}

/// The runs per second of a machine of speed `speed` at a recipe that takes
/// `time`: zero when the time is below zero or equal to it, and otherwise
/// the speed over the time.
pub open spec fn crafts_spec<N: Quantity>(speed: N, time: N) -> N {
    if time.spec_less_than(N::spec_zero()) || time.spec_equals(N::spec_zero()) {
        N::spec_zero()
    } else {
        speed.spec_over(time)
    }
}

impl<N: Quantity> Machine<N> {
    /// The machine as text: its kind, speed, module slots, power and
    /// crafting categories.
    pub fn describe(&self) -> (s: String)
        ensures
            machine_text_ok(*self, s@),
    {
        let mut s = "(".to_owned();
        s.append(self.kind.name());
        s.append(") speed=");
        let speed = self.crafting_speed.format();
        s.append(speed.as_str());
        s.append(" slots=");
        let slots = decimal_string(self.module_slots as usize);
        s.append(slots.as_str());
        s.append(" energy=");
        let power = format_watts(self.energy_usage_watts);
        s.append(power.as_str());
        s.append(" categories=[");
        let categories = join_categories(&self.crafting_categories);
        s.append(categories.as_str());
        s.append("]");
        proof {
            assert(s@ =~= machine_text(self.kind, speed@, self.module_slots, power@, self.crafting_categories@));
        }
        s
    }

    /// Whether the machine runs recipes of `category`.
    pub fn supports(&self, category: &CraftingCategory) -> (b: bool)
        ensures
            b == has_category(self.crafting_categories@, category@),
    {
        let n = self.crafting_categories.len();
        let mut i: usize = 0;
        while i < n
            invariant
                n == self.crafting_categories@.len(),
                i <= n,
                forall|j: int| 0 <= j < i ==> #[trigger] self.crafting_categories@[j]@ != category@,
            decreases n - i,
        {
            if self.crafting_categories[i].key_eq(category) {
                return true;
            }
            i = i + 1;
        }
        false
    }

    /// How many runs per second the machine completes of a recipe that takes
    /// `recipe_crafting_time`: the crafting speed over the time, and zero
    /// when the time is negative or zero.
    pub fn crafts_per_second(&self, recipe_crafting_time: N) -> (r: N)
        ensures
            r == crafts_spec(self.crafting_speed, recipe_crafting_time),
    {
        if recipe_crafting_time.less_than(N::zero()) {
            return N::zero();
        }
        if recipe_crafting_time.equals(N::zero()) {
            return N::zero();
        }
        self.crafting_speed.over(recipe_crafting_time)
    }
}

} // verus!
