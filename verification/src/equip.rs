//! Which item to take into the hand, and how to get it there.

use crate::kinds::{
    is_axe, is_sword, is_tool, preferred_tool_name, tool_matches, tool_name, ItemKind,
    PreferredTool,
};
use crate::text::{prefixes_come_off, strip_text_prefixes, without_prefixes};
use core::ops::RangeInclusive;
use vstd::prelude::*;
use vstd::string::*;

verus! {

/// How to get an item into the hand: by selecting the hotbar slot that holds it, or by moving it
/// from elsewhere in the inventory into the selected hotbar slot.
#[derive(Clone, Copy, Debug, PartialEq, Eq, Structural)]
pub enum ToolEquipPlan {
    SelectHotbar { hotbar_index: u8 },
    MoveToSelectedHotbar { source_slot: usize, hotbar_slot: usize, hotbar_index: u8 },
}

/// What to look for: any tool of a kind, or one kind of item.
#[derive(Clone, Copy, Debug, PartialEq, Eq, Structural)]
pub enum Wanted {
    Tool(PreferredTool),
    Item(ItemKind),
}

/// Whether an item is what is wanted.
pub open spec fn is_wanted(item: ItemKind, wanted: Wanted) -> bool {
    match wanted {
        Wanted::Tool(tool) => is_tool(item, tool),
        Wanted::Item(kind) => item == kind,
    }
}

fn matches_wanted(item: ItemKind, wanted: Wanted) -> (r: bool)
    ensures
        r == is_wanted(item, wanted),
{
    match wanted {
        Wanted::Tool(tool) => tool_matches(item, tool),
        Wanted::Item(kind) => item == kind,
    }
}

/// Whether slot `i` exists and holds what is wanted.
pub open spec fn holds(slots: Seq<Option<ItemKind>>, i: int, wanted: Wanted) -> bool {
    0 <= i < slots.len() && (slots[i] matches Some(item) && is_wanted(item, wanted))
}

/// The slots of the hotbar, which `hotbar` gives from its first to its last.
pub open spec fn in_hotbar(hotbar: RangeInclusive<usize>, i: int) -> bool {
    hotbar@.start <= i <= hotbar@.end
}

/// The slot of the hotbar that is in the hand.
pub open spec fn selected_slot(hotbar: RangeInclusive<usize>, selected: u8) -> int {
    hotbar@.start + selected
}

/// `plan` is the way to get what is wanted into the hand:
/// none where the hand holds it already or no slot does;
/// selecting the first hotbar slot that holds it, where there is one;
/// else moving it from the first other slot that holds it.
pub open spec fn is_equip_plan(
    slots: Seq<Option<ItemKind>>,
    hotbar: RangeInclusive<usize>,
    selected: u8,
    wanted: Wanted,
    plan: Option<ToolEquipPlan>,
) -> bool {
    match plan {
        None => holds(slots, selected_slot(hotbar, selected), wanted) || forall|i: int|
            !#[trigger] holds(slots, i, wanted),
        Some(ToolEquipPlan::SelectHotbar { hotbar_index }) => {
            &&& !holds(slots, selected_slot(hotbar, selected), wanted)
            &&& exists|slot: int|
                {
                    &&& #[trigger] holds(slots, slot, wanted)
                    &&& in_hotbar(hotbar, slot)
                    &&& hotbar_index == (slot - hotbar@.start) % 256
                    &&& forall|i: int|
                        in_hotbar(hotbar, i) && #[trigger] holds(slots, i, wanted) ==> slot <= i
                }
        },
        Some(ToolEquipPlan::MoveToSelectedHotbar { source_slot, hotbar_slot, hotbar_index }) => {
            &&& !holds(slots, selected_slot(hotbar, selected), wanted)
            &&& holds(slots, source_slot as int, wanted)
            &&& forall|i: int| #[trigger]
                holds(slots, i, wanted) ==> !in_hotbar(hotbar, i) && source_slot <= i
            &&& hotbar_slot == selected_slot(hotbar, selected)
            &&& hotbar_index == selected
        },
    }
}

/// The lower bound of an inclusive range: `RangeInclusive::start` of the standard library. Nothing
/// is claimed of a range that an iteration has used up.
pub assume_specification<Idx>[ RangeInclusive::<Idx>::start ](
    range: &RangeInclusive<Idx>,
) -> (start: &Idx)
    ensures
        !range@.exhausted ==> *start == range@.start,
;

/// The hotbar's slots are known and the selected slot has a number.
pub open spec fn hotbar_fits(hotbar: RangeInclusive<usize>, selected: u8) -> bool {
    !hotbar@.exhausted && selected_slot(hotbar, selected) <= usize::MAX
}

fn slot_holds(slots: &[Option<ItemKind>], i: usize, wanted: Wanted) -> (r: bool)
    ensures
        r == holds(slots@, i as int, wanted),
{
    if i < slots.len() {
        match slots[i] {
            Some(item) => matches_wanted(item, wanted),
            None => false,
        }
    } else {
        false
    }
}

/// The first slot that holds what is wanted, inside the hotbar or outside of it.
fn first_slot(
    slots: &[Option<ItemKind>],
    hotbar: &RangeInclusive<usize>,
    inside: bool,
    wanted: Wanted,
) -> (slot: Option<usize>)
    requires
        !hotbar@.exhausted,
    ensures
        slot matches Some(s) ==> holds(slots@, s as int, wanted) && in_hotbar(*hotbar, s as int)
            == inside && forall|i: int|
            in_hotbar(*hotbar, i) == inside && #[trigger] holds(slots@, i, wanted) ==> s <= i,
        slot is None ==> forall|i: int|
            in_hotbar(*hotbar, i) == inside ==> !#[trigger] holds(slots@, i, wanted),
{
    let mut i: usize = 0;
    while i < slots.len()
        invariant
            i <= slots@.len(),
            !hotbar@.exhausted,
            forall|j: int|
                0 <= j < i && in_hotbar(*hotbar, j) == inside ==> !#[trigger] holds(
                    slots@,
                    j,
                    wanted,
                ),
        decreases slots@.len() - i,
    {
        if hotbar.contains(&i) == inside && slot_holds(slots, i, wanted) {
            return Some(i);
        }
        i = i + 1;
    }
    None
}

fn plan_equip(
    slots: &[Option<ItemKind>],
    hotbar_slots: &RangeInclusive<usize>,
    selected_hotbar_index: u8,
    wanted: Wanted,
) -> (plan: Option<ToolEquipPlan>)
    requires
        hotbar_fits(*hotbar_slots, selected_hotbar_index),
    ensures
        is_equip_plan(slots@, *hotbar_slots, selected_hotbar_index, wanted, plan),
{
    let hotbar_start: usize = *hotbar_slots.start();
    let selected_hotbar_slot: usize = hotbar_start + selected_hotbar_index as usize;
    if slot_holds(slots, selected_hotbar_slot, wanted) {
        return None;
    }
    match first_slot(slots, hotbar_slots, true, wanted) {
        Some(slot) => {
            let hotbar_index: u8 = ((slot - hotbar_start) % 256) as u8;
            return Some(ToolEquipPlan::SelectHotbar { hotbar_index });
        },
        None => {},
    }
    match first_slot(slots, hotbar_slots, false, wanted) {
        Some(source_slot) => Some(
            ToolEquipPlan::MoveToSelectedHotbar {
                source_slot,
                hotbar_slot: selected_hotbar_slot,
                hotbar_index: selected_hotbar_index,
            },
        ),
        None => None,
    }
}

/// How to get a tool of the preferred kind into the hand.
pub fn plan_tool_equip(
    slots: &[Option<ItemKind>],
    hotbar_slots: RangeInclusive<usize>,
    selected_hotbar_index: u8,
    preferred_tool: PreferredTool,
) -> (plan: Option<ToolEquipPlan>)
    requires
        hotbar_fits(hotbar_slots, selected_hotbar_index),
    ensures
        is_equip_plan(
            slots@,
            hotbar_slots,
            selected_hotbar_index,
            Wanted::Tool(preferred_tool),
            plan,
        ),
{
    plan_equip(slots, &hotbar_slots, selected_hotbar_index, Wanted::Tool(preferred_tool))
}

/// How to get an item of one kind into the hand.
pub fn plan_item_equip(
    slots: &[Option<ItemKind>],
    hotbar_slots: RangeInclusive<usize>,
    selected_hotbar_index: u8,
    target: ItemKind,
) -> (plan: Option<ToolEquipPlan>)
    requires
        hotbar_fits(hotbar_slots, selected_hotbar_index),
    ensures
        is_equip_plan(slots@, hotbar_slots, selected_hotbar_index, Wanted::Item(target), plan),
{
    plan_equip(slots, &hotbar_slots, selected_hotbar_index, Wanted::Item(target))
}

/// The inventory's slots, which of them are the hotbar, and which of the hotbar is in the hand.
#[derive(Debug)]
pub struct Hand {
    pub slots: Vec<Option<ItemKind>>,
    pub hotbar: RangeInclusive<usize>,
    pub selected: u8,
}

impl Hand {
    /// The hotbar's slots are known and the selected slot has a number.
    pub open spec fn fits(self) -> bool {
        hotbar_fits(self.hotbar, self.selected)
    }

    /// `plan` is the way to get what is wanted into the hand.
    pub open spec fn is_plan(self, wanted: Wanted, plan: Option<ToolEquipPlan>) -> bool {
        is_equip_plan(self.slots@, self.hotbar, self.selected, wanted, plan)
    }

    /// How to get what is wanted into the hand.
    pub fn plan(&self, wanted: Wanted) -> (plan: Option<ToolEquipPlan>)
        requires
            self.fits(),
        ensures
            self.is_plan(wanted, plan),
    {
        plan_equip(self.slots.as_slice(), &self.hotbar, self.selected, wanted)
    }
}

/// Whether a tool came into the hand: always by selecting its slot, and by moving it where the
/// inventory could be opened.
pub open spec fn got_equipped(plan: Option<ToolEquipPlan>, inventory_opened: bool) -> bool {
    match plan {
        None => false,
        Some(ToolEquipPlan::SelectHotbar { .. }) => true,
        Some(ToolEquipPlan::MoveToSelectedHotbar { .. }) => inventory_opened,
    }
}

/// Whether a tool came into the hand.
pub fn equip_succeeded(plan: Option<ToolEquipPlan>, inventory_opened: bool) -> (r: bool)
    ensures
        r == got_equipped(plan, inventory_opened),
{
    match plan {
        None => false,
        Some(ToolEquipPlan::SelectHotbar { .. }) => true,
        Some(ToolEquipPlan::MoveToSelectedHotbar { .. }) => inventory_opened,
    }
}

/// Whether an item is on its way into the hand, so that it is not there yet: a move was begun.
pub fn item_swap_started(plan: Option<ToolEquipPlan>, inventory_opened: bool) -> (r: bool)
    ensures
        r == (plan is Some && plan->0 is MoveToSelectedHotbar && inventory_opened),
{
    match plan {
        Some(ToolEquipPlan::MoveToSelectedHotbar { .. }) => inventory_opened,
        _ => false,
    }
}

/// Some slot holds what is wanted.
pub open spec fn has_wanted(slots: Seq<Option<ItemKind>>, wanted: Wanted) -> bool {
    exists|i: int| holds(slots, i, wanted)
}

/// Some slot holds an item of the kind.
pub open spec fn carries(slots: Seq<Option<ItemKind>>, kind: ItemKind) -> bool {
    has_wanted(slots, Wanted::Item(kind))
}

/// The best sword at hand, by what it is made of.
pub open spec fn best_sword(slots: Seq<Option<ItemKind>>) -> Option<ItemKind> {
    if carries(slots, ItemKind::NetheriteSword) {
        Some(ItemKind::NetheriteSword)
    } else if carries(slots, ItemKind::DiamondSword) {
        Some(ItemKind::DiamondSword)
    } else if carries(slots, ItemKind::IronSword) {
        Some(ItemKind::IronSword)
    } else if carries(slots, ItemKind::GoldenSword) {
        Some(ItemKind::GoldenSword)
    } else if carries(slots, ItemKind::StoneSword) {
        Some(ItemKind::StoneSword)
    } else if carries(slots, ItemKind::WoodenSword) {
        Some(ItemKind::WoodenSword)
    } else {
        None
    }
}

/// The best axe at hand, by what it is made of.
pub open spec fn best_axe(slots: Seq<Option<ItemKind>>) -> Option<ItemKind> {
    if carries(slots, ItemKind::NetheriteAxe) {
        Some(ItemKind::NetheriteAxe)
    } else if carries(slots, ItemKind::DiamondAxe) {
        Some(ItemKind::DiamondAxe)
    } else if carries(slots, ItemKind::IronAxe) {
        Some(ItemKind::IronAxe)
    } else if carries(slots, ItemKind::GoldenAxe) {
        Some(ItemKind::GoldenAxe)
    } else if carries(slots, ItemKind::CopperAxe) {
        Some(ItemKind::CopperAxe)
    } else if carries(slots, ItemKind::StoneAxe) {
        Some(ItemKind::StoneAxe)
    } else if carries(slots, ItemKind::WoodenAxe) {
        Some(ItemKind::WoodenAxe)
    } else {
        None
    }
}

/// The best melee weapon at hand: the best sword, or the best axe where there is no sword.
pub open spec fn best_weapon(slots: Seq<Option<ItemKind>>) -> Option<ItemKind> {
    match best_sword(slots) {
        Some(sword) => Some(sword),
        None => best_axe(slots),
    }
}

/// `plan` is the way to get the best melee weapon into the hand; there is none where there is no
/// weapon.
pub open spec fn is_weapon_plan(
    slots: Seq<Option<ItemKind>>,
    hotbar: RangeInclusive<usize>,
    selected: u8,
    plan: Option<ToolEquipPlan>,
) -> bool {
    match best_weapon(slots) {
        Some(item) => is_equip_plan(slots, hotbar, selected, Wanted::Item(item), plan),
        None => plan is None,
    }
}

/// How to get the best melee weapon into the hand.
pub fn plan_combat_weapon_equip(
    slots: &[Option<ItemKind>],
    hotbar_slots: RangeInclusive<usize>,
    selected_hotbar_index: u8,
) -> (plan: Option<ToolEquipPlan>)
    requires
        hotbar_fits(hotbar_slots, selected_hotbar_index),
    ensures
        match best_weapon(slots@) {
            Some(item) => is_equip_plan(
                slots@,
                hotbar_slots,
                selected_hotbar_index,
                Wanted::Item(item),
                plan,
            ),
            None => plan is None,
        },
{
    plan_weapon(slots, &hotbar_slots, selected_hotbar_index)
}

/// Whether some slot holds an item of the kind.
fn slots_carry(slots: &[Option<ItemKind>], kind: ItemKind) -> (r: bool)
    ensures
        r == carries(slots@, kind),
{
    let mut i: usize = 0;
    while i < slots.len()
        invariant
            i <= slots@.len(),
            forall|j: int| 0 <= j < i ==> !#[trigger] holds(slots@, j, Wanted::Item(kind)),
        decreases slots@.len() - i,
    {
        if slot_holds(slots, i, Wanted::Item(kind)) {
            return true;
        }
        i = i + 1;
    }
    false
}

fn plan_weapon(
    slots: &[Option<ItemKind>],
    hotbar_slots: &RangeInclusive<usize>,
    selected_hotbar_index: u8,
) -> (plan: Option<ToolEquipPlan>)
    requires
        hotbar_fits(*hotbar_slots, selected_hotbar_index),
    ensures
        is_weapon_plan(slots@, *hotbar_slots, selected_hotbar_index, plan),
{
    let weapons: Vec<ItemKind> = vec![
        ItemKind::NetheriteSword,
        ItemKind::DiamondSword,
        ItemKind::IronSword,
        ItemKind::GoldenSword,
        ItemKind::StoneSword,
        ItemKind::WoodenSword,
        ItemKind::NetheriteAxe,
        ItemKind::DiamondAxe,
        ItemKind::IronAxe,
        ItemKind::GoldenAxe,
        ItemKind::CopperAxe,
        ItemKind::StoneAxe,
        ItemKind::WoodenAxe,
    ];
    let mut i: usize = 0;
    while i < weapons.len()
        invariant
            hotbar_fits(*hotbar_slots, selected_hotbar_index),
            i <= weapons@.len(),
            weapons@ == seq![
                ItemKind::NetheriteSword,
                ItemKind::DiamondSword,
                ItemKind::IronSword,
                ItemKind::GoldenSword,
                ItemKind::StoneSword,
                ItemKind::WoodenSword,
                ItemKind::NetheriteAxe,
                ItemKind::DiamondAxe,
                ItemKind::IronAxe,
                ItemKind::GoldenAxe,
                ItemKind::CopperAxe,
                ItemKind::StoneAxe,
                ItemKind::WoodenAxe,
            ],
            forall|j: int| 0 <= j < i ==> !carries(slots@, #[trigger] weapons@[j]),
        decreases weapons@.len() - i,
    {
        if slots_carry(slots, weapons[i]) {
            assert(best_weapon(slots@) == Some(weapons@[i as int]));
            return plan_equip(
                slots,
                hotbar_slots,
                selected_hotbar_index,
                Wanted::Item(weapons[i]),
            );
        }
        i = i + 1;
    }
    assert(best_weapon(slots@) is None);
    None
}

impl Hand {
    /// `plan` is the way to get the best melee weapon into the hand.
    pub open spec fn is_best_weapon_plan(self, plan: Option<ToolEquipPlan>) -> bool {
        is_weapon_plan(self.slots@, self.hotbar, self.selected, plan)
    }

    /// How to get the best melee weapon into the hand.
    pub fn plan_weapon(&self) -> (plan: Option<ToolEquipPlan>)
        requires
            self.fits(),
        ensures
            self.is_best_weapon_plan(plan),
    {
        plan_weapon(self.slots.as_slice(), &self.hotbar, self.selected)
    }
}

/// The slots after a plan has been carried out: moving exchanges two slots.
pub open spec fn slots_after(
    slots: Seq<Option<ItemKind>>,
    plan: ToolEquipPlan,
) -> Seq<Option<ItemKind>> {
    match plan {
        ToolEquipPlan::SelectHotbar { .. } => slots,
        ToolEquipPlan::MoveToSelectedHotbar { source_slot, hotbar_slot, .. } => slots.update(
            source_slot as int,
            slots[hotbar_slot as int],
        ).update(hotbar_slot as int, slots[source_slot as int]),
    }
}

/// The selected hotbar slot after a plan has been carried out.
pub open spec fn selected_after(plan: ToolEquipPlan) -> u8 {
    match plan {
        ToolEquipPlan::SelectHotbar { hotbar_index } => hotbar_index,
        ToolEquipPlan::MoveToSelectedHotbar { hotbar_index, .. } => hotbar_index,
    }
}

/// What the bot does with its hand: it clicks a slot of the open inventory, or selects a slot of
/// the hotbar.
#[derive(Clone, Copy, Debug, PartialEq, Eq, Structural)]
pub enum HandStep {
    Click(usize),
    Select(u8),
}

/// The steps that carry out a plan. Moving takes up the item, exchanges it for what is in the
/// hotbar slot, and puts that down where the item was; it takes an open inventory.
pub open spec fn hand_steps(plan: ToolEquipPlan, opened: bool) -> Seq<HandStep> {
    match plan {
        ToolEquipPlan::SelectHotbar { hotbar_index } => seq![HandStep::Select(hotbar_index)],
        ToolEquipPlan::MoveToSelectedHotbar { source_slot, hotbar_slot, hotbar_index } => if opened {
            seq![
                HandStep::Click(source_slot),
                HandStep::Click(hotbar_slot),
                HandStep::Click(source_slot),
                HandStep::Select(hotbar_index),
            ]
        } else {
            seq![]
        },
    }
}

/// Whether a plan takes an open inventory.
pub fn needs_inventory(plan: ToolEquipPlan) -> (r: bool)
    ensures
        r == (plan is MoveToSelectedHotbar),
{
    match plan {
        ToolEquipPlan::SelectHotbar { .. } => false,
        ToolEquipPlan::MoveToSelectedHotbar { .. } => true,
    }
}

/// The steps that carry out a plan.
pub fn equip_steps(plan: ToolEquipPlan, opened: bool) -> (steps: Vec<HandStep>)
    ensures
        steps@ == hand_steps(plan, opened),
{
    let mut steps: Vec<HandStep> = Vec::new();
    match plan {
        ToolEquipPlan::SelectHotbar { hotbar_index } => {
            steps.push(HandStep::Select(hotbar_index));
        },
        ToolEquipPlan::MoveToSelectedHotbar { source_slot, hotbar_slot, hotbar_index } => {
            if opened {
                steps.push(HandStep::Click(source_slot));
                steps.push(HandStep::Click(hotbar_slot));
                steps.push(HandStep::Click(source_slot));
                steps.push(HandStep::Select(hotbar_index));
            }
        },
    }
    assert(steps@ =~= hand_steps(plan, opened));
    steps
}

/// The slots, what the pointer carries and the selected slot, after some steps from the first on.
/// A click exchanges what the slot and the pointer hold.
pub open spec fn after_steps(
    slots: Seq<Option<ItemKind>>,
    carried: Option<ItemKind>,
    selected: u8,
    steps: Seq<HandStep>,
) -> (Seq<Option<ItemKind>>, Option<ItemKind>, u8)
    decreases steps.len(),
{
    if steps.len() == 0 {
        (slots, carried, selected)
    } else {
        match steps[0] {
            HandStep::Click(i) => after_steps(
                slots.update(i as int, carried),
                slots[i as int],
                selected,
                steps.skip(1),
            ),
            HandStep::Select(index) => after_steps(slots, carried, index, steps.skip(1)),
        }
    }
}

/// The steps of a plan carry it out: from an empty pointer they leave the slots as the plan means
/// them to be, the right slot selected, and the pointer empty again. Where the inventory could not
/// be opened for a move, they change nothing. The two slots that are exchanged never hold the same
/// kind of item, so that nothing is piled together.
pub proof fn steps_carry_out_the_plan(
    slots: Seq<Option<ItemKind>>,
    hotbar: RangeInclusive<usize>,
    selected: u8,
    wanted: Wanted,
    plan: ToolEquipPlan,
    opened: bool,
)
    requires
        selected_slot(hotbar, selected) < slots.len(),
        is_equip_plan(slots, hotbar, selected, wanted, Some(plan)),
    ensures
        after_steps(slots, None, selected, hand_steps(plan, opened)) == if plan is SelectHotbar
            || opened {
            (slots_after(slots, plan), None::<ItemKind>, selected_after(plan))
        } else {
            (slots, None::<ItemKind>, selected)
        },
        plan matches ToolEquipPlan::MoveToSelectedHotbar { source_slot, hotbar_slot, .. } ==> {
            &&& source_slot != hotbar_slot
            &&& slots[source_slot as int] != slots[hotbar_slot as int]
        },
{
    let steps = hand_steps(plan, opened);
    reveal_with_fuel(after_steps, 5);
    match plan {
        ToolEquipPlan::SelectHotbar { .. } => {
            assert(steps.skip(1) =~= seq![]);
        },
        ToolEquipPlan::MoveToSelectedHotbar { source_slot, hotbar_slot, .. } => {
            if opened {
                let s = source_slot as int;
                let h = hotbar_slot as int;
                assert(steps.skip(1).skip(1).skip(1).skip(1) =~= seq![]);
                assert(slots.update(s, None).update(h, slots[s]).update(s, slots[h])
                    =~= slots_after(slots, plan));
            }
        },
    }
}

/// A plan is the only one for its slots.
pub proof fn equip_plan_is_unique(
    slots: Seq<Option<ItemKind>>,
    hotbar: RangeInclusive<usize>,
    selected: u8,
    wanted: Wanted,
    a: Option<ToolEquipPlan>,
    b: Option<ToolEquipPlan>,
)
    requires
        is_equip_plan(slots, hotbar, selected, wanted, a),
        is_equip_plan(slots, hotbar, selected, wanted, b),
    ensures
        a == b,
{
}

/// Carrying out a plan puts what is wanted into the hand, and nothing is left to plan after it.
pub proof fn carried_out_plan_equips(
    slots: Seq<Option<ItemKind>>,
    hotbar: RangeInclusive<usize>,
    selected: u8,
    wanted: Wanted,
    plan: ToolEquipPlan,
    again: Option<ToolEquipPlan>,
)
    requires
        hotbar@.end - hotbar@.start < 256,
        selected_slot(hotbar, selected) < slots.len(),
        is_equip_plan(slots, hotbar, selected, wanted, Some(plan)),
        is_equip_plan(slots_after(slots, plan), hotbar, selected_after(plan), wanted, again),
    ensures
        holds(
            slots_after(slots, plan),
            selected_slot(hotbar, selected_after(plan)),
            wanted,
        ),
        again is None,
{
    assert(holds(slots_after(slots, plan), selected_slot(hotbar, selected_after(plan)), wanted));
}

/// Carrying out a plan loses nothing: the slots hold the same items as before.
pub proof fn carried_out_plan_keeps_items(
    slots: Seq<Option<ItemKind>>,
    hotbar: RangeInclusive<usize>,
    selected: u8,
    wanted: Wanted,
    plan: ToolEquipPlan,
)
    requires
        selected_slot(hotbar, selected) < slots.len(),
        is_equip_plan(slots, hotbar, selected, wanted, Some(plan)),
    ensures
        slots_after(slots, plan).to_multiset() == slots.to_multiset(),
{
    match plan {
        ToolEquipPlan::SelectHotbar { .. } => {},
        ToolEquipPlan::MoveToSelectedHotbar { source_slot, hotbar_slot, .. } => {
            let s = source_slot as int;
            let h = hotbar_slot as int;
            let once = slots.update(s, slots[h]);
            vstd::seq_lib::to_multiset_update(slots, s, slots[h]);
            vstd::seq_lib::to_multiset_update(once, h, slots[s]);
            slots.to_multiset_ensures();
            once.to_multiset_ensures();
            assert(slots.to_multiset().contains(slots[s]));
            assert(slots_after(slots, plan).to_multiset() =~= slots.to_multiset());
        },
    }
}

/// How good an item is as a weapon: any sword is better than any axe, and among swords and among
/// axes it counts what they are made of. An item that is no weapon has no rank above zero.
pub open spec fn weapon_rank(item: ItemKind) -> int {
    match item {
        ItemKind::NetheriteSword => 13,
        ItemKind::DiamondSword => 12,
        ItemKind::IronSword => 11,
        ItemKind::GoldenSword => 10,
        ItemKind::StoneSword => 9,
        ItemKind::WoodenSword => 8,
        ItemKind::NetheriteAxe => 7,
        ItemKind::DiamondAxe => 6,
        ItemKind::IronAxe => 5,
        ItemKind::GoldenAxe => 4,
        ItemKind::CopperAxe => 3,
        ItemKind::StoneAxe => 2,
        ItemKind::WoodenAxe => 1,
        _ => 0,
    }
}

/// The best weapon is among the slots and no item there is a better one; there is none only where
/// no item is a weapon.
pub proof fn no_weapon_is_better(slots: Seq<Option<ItemKind>>, i: int, item: ItemKind)
    requires
        0 <= i < slots.len(),
        slots[i] == Some(item),
    ensures
        match best_weapon(slots) {
            None => weapon_rank(item) == 0,
            Some(best) => {
                &&& carries(slots, best)
                &&& 0 < weapon_rank(best)
                &&& weapon_rank(item) <= weapon_rank(best)
            },
        },
{
    assert(holds(slots, i, Wanted::Item(item)));
    assert(carries(slots, item));
}

/// Ranks tell weapons apart: swords from axes, and both from what is neither.
pub proof fn ranks_tell_weapons_apart(item: ItemKind)
    ensures
        is_sword(item) <==> weapon_rank(item) > 7,
        is_axe(item) <==> 0 < weapon_rank(item) <= 7,
{
}

/// After the plan for combat has been carried out, no item among the slots is a better weapon than
/// the one in the hand.
pub proof fn combat_takes_the_best_weapon(
    slots: Seq<Option<ItemKind>>,
    hotbar: RangeInclusive<usize>,
    selected: u8,
    plan: ToolEquipPlan,
    i: int,
    item: ItemKind,
)
    requires
        hotbar@.end - hotbar@.start < 256,
        selected_slot(hotbar, selected) < slots.len(),
        0 <= i < slots.len(),
        slots[i] == Some(item),
        is_weapon_plan(slots, hotbar, selected, Some(plan)),
    ensures
        slots_after(slots, plan)[selected_slot(hotbar, selected_after(plan))] matches Some(held)
            && weapon_rank(item) <= weapon_rank(held) && (is_sword(item) ==> is_sword(held)),
{
    no_weapon_is_better(slots, i, item);
    assert(holds(
        slots_after(slots, plan),
        selected_slot(hotbar, selected_after(plan)),
        Wanted::Item(best_weapon(slots)->0),
    ));
}

/// What became of the search for a tool. A tool that was found is given by its identifier.
#[derive(Clone, Debug, PartialEq, Eq)]
pub enum ToolSearchOutcome {
    AlreadySelected,
    FoundInHotbar(String),
    FoundInInventory(String),
    Missing,
}

/// The name of an item: its identifier without the `minecraft:` in front.
pub fn item_kind_name(identifier: &str) -> (name: String)
    ensures
        name@ == without_prefixes(identifier@, "minecraft:"@),
{
    proof {
        reveal_strlit("minecraft:");
    }
    strip_text_prefixes(identifier, "minecraft:").to_owned()
}

/// The message that the search for a tool has begun.
pub fn log_collect_tool_search_attempt(target_name: &str, preferred_tool: PreferredTool) -> (message:
    String)
    ensures
        message@ == "[collect] "@ + target_name@ + " prefers "@ + tool_name(preferred_tool)
            + ", checking inventory"@,
{
    "[collect] ".to_owned().concat(target_name).concat(" prefers ").concat(
        preferred_tool_name(preferred_tool),
    ).concat(", checking inventory")
}

/// What is said of the outcome of a search for a tool.
pub open spec fn tool_search_message(
    target_name: Seq<char>,
    preferred_tool: PreferredTool,
    outcome: ToolSearchOutcome,
) -> Seq<char> {
    match outcome {
        ToolSearchOutcome::AlreadySelected => "[collect] already holding an "@ + tool_name(
            preferred_tool,
        ) + " for "@ + target_name,
        ToolSearchOutcome::FoundInHotbar(identifier) => "[collect] equipped "@ + without_prefixes(
            identifier@,
            "minecraft:"@,
        ) + " from hotbar for "@ + target_name,
        ToolSearchOutcome::FoundInInventory(identifier) => "[collect] moved "@ + without_prefixes(
            identifier@,
            "minecraft:"@,
        ) + " into the hotbar for "@ + target_name,
        ToolSearchOutcome::Missing => "[collect] no "@ + tool_name(preferred_tool) + " found for "@
            + target_name + ", mining without one"@,
    }
}

/// The message on the outcome of a search for a tool.
pub fn log_collect_tool_search_outcome(
    target_name: &str,
    preferred_tool: PreferredTool,
    outcome: ToolSearchOutcome,
) -> (message: String)
    ensures
        message@ == tool_search_message(target_name@, preferred_tool, outcome),
{
    let tool = preferred_tool_name(preferred_tool);
    match outcome {
        ToolSearchOutcome::AlreadySelected => "[collect] already holding an ".to_owned().concat(
            tool,
        ).concat(" for ").concat(target_name),
        ToolSearchOutcome::FoundInHotbar(identifier) => "[collect] equipped ".to_owned().concat(
            item_kind_name(identifier.as_str()).as_str(),
        ).concat(" from hotbar for ").concat(target_name),
        ToolSearchOutcome::FoundInInventory(identifier) => "[collect] moved ".to_owned().concat(
            item_kind_name(identifier.as_str()).as_str(),
        ).concat(" into the hotbar for ").concat(target_name),
        ToolSearchOutcome::Missing => "[collect] no ".to_owned().concat(tool).concat(
            " found for ",
        ).concat(target_name).concat(", mining without one"),
    }
}

/// What a plan comes to, slot by slot. `item` is what slot `i` holds and is wanted.
/// Nothing is done where the hand holds it already, and only there.
/// A hotbar slot is selected where one holds it, and it is the first of the hotbar that does.
/// Else it is moved from the first slot that holds it into the slot that is in the hand.
pub proof fn what_is_wanted_is_got(
    slots: Seq<Option<ItemKind>>,
    hotbar: RangeInclusive<usize>,
    selected: u8,
    wanted: Wanted,
    plan: Option<ToolEquipPlan>,
    i: int,
)
    requires
        is_equip_plan(slots, hotbar, selected, wanted, plan),
        hotbar@.end - hotbar@.start < 256,
        0 <= i < slots.len(),
        slots[i] matches Some(item) && match wanted {
            Wanted::Tool(tool) => is_tool(item, tool),
            Wanted::Item(kind) => item == kind,
        },
    ensures
        i == hotbar@.start + selected ==> plan is None,
        match plan {
            None => {
                let hand = hotbar@.start + selected;
                &&& 0 <= hand < slots.len()
                &&& slots[hand] matches Some(item) && match wanted {
                    Wanted::Tool(tool) => is_tool(item, tool),
                    Wanted::Item(kind) => item == kind,
                }
            },
            Some(ToolEquipPlan::SelectHotbar { hotbar_index }) => {
                let slot = hotbar@.start + hotbar_index;
                &&& slot <= hotbar@.end
                &&& slot < slots.len()
                &&& slots[slot] matches Some(item) && match wanted {
                    Wanted::Tool(tool) => is_tool(item, tool),
                    Wanted::Item(kind) => item == kind,
                }
                &&& hotbar@.start <= i <= hotbar@.end ==> slot <= i
            },
            Some(
                ToolEquipPlan::MoveToSelectedHotbar { source_slot, hotbar_slot, hotbar_index },
            ) => {
                &&& source_slot <= i
                &&& !(hotbar@.start <= i <= hotbar@.end)
                &&& slots[source_slot as int] matches Some(item) && match wanted {
                    Wanted::Tool(tool) => is_tool(item, tool),
                    Wanted::Item(kind) => item == kind,
                }
                &&& hotbar_slot == hotbar@.start + selected
                &&& hotbar_index == selected
            },
        },
{
    assert(holds(slots, i, wanted));
}

/// Where no slot holds what is wanted there is nothing to do.
pub proof fn what_is_not_there_is_not_got(
    slots: Seq<Option<ItemKind>>,
    hotbar: RangeInclusive<usize>,
    selected: u8,
    wanted: Wanted,
    plan: Option<ToolEquipPlan>,
)
    requires
        is_equip_plan(slots, hotbar, selected, wanted, plan),
        forall|i: int|
            0 <= i < slots.len() ==> !((#[trigger] slots[i]) matches Some(item) && match wanted {
                Wanted::Tool(tool) => is_tool(item, tool),
                Wanted::Item(kind) => item == kind,
            }),
    ensures
        plan is None,
{
    assert forall|i: int| !#[trigger] holds(slots, i, wanted) by {
        if 0 <= i < slots.len() {
            let _ = slots[i];
        }
    }
}

/// The weapons from the best to the worst: swords of netherite, diamond, iron, gold, stone and
/// wood, then axes in the same order, those of copper between gold and stone. The one that is
/// taken up is the first of them that some slot holds; without any of them there is no plan.
pub proof fn weapons_are_taken_in_order(
    slots: Seq<Option<ItemKind>>,
    hotbar: RangeInclusive<usize>,
    selected: u8,
    plan: Option<ToolEquipPlan>,
    k: int,
)
    requires
        is_weapon_plan(slots, hotbar, selected, plan),
        0 <= k < 13,
    ensures
        ({
            let weapons = seq![
                ItemKind::NetheriteSword,
                ItemKind::DiamondSword,
                ItemKind::IronSword,
                ItemKind::GoldenSword,
                ItemKind::StoneSword,
                ItemKind::WoodenSword,
                ItemKind::NetheriteAxe,
                ItemKind::DiamondAxe,
                ItemKind::IronAxe,
                ItemKind::GoldenAxe,
                ItemKind::CopperAxe,
                ItemKind::StoneAxe,
                ItemKind::WoodenAxe,
            ];
            &&& slots.contains(Some(weapons[k])) && (forall|j: int|
                0 <= j < k ==> !slots.contains(Some(#[trigger] weapons[j]))) ==> is_equip_plan(
                slots,
                hotbar,
                selected,
                Wanted::Item(weapons[k]),
                plan,
            )
            &&& (forall|j: int| 0 <= j < 13 ==> !slots.contains(Some(#[trigger] weapons[j])))
                ==> plan is None
        }),
{
    assert forall|kind: ItemKind| #[trigger] carries(slots, kind) <==> slots.contains(
        Some(kind),
    ) by {
        if carries(slots, kind) {
            let i = choose|i: int| #[trigger] holds(slots, i, Wanted::Item(kind));
            assert(slots[i] == Some(kind));
        }
        if slots.contains(Some(kind)) {
            let i = choose|i: int| 0 <= i < slots.len() && slots[i] == Some(kind);
            assert(holds(slots, i, Wanted::Item(kind)));
        }
    }
    let weapons = seq![
        ItemKind::NetheriteSword,
        ItemKind::DiamondSword,
        ItemKind::IronSword,
        ItemKind::GoldenSword,
        ItemKind::StoneSword,
        ItemKind::WoodenSword,
        ItemKind::NetheriteAxe,
        ItemKind::DiamondAxe,
        ItemKind::IronAxe,
        ItemKind::GoldenAxe,
        ItemKind::CopperAxe,
        ItemKind::StoneAxe,
        ItemKind::WoodenAxe,
    ];
    let best = best_weapon(slots);
    if let Some(b) = best {
        assert(carries(slots, b));
        assert(exists|j: int| 0 <= j < 13 && #[trigger] weapons[j] == b) by {
            if b == weapons[0] || b == weapons[1] || b == weapons[2] || b == weapons[3] || b
                == weapons[4] || b == weapons[5] || b == weapons[6] || b == weapons[7] || b
                == weapons[8] || b == weapons[9] || b == weapons[10] || b == weapons[11] || b
                == weapons[12] {
            }
        }
        if slots.contains(Some(weapons[k])) && (forall|j: int|
            0 <= j < k ==> !slots.contains(Some(#[trigger] weapons[j]))) {
            let m = choose|m: int| 0 <= m < 13 && #[trigger] weapons[m] == b;
            assert(m >= k);
            assert(carries(slots, weapons[k]));
            assert(best == Some(weapons[k]));
        }
    } else {
        assert(!carries(slots, weapons[k]));
    }
}

/// A tool has come into the hand where its slot was selected, and where it was moved and the
/// inventory could be opened for that.
pub proof fn moves_take_an_open_inventory(
    source_slot: usize,
    hotbar_slot: usize,
    hotbar_index: u8,
    opened: bool,
)
    ensures
        !got_equipped(None, opened),
        got_equipped(Some(ToolEquipPlan::SelectHotbar { hotbar_index }), opened),
        got_equipped(
            Some(
                ToolEquipPlan::MoveToSelectedHotbar { source_slot, hotbar_slot, hotbar_index },
            ),
            opened,
        ) <==> opened,
{
}

/// What is said of the search for a tool gives what was found, without the game's namespace, where
/// it was found and what it is for; where nothing was found it names the tool.
pub proof fn searches_are_told_with_what_they_found(
    target_name: Seq<char>,
    tool: PreferredTool,
    name: Seq<char>,
    found: String,
)
    requires
        found@ == "minecraft:"@ + name,
        !("minecraft:"@).is_prefix_of(name),
    ensures
        tool_search_message(target_name, tool, ToolSearchOutcome::AlreadySelected)
            == "[collect] already holding an "@ + tool_name(tool) + " for "@ + target_name,
        tool_search_message(target_name, tool, ToolSearchOutcome::FoundInHotbar(found))
            == "[collect] equipped "@ + name + " from hotbar for "@ + target_name,
        tool_search_message(target_name, tool, ToolSearchOutcome::FoundInInventory(found))
            == "[collect] moved "@ + name + " into the hotbar for "@ + target_name,
        tool_search_message(target_name, tool, ToolSearchOutcome::Missing) == "[collect] no "@
            + tool_name(tool) + " found for "@ + target_name + ", mining without one"@,
        tool_name(PreferredTool::Axe) == "axe"@,
        tool_name(PreferredTool::Pickaxe) == "pickaxe"@,
        tool_name(PreferredTool::Sword) == "sword"@,
{
    reveal_strlit("minecraft:");
    prefixes_come_off("minecraft:"@, name);
}

} // verus!
