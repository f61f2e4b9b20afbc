//! Building: from the search of the chests to the last block.

use crate::actions::{collect_pathfinder_opts, one_try, Action, Place};
use crate::collect::{
    block_to_mine, checked_inventory_count, collect_actions, collect_tick_inner, collected_so_far,
    current_inventory_count, inventory_count, is_collect_outcome, is_collect_tool_plan,
    is_told_collect_step, mining, mining_actions, mining_heights, reports_distances, CollectFacts,
    CollectJob, CollectTick, CollectTickOutcome, MineStep,
};
use crate::counts::{
    add_contents, added_contents_add_up, amount_in_slots, count_in, count_in_stacks,
    matching_total, stack_amounts, with_slots, ItemCounts, ItemStack, NamedStack,
};
use crate::equip::{is_equip_plan, Hand, ToolEquipPlan, Wanted};
use crate::geometry::{
    distance_is_by_pythagoras, distance_is_symmetric, distance_sq, wide_distance_sq, BlockPos,
};
use crate::kinds::{BlockKind, ItemKind};
use crate::measure::Measure;
use crate::mode::{exhausted_message, report_exhausted, BotMode};
use crate::stance::{
    best_stance, best_stance_is_safe_and_nearest, best_support, best_support_is_solid_and_touches,
    between_centers, is_beside, is_one_step_off, is_safe_stance, is_told_stance, is_told_support,
    must_navigate, needs_navigation_for_placement, offset, placement_interaction_point,
    solid_supports_are_found, stance_candidate, stance_search_fits, stance_search_in_range,
    support_search_fits, support_search_in_range, supports_are_solid,
};
use crate::structure::{
    compute_missing, is_sorted_by_y, item_views, missing_of, nothing_missing_iff_stocked,
    sort_blocks_by_y, BlockEntry, Structure,
};
use crate::targets::{
    found_in_turn, reports_found, was_found, was_listed, CollectPhase, CollectTarget,
};
use crate::text::{
    append_signed, prefixes_come_off, signed_decimal, strip_namespace, without_prefix,
};
use crate::world::{
    choose_world_safe_action_stance, choose_world_support_block, passable_in, reports_blocks,
    told_by,
};
use std::collections::VecDeque;
use vstd::prelude::*;
use vstd::string::*;

verus! {

/// A structure under construction. The number tells one job from another.
#[derive(Clone, Debug)]
pub struct BuildJob {
    pub id: u64,
    pub description: String,
    pub origin: BlockPos,
    pub phase: BuildPhase,
}

/// What a bot that builds is doing.
#[derive(Clone, Debug)]
pub enum BuildPhase {
    /// Counting what the chests hold.
    ScanningChests { chests: Vec<BlockPos>, spawned: bool },
    /// Waiting for the structure.
    WaitingForLlm { inventory: ItemCounts, spawned: bool },
    /// Collecting what is missing.
    CollectingResources {
        structure: Structure,
        missing: VecDeque<(String, u32)>,
        active_job: Option<CollectJob>,
    },
    /// Placing one block after the other.
    PlacingBlocks {
        structure: Structure,
        next_index: usize,
        placement_attempts: u8,
        waiting_for_confirmation: bool,
    },
}

/// What the bot knows as a step of building begins.
#[derive(Debug)]
pub struct BuildFacts {
    /// What the scan of the chests brought, once it is done.
    pub scanned: Option<ItemCounts>,
    /// What the bot carries.
    pub own_slots: Vec<Option<NamedStack>>,
    /// The answer to the request for a structure, once it has come.
    pub reply: Option<Result<Structure, String>>,
    /// The block that the name from `lookup_name` stands for.
    pub block_kind: Option<BlockKind>,
    /// The item that the name from `lookup_name` stands for.
    pub item_kind: Option<ItemKind>,
    pub collect: CollectFacts,
    pub is_mining: bool,
}

/// What is to be done besides, and takes its time.
#[derive(Debug)]
pub enum Errand {
    Nothing,
    /// Go to each chest and count what it holds.
    ScanChests(Vec<BlockPos>),
    /// Ask for a structure.
    AskLlm { description: String, inventory: ItemCounts },
    /// Mine a block.
    Mine(MineStep),
}

/// The mode after one step of building, and what the bot does and says.
#[derive(Debug)]
pub struct BuildTick {
    pub mode: BotMode,
    pub actions: Vec<Action>,
    pub chat: Option<String>,
    pub errand: Errand,
}

/// A step of building that is over, or one that goes on with `place_block` once the block to place
/// is in the hand.
#[derive(Debug)]
pub enum BuildStep {
    Tick(BuildTick),
    Place { job: BuildJob, plan: Option<ToolEquipPlan> },
}

/// Both are the same construction, in whatever phase.
pub open spec fn same_work(a: BuildJob, b: BuildJob) -> bool {
    a.id == b.id && a.description == b.description && a.origin == b.origin
}

/// The construction goes on in a phase of which `phase` holds, and the bot says nothing.
pub open spec fn goes_on(
    job: BuildJob,
    tick: BuildTick,
    actions: Seq<Action>,
    phase: spec_fn(BuildPhase) -> bool,
) -> bool {
    &&& tick.mode matches BotMode::Building(next) && same_work(job, next) && phase(next.phase)
    &&& tick.actions@ == actions
    &&& tick.chat is None
}

/// The construction is over: the bot stops, is idle, and says so.
pub open spec fn is_over(tick: BuildTick, message: Seq<char>) -> bool {
    &&& tick.mode is Idle
    &&& tick.actions@ == seq![Action::StopPathfinding]
    &&& tick.chat matches Some(text) && text@ == message
}

/// A block of a structure at its place in the world.
pub open spec fn place_of(origin: BlockPos, entry: BlockEntry) -> BlockPos {
    BlockPos {
        x: (origin.x + entry.x) as i32,
        y: (origin.y + entry.y) as i32,
        z: (origin.z + entry.z) as i32,
    }
}

/// The place of a block has coordinates that an `i32` holds.
pub open spec fn place_fits(origin: BlockPos, entry: BlockEntry) -> bool {
    &&& i32::MIN <= origin.x + entry.x <= i32::MAX
    &&& i32::MIN <= origin.y + entry.y <= i32::MAX
    &&& i32::MIN <= origin.z + entry.z <= i32::MAX
}

/// The heights at which a bot stands to place a block, against the block's own.
pub open spec fn placing_heights() -> Seq<i32> {
    seq![0i32, -1i32]
}

/// A message on a block at its place.
pub open spec fn block_message(
    before: Seq<char>,
    block: Seq<char>,
    at: BlockPos,
    after: Seq<char>,
) -> Seq<char> {
    before + block + " at "@ + signed_decimal(at.x as int) + ","@ + signed_decimal(at.y as int)
        + ","@ + signed_decimal(at.z as int) + after
}

fn message_on_block(before: &str, block: &str, at: BlockPos, after: &str) -> (message: String)
    ensures
        message@ == block_message(before@, block@, at, after@),
{
    let mut message = before.to_owned();
    message.append(block);
    message.append(" at ");
    append_signed(&mut message, at.x as i64);
    message.append(",");
    append_signed(&mut message, at.y as i64);
    message.append(",");
    append_signed(&mut message, at.z as i64);
    message.append(after);
    message
}

/// What the bot says when a block could not be placed.
pub open spec fn placement_failure(block: Seq<char>, at: BlockPos) -> Seq<char> {
    block_message("Build failed: couldn't place "@, block, at, " after 3 attempts. Aborting."@)
}

/// What the bot says when there is nothing to place a block against.
pub open spec fn support_failure(block: Seq<char>, at: BlockPos) -> Seq<char> {
    block_message("Build failed: no support block available for "@, block, at, "."@)
}

/// Ends a construction.
fn give_up(message: String) -> (tick: BuildTick)
    ensures
        is_over(tick, message@),
        tick.errand is Nothing,
{
    let actions = vec![Action::StopPathfinding];
    assert(actions@ =~= seq![Action::StopPathfinding]);
    BuildTick { mode: BotMode::Idle, actions, chat: Some(message), errand: Errand::Nothing }
}

/// The name to look up before a step: of the next material, where the bot is about to begin to
/// collect it, or of the next block to place.
pub open spec fn name_to_look_up(job: BuildJob) -> Option<Seq<char>> {
    match job.phase {
        BuildPhase::CollectingResources { missing, active_job: None, .. } => if missing@.len() > 0 {
            Some(without_prefix(missing@[0].0@, "minecraft:"@))
        } else {
            None
        },
        BuildPhase::PlacingBlocks { structure, next_index, .. } => if next_index
            < structure.blocks@.len() {
            Some(without_prefix(structure.blocks@[next_index as int].block@, "minecraft:"@))
        } else {
            None
        },
        _ => None,
    }
}

/// The name to look up before a step.
pub fn lookup_name(job: &BuildJob) -> (name: Option<&str>)
    ensures
        name is Some <==> name_to_look_up(*job) is Some,
        name matches Some(n) ==> Some(n@) == name_to_look_up(*job),
{
    match &job.phase {
        BuildPhase::CollectingResources { missing, active_job, .. } => {
            if active_job.is_none() && missing.len() > 0 {
                Some(strip_namespace(missing[0].0.as_str()))
            } else {
                None
            }
        },
        BuildPhase::PlacingBlocks { structure, next_index, .. } => {
            if *next_index < structure.blocks.len() {
                Some(strip_namespace(structure.blocks[*next_index].block.as_str()))
            } else {
                None
            }
        },
        _ => None,
    }
}

/// A copy of a list of places.
fn copy_places(places: &Vec<BlockPos>) -> (copy: Vec<BlockPos>)
    ensures
        copy@ == places@,
{
    let mut copy: Vec<BlockPos> = Vec::new();
    let mut i: usize = 0;
    while i < places.len()
        invariant
            i <= places@.len(),
            copy@ == places@.take(i as int),
        decreases places@.len() - i,
    {
        copy.push(places[i]);
        i = i + 1;
    }
    assert(copy@ =~= places@);
    copy
}

/// One step of the scan: it is begun once, and when its result is there, what the bot carries is
/// added to it.
pub open spec fn is_scan_step(
    job: BuildJob,
    chests: Vec<BlockPos>,
    spawned: bool,
    facts: BuildFacts,
    tick: BuildTick,
) -> bool {
    &&& goes_on(
        job,
        tick,
        seq![],
        |phase: BuildPhase|
            match facts.scanned {
                None => phase == (BuildPhase::ScanningChests { chests, spawned: true }),
                Some(counts) => phase matches BuildPhase::WaitingForLlm {
                    inventory,
                    spawned: false,
                } && with_slots(counts@, facts.own_slots@) == Some(inventory@),
            },
    )
    &&& if spawned {
        tick.errand is Nothing
    } else {
        tick.errand matches Errand::ScanChests(list) && list@ == chests@
    }
}

/// One step of the wait for a structure: it is asked for once. When it has come, the bot places
/// its blocks from the lowest up, or collects what is missing first.
pub open spec fn is_llm_step(
    job: BuildJob,
    inventory: ItemCounts,
    spawned: bool,
    facts: BuildFacts,
    tick: BuildTick,
) -> bool {
    &&& match facts.reply {
        None => goes_on(
            job,
            tick,
            seq![],
            |phase: BuildPhase|
                phase == (BuildPhase::WaitingForLlm { inventory, spawned: true }),
        ),
        Some(Ok(structure)) => {
            let lacking = missing_of(structure.materials.items(), inventory@);
            goes_on(
                job,
                tick,
                seq![],
                |phase: BuildPhase|
                    if lacking.len() == 0 {
                        is_placing_start(structure, phase)
                    } else {
                        phase matches BuildPhase::CollectingResources {
                            structure: s,
                            missing,
                            active_job: None,
                        } && s == structure && item_views(missing@) == lacking
                    },
            )
        },
        Some(Err(error)) => is_over(tick, "Build failed: LLM error — "@ + error@ + "."@),
    }
    &&& if spawned {
        tick.errand is Nothing
    } else {
        tick.errand matches Errand::AskLlm { description, inventory: known } && description
            == job.description && known.items() == inventory.items()
    }
}

/// The start of placing: all blocks of the structure from the lowest up, none placed yet.
pub open spec fn is_placing_start(structure: Structure, phase: BuildPhase) -> bool {
    phase matches BuildPhase::PlacingBlocks {
        structure: sorted,
        next_index: 0,
        placement_attempts: 0,
        waiting_for_confirmation: false,
    } && is_sorted_by_y(structure.blocks@, sorted.blocks@) && sorted.materials
        == structure.materials
}

fn start_placing(structure: Structure) -> (phase: BuildPhase)
    ensures
        is_placing_start(structure, phase),
{
    let Structure { blocks, materials } = structure;
    let mut blocks = blocks;
    sort_blocks_by_y(blocks.as_mut_slice());
    BuildPhase::PlacingBlocks {
        structure: Structure { blocks, materials },
        next_index: 0,
        placement_attempts: 0,
        waiting_for_confirmation: false,
    }
}

/// `job` collects one missing material: a job for just this block and item, which counts from
/// what the bot carries, and whose way back leads to the origin.
pub open spec fn is_material_job(
    name: Seq<char>,
    count: u32,
    block: BlockKind,
    item: ItemKind,
    origin: BlockPos,
    inventory: Seq<ItemStack>,
    job: CollectJob,
) -> bool {
    &&& job.target.is(name, seq![block], seq![item], false)
    &&& job.requested_count == count
    &&& job.baseline_count == matching_total(seq![item], stack_amounts(inventory))
    &&& job.phase == CollectPhase::Searching
    &&& job.active_block_target is None
    &&& job.active_stance_target is None
    &&& job.last_mined_block is None
    &&& job.return_anchor == origin
}

/// What is still missing, and what is being collected, once the next material has been taken up.
/// A material that is no block or no item is passed over.
pub open spec fn is_taken_up(
    missing: Seq<(String, u32)>,
    active_job: Option<CollectJob>,
    block: Option<BlockKind>,
    item: Option<ItemKind>,
    origin: BlockPos,
    inventory: Seq<ItemStack>,
    still_missing: Seq<(String, u32)>,
    active: Option<CollectJob>,
) -> bool {
    if active_job is None && missing.len() > 0 {
        &&& still_missing == missing.skip(1)
        &&& match (block, item) {
            (Some(b), Some(i)) => active matches Some(job) && is_material_job(
                without_prefix(missing[0].0@, "minecraft:"@),
                missing[0].1,
                b,
                i,
                origin,
                inventory,
                job,
            ),
            _ => active is None,
        }
    } else {
        still_missing == missing && active == active_job
    }
}

/// Takes up the next material where none is being collected.
fn take_up_material(
    missing: VecDeque<(String, u32)>,
    active_job: Option<CollectJob>,
    block: Option<BlockKind>,
    item: Option<ItemKind>,
    origin: BlockPos,
    inventory: &Vec<ItemStack>,
) -> (taken: (VecDeque<(String, u32)>, Option<CollectJob>))
    requires
        active_job is None && missing@.len() > 0 ==> (item matches Some(i) ==> matching_total(
            seq![i],
            stack_amounts(inventory@),
        ) <= u32::MAX),
    ensures
        is_taken_up(
            missing@,
            active_job,
            block,
            item,
            origin,
            inventory@,
            taken.0@,
            taken.1,
        ),
{
    if active_job.is_some() || missing.len() == 0 {
        return (missing, active_job);
    }
    let mut missing = missing;
    match missing.pop_front() {
        None => (missing, None),
        Some((item_id, count)) => {
            let active = match (block, item) {
                (Some(b), Some(i)) => {
                    let target = CollectTarget::exact(strip_namespace(item_id.as_str()), b, i);
                    let baseline_count: u32 = current_inventory_count(&target, inventory);
                    Some(CollectJob { baseline_count, ..CollectJob::new(target, count, origin) })
                },
                _ => None,
            };
            (missing, active)
        },
    }
}

/// The material job after one step of it; none where the step completed it.
pub open spec fn active_after(outcome: CollectTickOutcome) -> Option<CollectJob> {
    match outcome {
        CollectTickOutcome::Continue(job) => Some(job),
        _ => None,
    }
}

/// Once nothing is missing and nothing is being collected, placing starts; else collecting goes
/// on.
pub open spec fn is_gathering_phase(
    structure: Structure,
    missing: Seq<(String, u32)>,
    active: Option<CollectJob>,
    phase: BuildPhase,
) -> bool {
    if missing.len() == 0 && active is None {
        is_placing_start(structure, phase)
    } else {
        phase matches BuildPhase::CollectingResources { structure: s, missing: m, active_job: a }
            && s == structure && m@ == missing && a == active
    }
}

/// One step of collecting what is missing: the next material is taken up where none is being
/// collected, and the collection of it goes one step further. Where there is no more of a
/// material to be found, the construction is over.
pub open spec fn is_gathering_step(
    job: BuildJob,
    structure: Structure,
    missing: Seq<(String, u32)>,
    active_job: Option<CollectJob>,
    facts: BuildFacts,
    world: spec_fn(BlockPos) -> Option<BlockKind>,
    found: spec_fn(BlockKind) -> Seq<BlockPos>,
    distances: spec_fn(BlockPos) -> Measure,
    tick: BuildTick,
) -> bool {
    exists|still_missing: Seq<(String, u32)>, active: Option<CollectJob>|
        #![trigger is_taken_up(missing, active_job, facts.block_kind, facts.item_kind, job.origin, facts.collect.inventory@, still_missing, active)]
        {
            &&& is_taken_up(
                missing,
                active_job,
                facts.block_kind,
                facts.item_kind,
                job.origin,
                facts.collect.inventory@,
                still_missing,
                active,
            )
            &&& match active {
                None => is_gathering_tick(job, structure, still_missing, None, seq![], None, tick),
                Some(collecting) => exists|outcome: CollectTickOutcome|
                    {
                        &&& #[trigger] is_collect_outcome(
                            collecting,
                            facts.collect,
                            world,
                            found,
                            distances,
                            outcome,
                        )
                        &&& match outcome {
                            CollectTickOutcome::ExhaustedTargets {
                                collected,
                                requested,
                                name,
                            } => tick.errand is Nothing && is_over(
                                tick,
                                exhausted_message(collected, requested, name@),
                            ),
                            _ => is_gathering_tick(
                                job,
                                structure,
                                still_missing,
                                active_after(outcome),
                                collect_actions(
                                    collecting,
                                    facts.collect,
                                    world,
                                    found,
                                    distances,
                                ),
                                block_to_mine(collecting, facts.collect, world),
                                tick,
                            ),
                        }
                        &&& tick.errand matches Errand::Mine(step) ==> is_collect_tool_plan(
                            collecting.target,
                            facts.collect.hand,
                            step.plan,
                        )
                    },
            }
        }
}

/// The end of a step of collecting what is missing.
pub open spec fn is_gathering_tick(
    job: BuildJob,
    structure: Structure,
    missing: Seq<(String, u32)>,
    active: Option<CollectJob>,
    actions: Seq<Action>,
    mine: Option<BlockPos>,
    tick: BuildTick,
) -> bool {
    &&& goes_on(
        job,
        tick,
        actions,
        |phase: BuildPhase| is_gathering_phase(structure, missing, active, phase),
    )
    &&& match mine {
        None => tick.errand is Nothing,
        Some(block) => tick.errand matches Errand::Mine(step) && step.block == block,
    }
}

/// The end of a step of collecting what is missing.
fn finish_gathering(
    job_id: u64,
    description: String,
    origin: BlockPos,
    structure: Structure,
    missing: VecDeque<(String, u32)>,
    active: Option<CollectJob>,
    actions: Vec<Action>,
    mine: Option<MineStep>,
) -> (tick: BuildTick)
    ensures
        tick.mode matches BotMode::Building(next) && next.id == job_id && next.description
            == description && next.origin == origin && is_gathering_phase(
            structure,
            missing@,
            active,
            next.phase,
        ),
        tick.actions@ == actions@,
        tick.chat is None,
        tick.errand == match mine {
            None => Errand::Nothing,
            Some(step) => Errand::Mine(step),
        },
{
    let phase = if missing.len() == 0 && active.is_none() {
        start_placing(structure)
    } else {
        BuildPhase::CollectingResources { structure, missing, active_job: active }
    };
    BuildTick {
        mode: BotMode::Building(BuildJob { id: job_id, description, origin, phase }),
        actions,
        chat: None,
        errand: match mine {
            None => Errand::Nothing,
            Some(step) => Errand::Mine(step),
        },
    }
}

/// The phase of placing with a new state of the block that is being placed.
pub open spec fn placing(
    structure: Structure,
    next_index: int,
    placement_attempts: int,
    waiting_for_confirmation: bool,
) -> BuildPhase {
    BuildPhase::PlacingBlocks {
        structure,
        next_index: next_index as usize,
        placement_attempts: placement_attempts as u8,
        waiting_for_confirmation,
    }
}

/// One step of waiting for a block to appear: it has come, or there was no try left, or it will
/// be tried again, once what stands in its place is mined.
pub open spec fn is_confirmation_step(
    job: BuildJob,
    structure: Structure,
    next_index: usize,
    placement_attempts: u8,
    actual: Option<BlockKind>,
    expected: Option<BlockKind>,
    is_mining: bool,
    tick: BuildTick,
) -> bool {
    let entry = structure.blocks@[next_index as int];
    let target = place_of(job.origin, entry);
    &&& tick.errand is Nothing
    &&& if actual is Some && actual == expected {
        goes_on(
            job,
            tick,
            seq![],
            |phase: BuildPhase| phase == placing(structure, next_index + 1, 0, false),
        )
    } else if placement_attempts >= 3 {
        is_over(tick, placement_failure(entry.block@, target))
    } else {
        goes_on(
            job,
            tick,
            if actual matches Some(kind) && kind != BlockKind::Air {
                mining(target, false, is_mining)
            } else {
                seq![]
            },
            |phase: BuildPhase|
                phase == placing(structure, next_index as int, placement_attempts as int, false),
        )
    }
}

/// What the bot knows as it is about to place a block.
#[derive(Clone, Copy, Debug, PartialEq, Eq, Structural)]
pub struct PlaceFacts {
    pub bot_block: BlockPos,
    pub calculating_path: bool,
    pub executing_path: bool,
}

/// A path to a stance for placing: to within half a block where the bot stands in the way of the
/// block, else to within a block.
pub open spec fn goto_placing_stance(stance: BlockPos, in_the_way: bool) -> Action {
    Action::Goto {
        place: Place::Point(stance.center_spec()),
        radius_halves: if in_the_way {
            1
        } else {
            2
        },
        opts: one_try(1),
    }
}

/// One step of placing a block: the bot goes to a safe stance, and places the block from there
/// against a solid block. A block without a stance cannot be reached and is passed over; without
/// a solid block the construction is over.
pub open spec fn is_placing_step(
    job: BuildJob,
    structure: Structure,
    next_index: usize,
    placement_attempts: u8,
    facts: PlaceFacts,
    world: spec_fn(BlockPos) -> Option<BlockKind>,
    distances: spec_fn(BlockPos) -> Measure,
    tick: BuildTick,
) -> bool {
    let entry = structure.blocks@[next_index as int];
    let target = place_of(job.origin, entry);
    &&& tick.errand is Nothing
    &&& match best_stance(passable_in(world), target, job.origin, placing_heights()) {
        None => goes_on(
            job,
            tick,
            seq![],
            |phase: BuildPhase| phase == placing(structure, next_index + 1, 0, false),
        ),
        Some(stance) => if must_navigate(facts.bot_block, target, distances(stance)) {
            goes_on(
                job,
                tick,
                if !facts.calculating_path && !facts.executing_path {
                    seq![goto_placing_stance(stance, facts.bot_block == target)]
                } else {
                    seq![]
                },
                |phase: BuildPhase| phase == job.phase,
            )
        } else {
            match best_support(passable_in(world), target, stance) {
                None => is_over(tick, support_failure(entry.block@, target)),
                Some(support) => goes_on(
                    job,
                    tick,
                    seq![
                        Action::LookAt(Place::Point(between_centers(support, target))),
                        Action::UseItem,
                    ],
                    |phase: BuildPhase|
                        phase == placing(
                            structure,
                            next_index as int,
                            placement_attempts + 1,
                            true,
                        ),
                ),
            }
        },
    }
}

/// A job that is about to place a block which still has a place, and a try, left.
pub open spec fn can_place(job: BuildJob) -> bool {
    job.phase matches BuildPhase::PlacingBlocks {
        structure,
        next_index,
        placement_attempts,
        waiting_for_confirmation: false,
    } && next_index < structure.blocks@.len() && placement_attempts < 255 && {
        let entry = structure.blocks@[next_index as int];
        &&& place_fits(job.origin, entry)
        &&& stance_search_fits(place_of(job.origin, entry), job.origin, placing_heights())
        &&& support_search_fits(place_of(job.origin, entry))
    }
}

/// The heights at which a bot stands to place a block.
fn heights_for_placing() -> (heights: Vec<i32>)
    ensures
        heights@ == placing_heights(),
{
    let heights: Vec<i32> = vec![0, -1];
    assert(heights@ =~= placing_heights());
    heights
}

/// The place of a block of a structure in the world.
fn placed_at(origin: BlockPos, entry: &BlockEntry) -> (pos: BlockPos)
    requires
        place_fits(origin, *entry),
    ensures
        pos == place_of(origin, *entry),
{
    BlockPos { x: origin.x + entry.x, y: origin.y + entry.y, z: origin.z + entry.z }
}

/// One step of placing a block, once it has been tried to get it into the hand.
pub fn place_block<B: Fn(BlockPos) -> Option<BlockKind>, D: Fn(BlockPos) -> Measure>(
    job: BuildJob,
    facts: PlaceFacts,
    block_at: &B,
    distance_to: &D,
) -> (tick: BuildTick)
    requires
        can_place(job),
        forall|p: BlockPos| call_requires(*block_at, (p,)),
        forall|p: BlockPos| call_requires(*distance_to, (p,)),
    ensures
        forall|
            world: spec_fn(BlockPos) -> Option<BlockKind>,
            distances: spec_fn(BlockPos) -> Measure,
        |
            #![trigger reports_blocks(*block_at, world), reports_distances(*distance_to, distances)]
            reports_blocks(*block_at, world) && reports_distances(*distance_to, distances) ==> (
            job.phase matches BuildPhase::PlacingBlocks {
                structure,
                next_index,
                placement_attempts,
                ..
            } && is_placing_step(
                job,
                structure,
                next_index,
                placement_attempts,
                facts,
                world,
                distances,
                tick,
            )),
        job.phase matches BuildPhase::PlacingBlocks {
            structure,
            next_index,
            placement_attempts,
            ..
        } && is_told_placing_step(
            job,
            structure,
            next_index,
            placement_attempts,
            facts,
            *block_at,
            *distance_to,
            tick,
        ),
{
    match job.phase {
        BuildPhase::PlacingBlocks {
            structure,
            next_index,
            placement_attempts,
            waiting_for_confirmation,
        } => {
            let target = placed_at(job.origin, &structure.blocks[next_index]);
            let heights = heights_for_placing();
            let stance = choose_world_safe_action_stance(
                target,
                job.origin,
                heights.as_slice(),
                block_at,
            );
            match stance {
                None => {
                    assert(next_index < structure.blocks.len());
                    let phase = BuildPhase::PlacingBlocks {
                        structure,
                        next_index: next_index + 1,
                        placement_attempts: 0,
                        waiting_for_confirmation: false,
                    };
                    BuildTick {
                        mode: BotMode::Building(
                            BuildJob {
                                id: job.id,
                                description: job.description,
                                origin: job.origin,
                                phase,
                            },
                        ),
                        actions: Vec::new(),
                        chat: None,
                        errand: Errand::Nothing,
                    }
                },
                Some(stance) => {
                    let in_the_way: bool = facts.bot_block == target;
                    let distance = distance_to(stance);
                    assert(call_ensures(*distance_to, (stance,), distance));
                    if needs_navigation_for_placement(facts.bot_block, target, stance, distance) {
                        let mut actions: Vec<Action> = Vec::new();
                        if !facts.calculating_path && !facts.executing_path {
                            actions.push(
                                Action::Goto {
                                    place: Place::Point(stance.center()),
                                    radius_halves: if in_the_way {
                                        1
                                    } else {
                                        2
                                    },
                                    opts: collect_pathfinder_opts(),
                                },
                            );
                        }
                        let phase = BuildPhase::PlacingBlocks {
                            structure,
                            next_index,
                            placement_attempts,
                            waiting_for_confirmation,
                        };
                        return BuildTick {
                            mode: BotMode::Building(
                                BuildJob {
                                    id: job.id,
                                    description: job.description,
                                    origin: job.origin,
                                    phase,
                                },
                            ),
                            actions,
                            chat: None,
                            errand: Errand::Nothing,
                        };
                    }
                    match choose_world_support_block(target, stance, block_at) {
                        None => {
                            give_up(
                                message_on_block(
                                    "Build failed: no support block available for ",
                                    structure.blocks[next_index].block.as_str(),
                                    target,
                                    ".",
                                ),
                            )
                        },
                        Some(support) => {
                            let actions = vec![
                                Action::LookAt(
                                    Place::Point(placement_interaction_point(support, target)),
                                ),
                                Action::UseItem,
                            ];
                            assert(actions@ =~= seq![
                                Action::LookAt(Place::Point(between_centers(support, target))),
                                Action::UseItem,
                            ]);
                            let phase = BuildPhase::PlacingBlocks {
                                structure,
                                next_index,
                                placement_attempts: placement_attempts + 1,
                                waiting_for_confirmation: true,
                            };
                            BuildTick {
                                mode: BotMode::Building(
                                    BuildJob {
                                        id: job.id,
                                        description: job.description,
                                        origin: job.origin,
                                        phase,
                                    },
                                ),
                                actions,
                                chat: None,
                                errand: Errand::Nothing,
                            }
                        },
                    }
                },
            }
        },
        _ => BuildTick {
            mode: BotMode::Building(job),
            actions: Vec::new(),
            chat: None,
            errand: Errand::Nothing,
        },
    }
}

/// One step of placing a block by the answers that the bot was given, which need not fit
/// together.
pub open spec fn is_told_placing_step<
    B: Fn(BlockPos) -> Option<BlockKind>,
    D: Fn(BlockPos) -> Measure,
>(
    job: BuildJob,
    structure: Structure,
    next_index: usize,
    placement_attempts: u8,
    facts: PlaceFacts,
    block_at: B,
    distance_to: D,
    tick: BuildTick,
) -> bool {
    let entry = structure.blocks@[next_index as int];
    let target = place_of(job.origin, entry);
    &&& tick.errand is Nothing
    &&& {
        ||| goes_on(
            job,
            tick,
            seq![],
            |phase: BuildPhase| phase == placing(structure, next_index + 1, 0, false),
        )
        ||| exists|stance: BlockPos, distance: Measure|
            {
                &&& #[trigger] call_ensures(distance_to, (stance,), distance)
                &&& is_told_stance(
                    told_by(block_at),
                    target,
                    job.origin,
                    placing_heights(),
                    stance,
                )
                &&& if must_navigate(facts.bot_block, target, distance) {
                    goes_on(
                        job,
                        tick,
                        if !facts.calculating_path && !facts.executing_path {
                            seq![goto_placing_stance(stance, facts.bot_block == target)]
                        } else {
                            seq![]
                        },
                        |phase: BuildPhase| phase == job.phase,
                    )
                } else {
                    ||| is_over(tick, support_failure(entry.block@, target))
                    ||| exists|support: BlockPos|
                        {
                            &&& #[trigger] is_told_support(told_by(block_at), target, support)
                            &&& goes_on(
                                job,
                                tick,
                                seq![
                                    Action::LookAt(Place::Point(between_centers(support, target))),
                                    Action::UseItem,
                                ],
                                |phase: BuildPhase|
                                    phase == placing(
                                        structure,
                                        next_index as int,
                                        placement_attempts + 1,
                                        true,
                                    ),
                            )
                        }
                }
            }
    }
}

/// `step` is one step of building.
pub open spec fn is_build_step(
    job: BuildJob,
    facts: BuildFacts,
    world: spec_fn(BlockPos) -> Option<BlockKind>,
    found: spec_fn(BlockKind) -> Seq<BlockPos>,
    distances: spec_fn(BlockPos) -> Measure,
    step: BuildStep,
) -> bool {
    match job.phase {
        BuildPhase::ScanningChests { chests, spawned } => step matches BuildStep::Tick(tick)
            && is_scan_step(job, chests, spawned, facts, tick),
        BuildPhase::WaitingForLlm { inventory, spawned } => step matches BuildStep::Tick(tick)
            && is_llm_step(job, inventory, spawned, facts, tick),
        BuildPhase::CollectingResources { structure, missing, active_job } => step matches
            BuildStep::Tick(tick) && is_gathering_step(
            job,
            structure,
            missing@,
            active_job,
            facts,
            world,
            found,
            distances,
            tick,
        ),
        BuildPhase::PlacingBlocks {
            structure,
            next_index,
            placement_attempts,
            waiting_for_confirmation,
        } => if next_index >= structure.blocks@.len() {
            step matches BuildStep::Tick(tick) && tick.errand is Nothing && is_over(
                tick,
                "Finished building "@ + job.description@ + "."@,
            )
        } else if waiting_for_confirmation {
            step matches BuildStep::Tick(tick) && is_confirmation_step(
                job,
                structure,
                next_index,
                placement_attempts,
                world(place_of(job.origin, structure.blocks@[next_index as int])),
                facts.block_kind,
                facts.is_mining,
                tick,
            )
        } else {
            step matches BuildStep::Place { job: same, plan } && same == job && is_item_plan(
                facts.item_kind,
                facts.collect.hand,
                plan,
            )
        },
    }
}

/// One step of collecting what is missing by the answers that the bot was given, which need not
/// fit together.
pub open spec fn is_told_gathering_step<
    B: Fn(BlockPos) -> Option<BlockKind>,
    D: Fn(BlockPos) -> Measure,
    F: Fn(BlockKind) -> Vec<BlockPos>,
>(
    job: BuildJob,
    structure: Structure,
    missing: Seq<(String, u32)>,
    active_job: Option<CollectJob>,
    facts: BuildFacts,
    block_at: B,
    distance_to: D,
    find_blocks: F,
    tick: BuildTick,
) -> bool {
    exists|still_missing: Seq<(String, u32)>, active: Option<CollectJob>|
        #![trigger is_taken_up(missing, active_job, facts.block_kind, facts.item_kind, job.origin, facts.collect.inventory@, still_missing, active)]
        {
            &&& is_taken_up(
                missing,
                active_job,
                facts.block_kind,
                facts.item_kind,
                job.origin,
                facts.collect.inventory@,
                still_missing,
                active,
            )
            &&& match active {
                None => is_gathering_tick(job, structure, still_missing, None, seq![], None, tick),
                Some(collecting) => exists|done: CollectTick|
                    {
                        &&& #[trigger] is_told_collect_step(
                            collecting,
                            facts.collect,
                            block_at,
                            distance_to,
                            find_blocks,
                            done,
                        )
                        &&& ends_gathering(job, structure, still_missing, done, tick)
                        &&& tick.errand matches Errand::Mine(step) ==> is_collect_tool_plan(
                            collecting.target,
                            facts.collect.hand,
                            step.plan,
                        )
                    },
            }
        }
}

/// What a step of collecting what is missing comes to, once the collection of the material in hand
/// has gone one step further.
pub open spec fn ends_gathering(
    job: BuildJob,
    structure: Structure,
    missing: Seq<(String, u32)>,
    done: CollectTick,
    tick: BuildTick,
) -> bool {
    match done.outcome {
        CollectTickOutcome::ExhaustedTargets { collected, requested, name } => tick.errand
            is Nothing && is_over(tick, exhausted_message(collected, requested, name@)),
        _ => is_gathering_tick(
            job,
            structure,
            missing,
            active_after(done.outcome),
            done.actions@,
            match done.mine {
                None => None,
                Some(step) => Some(step.block),
            },
            tick,
        ),
    }
}

/// `step` is one step of building by the answers that the bot was given, which need not fit
/// together. While the chests are scanned, while the structure is awaited and once all blocks are
/// placed, nothing is asked.
pub open spec fn is_told_build_step<
    B: Fn(BlockPos) -> Option<BlockKind>,
    D: Fn(BlockPos) -> Measure,
    F: Fn(BlockKind) -> Vec<BlockPos>,
>(
    job: BuildJob,
    facts: BuildFacts,
    block_at: B,
    distance_to: D,
    find_blocks: F,
    step: BuildStep,
) -> bool {
    match job.phase {
        BuildPhase::ScanningChests { chests, spawned } => step matches BuildStep::Tick(tick)
            && is_scan_step(job, chests, spawned, facts, tick),
        BuildPhase::WaitingForLlm { inventory, spawned } => step matches BuildStep::Tick(tick)
            && is_llm_step(job, inventory, spawned, facts, tick),
        BuildPhase::CollectingResources { structure, missing, active_job } => step matches
            BuildStep::Tick(tick) && is_told_gathering_step(
            job,
            structure,
            missing@,
            active_job,
            facts,
            block_at,
            distance_to,
            find_blocks,
            tick,
        ),
        BuildPhase::PlacingBlocks {
            structure,
            next_index,
            placement_attempts,
            waiting_for_confirmation,
        } => if next_index >= structure.blocks@.len() {
            step matches BuildStep::Tick(tick) && tick.errand is Nothing && is_over(
                tick,
                "Finished building "@ + job.description@ + "."@,
            )
        } else if waiting_for_confirmation {
            step matches BuildStep::Tick(tick) && exists|actual: Option<BlockKind>|
                #[trigger] call_ensures(
                    block_at,
                    (place_of(job.origin, structure.blocks@[next_index as int]),),
                    actual,
                ) && is_confirmation_step(
                    job,
                    structure,
                    next_index,
                    placement_attempts,
                    actual,
                    facts.block_kind,
                    facts.is_mining,
                    tick,
                )
        } else {
            step matches BuildStep::Place { job: same, plan } && same == job && is_item_plan(
                facts.item_kind,
                facts.collect.hand,
                plan,
            )
        },
    }
}

/// `plan` is the way to get an item into the hand, where there is one to get.
pub open spec fn is_item_plan(
    item: Option<ItemKind>,
    hand: Hand,
    plan: Option<ToolEquipPlan>,
) -> bool {
    match item {
        None => plan is None,
        Some(kind) => hand.is_plan(Wanted::Item(kind), plan),
    }
}

/// Counts and coordinates that a step works with are such that a `u32` and an `i32` hold them.
pub open spec fn build_values_fit(job: BuildJob, facts: BuildFacts) -> bool {
    match job.phase {
        BuildPhase::ScanningChests { .. } => facts.scanned matches Some(counts) ==> with_slots(
            counts@,
            facts.own_slots@,
        ) is Some,
        BuildPhase::WaitingForLlm { .. } => true,
        BuildPhase::CollectingResources { missing, active_job, .. } => match active_job {
            Some(collecting) => {
                &&& inventory_count(collecting.target, facts.collect.inventory@) <= u32::MAX
                &&& collecting.phase matches CollectPhase::MovingToBlock(block)
                    ==> stance_search_fits(block, collecting.return_anchor, mining_heights())
            },
            None => missing@.len() > 0 ==> (facts.item_kind matches Some(item) ==> matching_total(
                seq![item],
                stack_amounts(facts.collect.inventory@),
            ) <= u32::MAX),
        },
        BuildPhase::PlacingBlocks { structure, next_index, .. } => next_index
            < structure.blocks@.len() ==> place_fits(
            job.origin,
            structure.blocks@[next_index as int],
        ),
    }
}

/// Where a step may search for blocks, the blocks that are found have coordinates with room
/// around them.
pub open spec fn build_search_fits<F: Fn(BlockKind) -> Vec<BlockPos>>(
    job: BuildJob,
    find_blocks: F,
) -> bool {
    job.phase matches BuildPhase::CollectingResources { active_job, .. } ==> forall|pos: BlockPos|
        #[trigger]
        was_found(find_blocks, pos) ==> stance_search_fits(
            pos,
            match active_job {
                Some(collecting) => collecting.return_anchor,
                None => job.origin,
            },
            mining_heights(),
        )
}

/// One step of building.
pub fn build_tick<
    B: Fn(BlockPos) -> Option<BlockKind>,
    D: Fn(BlockPos) -> Measure,
    F: Fn(BlockKind) -> Vec<BlockPos>,
>(job: BuildJob, facts: BuildFacts, block_at: &B, distance_to: &D, find_blocks: &F) -> (step:
    BuildStep)
    requires
        facts.collect.hand.fits(),
        build_values_fit(job, facts),
        build_search_fits(job, *find_blocks),
        forall|p: BlockPos| call_requires(*block_at, (p,)),
        forall|p: BlockPos| call_requires(*distance_to, (p,)),
        forall|kind: BlockKind| call_requires(*find_blocks, (kind,)),
    ensures
        forall|
            world: spec_fn(BlockPos) -> Option<BlockKind>,
            found: spec_fn(BlockKind) -> Seq<BlockPos>,
            distances: spec_fn(BlockPos) -> Measure,
        |
            #![trigger reports_blocks(*block_at, world), reports_found(*find_blocks, found), reports_distances(*distance_to, distances)]
            reports_blocks(*block_at, world) && reports_found(*find_blocks, found)
                && reports_distances(*distance_to, distances) ==> is_build_step(
                job,
                facts,
                world,
                found,
                distances,
                step,
            ),
        is_told_build_step(job, facts, *block_at, *distance_to, *find_blocks, step),
{
    let BuildJob { id, description, origin, phase } = job;
    match phase {
        BuildPhase::ScanningChests { chests, spawned } => BuildStep::Tick(
            scan_tick(id, description, origin, chests, spawned, facts),
        ),
        BuildPhase::WaitingForLlm { inventory, spawned } => BuildStep::Tick(
            llm_tick(id, description, origin, inventory, spawned, facts.reply),
        ),
        BuildPhase::CollectingResources { structure, missing, active_job } => {
            let (still_missing, active) = take_up_material(
                missing,
                active_job,
                facts.block_kind,
                facts.item_kind,
                origin,
                &facts.collect.inventory,
            );
            match active {
                None => BuildStep::Tick(
                    finish_gathering(
                        id,
                        description,
                        origin,
                        structure,
                        still_missing,
                        None,
                        Vec::new(),
                        None,
                    ),
                ),
                Some(collecting) => {
                    let tick = collect_tick_inner(
                        collecting,
                        &facts.collect,
                        block_at,
                        distance_to,
                        find_blocks,
                    );
                    let ghost done = tick;
                    assert(is_told_collect_step(
                        collecting,
                        facts.collect,
                        *block_at,
                        *distance_to,
                        *find_blocks,
                        done,
                    ));
                    let still_active = match tick.outcome {
                        CollectTickOutcome::Continue(next) => Some(next),
                        CollectTickOutcome::Done { .. } => None,
                        CollectTickOutcome::ExhaustedTargets { collected, requested, name } => {
                            let message = report_exhausted(collected, requested, name.as_str());
                            return BuildStep::Tick(give_up(message));
                        },
                    };
                    let finished = finish_gathering(
                        id,
                        description,
                        origin,
                        structure,
                        still_missing,
                        still_active,
                        tick.actions,
                        tick.mine,
                    );
                    BuildStep::Tick(finished)
                },
            }
        },
        BuildPhase::PlacingBlocks {
            structure,
            next_index,
            placement_attempts,
            waiting_for_confirmation,
        } => {
            if next_index >= structure.blocks.len() {
                let mut message = "Finished building ".to_owned();
                message.append(description.as_str());
                message.append(".");
                return BuildStep::Tick(give_up(message));
            }
            if waiting_for_confirmation {
                let actual = block_at(placed_at(origin, &structure.blocks[next_index]));
                return BuildStep::Tick(
                    confirmation_tick(
                        id,
                        description,
                        origin,
                        structure,
                        next_index,
                        placement_attempts,
                        actual,
                        facts.block_kind,
                        facts.is_mining,
                    ),
                );
            }
            let plan = match facts.item_kind {
                None => None,
                Some(kind) => facts.collect.hand.plan(Wanted::Item(kind)),
            };
            BuildStep::Place {
                job: BuildJob {
                    id,
                    description,
                    origin,
                    phase: BuildPhase::PlacingBlocks {
                        structure,
                        next_index,
                        placement_attempts,
                        waiting_for_confirmation,
                    },
                },
                plan,
            }
        },
    }
}

/// One step of the scan of the chests.
fn scan_tick(
    id: u64,
    description: String,
    origin: BlockPos,
    chests: Vec<BlockPos>,
    spawned: bool,
    facts: BuildFacts,
) -> (tick: BuildTick)
    requires
        facts.scanned matches Some(counts) ==> with_slots(counts@, facts.own_slots@) is Some,
    ensures
        forall|job: BuildJob|
            job.id == id && job.description == description && job.origin == origin
                ==> #[trigger] is_scan_step(job, chests, spawned, facts, tick),
{
    let errand = if spawned {
        Errand::Nothing
    } else {
        Errand::ScanChests(copy_places(&chests))
    };
    let phase = match facts.scanned {
        None => BuildPhase::ScanningChests { chests, spawned: true },
        Some(counts) => match add_contents(counts, &facts.own_slots) {
            Some(inventory) => BuildPhase::WaitingForLlm { inventory, spawned: false },
            None => BuildPhase::ScanningChests { chests, spawned: true },
        },
    };
    BuildTick {
        mode: BotMode::Building(BuildJob { id, description, origin, phase }),
        actions: Vec::new(),
        chat: None,
        errand,
    }
}

/// One step of the wait for a structure.
fn llm_tick(
    id: u64,
    description: String,
    origin: BlockPos,
    inventory: ItemCounts,
    spawned: bool,
    reply: Option<Result<Structure, String>>,
) -> (tick: BuildTick)
    ensures
        forall|job: BuildJob, facts: BuildFacts|
            job.id == id && job.description == description && job.origin == origin && facts.reply
                == reply ==> #[trigger] is_llm_step(job, inventory, spawned, facts, tick),
{
    let errand = if spawned {
        Errand::Nothing
    } else {
        Errand::AskLlm { description: description.clone(), inventory: inventory.clone() }
    };
    let phase = match reply {
        None => BuildPhase::WaitingForLlm { inventory, spawned: true },
        Some(Ok(structure)) => {
            let missing = compute_missing(&structure, &inventory);
            if missing.len() == 0 {
                start_placing(structure)
            } else {
                BuildPhase::CollectingResources { structure, missing, active_job: None }
            }
        },
        Some(Err(error)) => {
            let mut message = "Build failed: LLM error — ".to_owned();
            message.append(error.as_str());
            message.append(".");
            let over = give_up(message);
            return BuildTick { errand, ..over };
        },
    };
    BuildTick {
        mode: BotMode::Building(BuildJob { id, description, origin, phase }),
        actions: Vec::new(),
        chat: None,
        errand,
    }
}

/// One step of waiting for a block to appear.
fn confirmation_tick(
    id: u64,
    description: String,
    origin: BlockPos,
    structure: Structure,
    next_index: usize,
    placement_attempts: u8,
    actual: Option<BlockKind>,
    expected: Option<BlockKind>,
    is_mining: bool,
) -> (tick: BuildTick)
    requires
        next_index < structure.blocks@.len(),
        place_fits(origin, structure.blocks@[next_index as int]),
    ensures
        forall|job: BuildJob|
            job.id == id && job.description == description && job.origin == origin
                ==> #[trigger] is_confirmation_step(
                job,
                structure,
                next_index,
                placement_attempts,
                actual,
                expected,
                is_mining,
                tick,
            ),
{
    let target = placed_at(origin, &structure.blocks[next_index]);
    let mut actions: Vec<Action> = Vec::new();
    let confirmed: bool = match (actual, expected) {
        (Some(a), Some(e)) => a == e,
        _ => false,
    };
    assert(next_index < structure.blocks.len());
    let phase = if confirmed {
        BuildPhase::PlacingBlocks {
            structure,
            next_index: next_index + 1,
            placement_attempts: 0,
            waiting_for_confirmation: false,
        }
    } else {
        if placement_attempts >= 3 {
            return give_up(
                message_on_block(
                    "Build failed: couldn't place ",
                    structure.blocks[next_index].block.as_str(),
                    target,
                    " after 3 attempts. Aborting.",
                ),
            );
        }
        match actual {
            Some(kind) if kind != BlockKind::Air => {
                actions = mining_actions(target, false, is_mining);
            },
            _ => {},
        }
        BuildPhase::PlacingBlocks {
            structure,
            next_index,
            placement_attempts,
            waiting_for_confirmation: false,
        }
    };
    BuildTick {
        mode: BotMode::Building(BuildJob { id, description, origin, phase }),
        actions,
        chat: None,
        errand: Errand::Nothing,
    }
}

/// Whether the counts and coordinates that a step works with are such that a `u32` and an `i32`
/// hold them.
pub fn build_values_in_range(job: &BuildJob, facts: &BuildFacts) -> (r: bool)
    ensures
        r == build_values_fit(*job, *facts),
{
    match &job.phase {
        BuildPhase::ScanningChests { .. } => match &facts.scanned {
            None => true,
            Some(counts) => add_contents(counts.clone(), &facts.own_slots).is_some(),
        },
        BuildPhase::WaitingForLlm { .. } => true,
        BuildPhase::CollectingResources { missing, active_job, .. } => match active_job {
            Some(collecting) => checked_inventory_count(
                &collecting.target,
                &facts.collect.inventory,
            ).is_some() && match collecting.phase {
                CollectPhase::MovingToBlock(block) => {
                    let heights: Vec<i32> = vec![1, 0];
                    assert(heights@ =~= mining_heights());
                    stance_search_in_range(block, collecting.return_anchor, heights.as_slice())
                },
                _ => true,
            },
            None => missing.len() == 0 || match facts.item_kind {
                None => true,
                Some(item) => {
                    let counted = vec![item];
                    assert(counted@ =~= seq![item]);
                    count_in_stacks(&counted, &facts.collect.inventory).is_some()
                },
            },
        },
        BuildPhase::PlacingBlocks { structure, next_index, .. } => {
            if *next_index < structure.blocks.len() {
                place_in_range(job.origin, &structure.blocks[*next_index])
            } else {
                true
            }
        },
    }
}

/// Whether a sum of coordinates is one that an `i32` holds.
fn sum_in_range(a: i32, b: i32) -> (r: bool)
    ensures
        r == (i32::MIN <= a + b <= i32::MAX),
{
    let sum: i64 = a as i64 + b as i64;
    i32::MIN as i64 <= sum && sum <= i32::MAX as i64
}

/// Whether the place of a block has coordinates that an `i32` holds.
fn place_in_range(origin: BlockPos, entry: &BlockEntry) -> (r: bool)
    ensures
        r == place_fits(origin, *entry),
{
    sum_in_range(origin.x, entry.x) && sum_in_range(origin.y, entry.y) && sum_in_range(
        origin.z,
        entry.z,
    )
}

/// Whether a job is about to place a block which still has a place, and a try, left.
pub fn placing_in_range(job: &BuildJob) -> (r: bool)
    ensures
        r == can_place(*job),
{
    match &job.phase {
        BuildPhase::PlacingBlocks {
            structure,
            next_index,
            placement_attempts,
            waiting_for_confirmation,
        } => {
            if *waiting_for_confirmation || *next_index >= structure.blocks.len()
                || *placement_attempts == 255 || !place_in_range(
                job.origin,
                &structure.blocks[*next_index],
            ) {
                return false;
            }
            let target = placed_at(job.origin, &structure.blocks[*next_index]);
            let heights = heights_for_placing();
            stance_search_in_range(target, job.origin, heights.as_slice())
                && support_search_in_range(target)
        },
        _ => false,
    }
}

/// The blocks within a radius of the origin, in the order in which they stand.
pub open spec fn within(blocks: Seq<BlockPos>, origin: BlockPos, radius_sq: int) -> Seq<BlockPos>
    decreases blocks.len(),
{
    if blocks.len() == 0 {
        Seq::empty()
    } else {
        let rest = within(blocks.drop_last(), origin, radius_sq);
        if distance_sq(blocks.last(), origin) <= radius_sq {
            rest.push(blocks.last())
        } else {
            rest
        }
    }
}

/// The kinds of chest.
pub open spec fn chest_kinds() -> Seq<BlockKind> {
    seq![BlockKind::Chest, BlockKind::TrappedChest]
}

/// Appends the blocks within a radius of the origin.
fn append_within(
    near: &mut Vec<BlockPos>,
    blocks: &Vec<BlockPos>,
    origin: BlockPos,
    radius_sq: i128,
    Ghost(before): Ghost<Seq<BlockPos>>,
)
    requires
        old(near)@ == within(before, origin, radius_sq as int),
    ensures
        final(near)@ == within(before + blocks@, origin, radius_sq as int),
{
    let mut i: usize = 0;
    assert(before + blocks@.take(0) =~= before);
    while i < blocks.len()
        invariant
            i <= blocks@.len(),
            near@ == within(before + blocks@.take(i as int), origin, radius_sq as int),
        decreases blocks@.len() - i,
    {
        let ghost seen = before + blocks@.take(i + 1);
        assert(seen.drop_last() =~= before + blocks@.take(i as int));
        assert(seen.last() == blocks@[i as int]);
        if wide_distance_sq(blocks[i], origin) <= radius_sq {
            near.push(blocks[i]);
        }
        i = i + 1;
    }
    assert(blocks@.take(i as int) =~= blocks@);
}

/// `chests` are the chests that were found, trapped ones after the others, within a radius of the
/// origin.
pub open spec fn are_chests_within<F: Fn(BlockKind) -> Vec<BlockPos>>(
    find_blocks: F,
    origin: BlockPos,
    radius_sq: int,
    chests: Seq<BlockPos>,
) -> bool {
    exists|plain: Seq<BlockPos>, trapped: Seq<BlockPos>|
        {
            &&& #[trigger] was_listed(find_blocks, BlockKind::Chest, plain)
            &&& #[trigger] was_listed(find_blocks, BlockKind::TrappedChest, trapped)
            &&& chests == within(plain + trapped, origin, radius_sq)
        }
}

/// How far from the bot chests are looked for.
pub const CHEST_RADIUS: i64 = 15;

/// The chests to scan for a construction: those within fifteen blocks of the origin.
pub fn find_build_chests<F: Fn(BlockKind) -> Vec<BlockPos>>(
    origin: BlockPos,
    find_blocks: &F,
) -> (chests: Vec<BlockPos>)
    requires
        forall|kind: BlockKind| call_requires(*find_blocks, (kind,)),
    ensures
        forall|found: spec_fn(BlockKind) -> Seq<BlockPos>| #[trigger]
            reports_found(*find_blocks, found) ==> chests@ == within(
                found_in_turn(chest_kinds(), found),
                origin,
                225,
            ),
        are_chests_within(*find_blocks, origin, 225, chests@),
{
    find_nearby_chests(origin, CHEST_RADIUS, find_blocks)
}

/// The chests, trapped ones after the others, within a radius of the origin.
pub fn find_nearby_chests<F: Fn(BlockKind) -> Vec<BlockPos>>(
    origin: BlockPos,
    radius: i64,
    find_blocks: &F,
) -> (chests: Vec<BlockPos>)
    requires
        forall|kind: BlockKind| call_requires(*find_blocks, (kind,)),
    ensures
        forall|found: spec_fn(BlockKind) -> Seq<BlockPos>| #[trigger]
            reports_found(*find_blocks, found) ==> chests@ == within(
                found_in_turn(chest_kinds(), found),
                origin,
                radius * radius,
            ),
        are_chests_within(*find_blocks, origin, radius * radius, chests@),
{
    proof {
        lemma_square_fits(radius as int);
    }
    let radius_sq: i128 = (radius as i128) * (radius as i128);
    let mut chests: Vec<BlockPos> = Vec::new();
    let plain = find_blocks(BlockKind::Chest);
    let trapped = find_blocks(BlockKind::TrappedChest);
    let ghost none = Seq::<BlockPos>::empty();
    append_within(&mut chests, &plain, origin, radius_sq, Ghost(none));
    append_within(&mut chests, &trapped, origin, radius_sq, Ghost(none + plain@));
    proof {
        assert forall|found: spec_fn(BlockKind) -> Seq<BlockPos>| #[trigger]
            reports_found(*find_blocks, found) implies found_in_turn(chest_kinds(), found) == none
            + plain@ + trapped@ by {
            reveal_with_fuel(found_in_turn, 3);
            assert(chest_kinds().drop_last() =~= seq![BlockKind::Chest]);
            assert(seq![BlockKind::Chest].drop_last() =~= Seq::<BlockKind>::empty());
        }
        assert(was_listed(*find_blocks, BlockKind::Chest, plain@));
        assert(was_listed(*find_blocks, BlockKind::TrappedChest, trapped@));
        assert(none + plain@ =~= plain@);
    }
    chests
}

proof fn lemma_square_fits(r: int)
    by (nonlinear_arith)
    requires
        i64::MIN <= r <= i64::MAX,
    ensures
        0 <= r * r <= 0x4000_0000_0000_0000_0000_0000_0000_0000,
{
}

/// Every chest in the list is one that was found, and lies within the radius.
pub proof fn nearby_chests_are_near(blocks: Seq<BlockPos>, origin: BlockPos, radius_sq: int, k: int)
    requires
        0 <= k < within(blocks, origin, radius_sq).len(),
    ensures
        blocks.contains(within(blocks, origin, radius_sq)[k]),
        distance_sq(within(blocks, origin, radius_sq)[k], origin) <= radius_sq,
    decreases blocks.len(),
{
    let front = blocks.drop_last();
    if k < within(front, origin, radius_sq).len() {
        nearby_chests_are_near(front, origin, radius_sq, k);
        let i = choose|i: int|
            0 <= i < front.len() && front[i] == within(front, origin, radius_sq)[k];
        assert(blocks[i] == front[i]);
    } else {
        assert(blocks[blocks.len() - 1] == blocks.last());
    }
}

/// A new construction at the place where the bot stands: it begins with the chests nearby.
pub fn queue_build(id: u64, description: String, origin: BlockPos, chests: Vec<BlockPos>) -> (mode:
    BotMode)
    ensures
        mode == BotMode::Building(
            BuildJob {
                id,
                description,
                origin,
                phase: BuildPhase::ScanningChests { chests, spawned: false },
            },
        ),
{
    BotMode::Building(
        BuildJob {
            id,
            description,
            origin,
            phase: BuildPhase::ScanningChests { chests, spawned: false },
        },
    )
}

/// A block is tried at most three times: there is a try left as long as the bot does not wait for
/// the block to appear.
pub open spec fn tries_are_bounded(phase: BuildPhase) -> bool {
    phase matches BuildPhase::PlacingBlocks { placement_attempts, waiting_for_confirmation, .. }
        ==> placement_attempts <= 3 && (!waiting_for_confirmation ==> placement_attempts < 3)
}

/// The mode holds no construction in which a block was tried too often.
pub open spec fn mode_tries_are_bounded(mode: BotMode) -> bool {
    mode matches BotMode::Building(job) ==> tries_are_bounded(job.phase)
}

/// No step of building tries a block more than three times.
pub proof fn build_steps_bound_the_tries(
    job: BuildJob,
    facts: BuildFacts,
    world: spec_fn(BlockPos) -> Option<BlockKind>,
    found: spec_fn(BlockKind) -> Seq<BlockPos>,
    distances: spec_fn(BlockPos) -> Measure,
    step: BuildStep,
)
    requires
        tries_are_bounded(job.phase),
        is_build_step(job, facts, world, found, distances, step),
    ensures
        match step {
            BuildStep::Tick(tick) => mode_tries_are_bounded(tick.mode),
            BuildStep::Place { job: same, .. } => tries_are_bounded(same.phase),
        },
{
}

/// Placing a block that has a try left leaves it tried at most three times.
pub proof fn placing_bounds_the_tries(
    job: BuildJob,
    structure: Structure,
    next_index: usize,
    placement_attempts: u8,
    facts: PlaceFacts,
    world: spec_fn(BlockPos) -> Option<BlockKind>,
    distances: spec_fn(BlockPos) -> Measure,
    tick: BuildTick,
)
    requires
        tries_are_bounded(job.phase),
        job.phase == placing(structure, next_index as int, placement_attempts as int, false),
        is_placing_step(
            job,
            structure,
            next_index,
            placement_attempts,
            facts,
            world,
            distances,
            tick,
        ),
    ensures
        mode_tries_are_bounded(tick.mode),
{
}

/// While it waits for a block to appear, the bot goes on to the next one only once the world shows
/// it, and nothing of the structure changes.
pub proof fn blocks_are_confirmed_in_turn(
    job: BuildJob,
    structure: Structure,
    next_index: usize,
    placement_attempts: u8,
    actual: Option<BlockKind>,
    expected: Option<BlockKind>,
    is_mining: bool,
    tick: BuildTick,
)
    requires
        next_index < structure.blocks@.len() <= usize::MAX,
        is_confirmation_step(
            job,
            structure,
            next_index,
            placement_attempts,
            actual,
            expected,
            is_mining,
            tick,
        ),
    ensures
        tick.mode matches BotMode::Building(next) ==> (next.phase matches
            BuildPhase::PlacingBlocks { structure: s, next_index: i, .. } && s == structure && (i
            == next_index || (i == next_index + 1 && actual is Some && actual == expected))),
        actual is Some && actual == expected ==> (tick.mode matches BotMode::Building(next)
            && next.phase == placing(structure, next_index + 1, 0, false)),
{
}

/// The bot uses the item in its hand only from beside a safe stance and against a solid block that
/// touches the place of the block.
pub proof fn blocks_are_placed_safely(
    job: BuildJob,
    structure: Structure,
    next_index: usize,
    placement_attempts: u8,
    facts: PlaceFacts,
    world: spec_fn(BlockPos) -> Option<BlockKind>,
    distances: spec_fn(BlockPos) -> Measure,
    tick: BuildTick,
)
    requires
        is_placing_step(
            job,
            structure,
            next_index,
            placement_attempts,
            facts,
            world,
            distances,
            tick,
        ),
        support_search_fits(place_of(job.origin, structure.blocks@[next_index as int])),
        tick.actions@.contains(Action::UseItem),
    ensures
        ({
            let target = place_of(job.origin, structure.blocks@[next_index as int]);
            &&& facts.bot_block != target
            &&& exists|stance: BlockPos, support: BlockPos|
                {
                    &&& #[trigger] is_safe_stance(passable_in(world), target, job.origin, stance)
                    &&& !must_navigate(facts.bot_block, target, distances(stance))
                    &&& !(#[trigger] passable_in(world)(support))
                    &&& is_beside(support, target) || support == offset(target, 0, -1, 0)
                }
        }),
{
    let target = place_of(job.origin, structure.blocks@[next_index as int]);
    best_stance_is_safe_and_nearest(passable_in(world), target, job.origin, placing_heights(), 0);
    let stance = best_stance(passable_in(world), target, job.origin, placing_heights())->0;
    best_support_is_solid_and_touches(passable_in(world), target, stance, target);
    let support = best_support(passable_in(world), target, stance)->0;
    assert(is_safe_stance(passable_in(world), target, job.origin, stance));
    assert(!passable_in(world)(support));
}

/// Whatever answers the bot is given, it uses the item in its hand only where it does not stand in
/// the way, was told that the stance near it is safe, and was told that the block against which it
/// places is solid and touches the place of the block.
pub proof fn blocks_are_placed_on_what_is_told<
    B: Fn(BlockPos) -> Option<BlockKind>,
    D: Fn(BlockPos) -> Measure,
>(
    job: BuildJob,
    structure: Structure,
    next_index: usize,
    placement_attempts: u8,
    facts: PlaceFacts,
    block_at: B,
    distance_to: D,
    tick: BuildTick,
)
    requires
        is_told_placing_step(
            job,
            structure,
            next_index,
            placement_attempts,
            facts,
            block_at,
            distance_to,
            tick,
        ),
        tick.actions@.contains(Action::UseItem),
    ensures
        ({
            let target = place_of(job.origin, structure.blocks@[next_index as int]);
            &&& facts.bot_block != target
            &&& exists|stance: BlockPos, support: BlockPos|
                {
                    &&& #[trigger] is_told_stance(
                        told_by(block_at),
                        target,
                        job.origin,
                        placing_heights(),
                        stance,
                    )
                    &&& #[trigger] is_told_support(told_by(block_at), target, support)
                }
        }),
{
}

/// Whatever answers the bot is given, a step of building keeps the number, the description and the
/// origin of the construction, or the bot is idle.
pub proof fn builds_keep_their_work<
    B: Fn(BlockPos) -> Option<BlockKind>,
    D: Fn(BlockPos) -> Measure,
    F: Fn(BlockKind) -> Vec<BlockPos>,
>(
    job: BuildJob,
    facts: BuildFacts,
    block_at: B,
    distance_to: D,
    find_blocks: F,
    step: BuildStep,
)
    requires
        is_told_build_step(job, facts, block_at, distance_to, find_blocks, step),
    ensures
        match step {
            BuildStep::Tick(tick) => tick.mode is Idle || (tick.mode matches BotMode::Building(next)
                && same_work(job, next)),
            BuildStep::Place { job: same, .. } => same == job,
        },
{
}

/// As it places blocks, the bot passes over a block only where no stance beside it is safe.
pub proof fn only_unreachable_blocks_are_passed_over(
    job: BuildJob,
    structure: Structure,
    next_index: usize,
    placement_attempts: u8,
    facts: PlaceFacts,
    world: spec_fn(BlockPos) -> Option<BlockKind>,
    distances: spec_fn(BlockPos) -> Measure,
    tick: BuildTick,
    k: int,
)
    requires
        next_index < structure.blocks@.len() <= usize::MAX,
        job.phase == placing(structure, next_index as int, placement_attempts as int, false),
        is_placing_step(
            job,
            structure,
            next_index,
            placement_attempts,
            facts,
            world,
            distances,
            tick,
        ),
        tick.mode matches BotMode::Building(next) && next.phase matches BuildPhase::PlacingBlocks {
            next_index: i,
            ..
        } && i != next_index,
        0 <= k < 8,
    ensures
        ({
            let target = place_of(job.origin, structure.blocks@[next_index as int]);
            !is_safe_stance(
                passable_in(world),
                target,
                job.origin,
                stance_candidate(target, placing_heights(), k),
            )
        }),
{
    let target = place_of(job.origin, structure.blocks@[next_index as int]);
    best_stance_is_safe_and_nearest(passable_in(world), target, job.origin, placing_heights(), k);
}

/// A build ends, with a report, where a material that it collects has run out.
pub proof fn builds_end_where_a_material_runs_out(
    job: BuildJob,
    structure: Structure,
    missing: Seq<(String, u32)>,
    collecting: CollectJob,
    facts: BuildFacts,
    world: spec_fn(BlockPos) -> Option<BlockKind>,
    found: spec_fn(BlockKind) -> Seq<BlockPos>,
    distances: spec_fn(BlockPos) -> Measure,
    outcome: CollectTickOutcome,
    tick: BuildTick,
)
    requires
        is_gathering_step(
            job,
            structure,
            missing,
            Some(collecting),
            facts,
            world,
            found,
            distances,
            tick,
        ),
        is_collect_outcome(collecting, facts.collect, world, found, distances, outcome),
        outcome is ExhaustedTargets,
    ensures
        outcome matches CollectTickOutcome::ExhaustedTargets { collected, requested, name }
            && is_over(tick, exhausted_message(collected, requested, name@)),
{
}

/// A build that goes on is still collecting what it was collecting, or has gathered enough of it.
pub proof fn materials_are_gathered_in_full(
    job: BuildJob,
    structure: Structure,
    missing: Seq<(String, u32)>,
    collecting: CollectJob,
    facts: BuildFacts,
    world: spec_fn(BlockPos) -> Option<BlockKind>,
    found: spec_fn(BlockKind) -> Seq<BlockPos>,
    distances: spec_fn(BlockPos) -> Measure,
    tick: BuildTick,
)
    requires
        is_gathering_step(
            job,
            structure,
            missing,
            Some(collecting),
            facts,
            world,
            found,
            distances,
            tick,
        ),
        tick.mode is Building,
    ensures
        collected_so_far(collecting, facts.collect.inventory@) >= collecting.requested_count || (
        tick.mode matches BotMode::Building(next) && next.phase matches
            BuildPhase::CollectingResources { active_job: Some(active), .. } && active.target
            == collecting.target && active.requested_count == collecting.requested_count
            && active.baseline_count == collecting.baseline_count),
{
}

/// Placing starts just when no material is left to take up and none is being collected. A material
/// that is no block or no item is not collected, and placing does not wait for it.
pub proof fn placing_starts_once_no_material_is_left(
    structure: Structure,
    missing: Seq<(String, u32)>,
    active: Option<CollectJob>,
    phase: BuildPhase,
)
    requires
        is_gathering_phase(structure, missing, active, phase),
    ensures
        phase is PlacingBlocks <==> missing.len() == 0 && active is None,
        phase is CollectingResources <==> missing.len() > 0 || active is Some,
{
}

/// A block stands just as far from the origin as its offset says, on every axis, so that no two
/// blocks with different offsets stand in the same place.
pub proof fn blocks_stand_at_their_offsets(origin: BlockPos, a: BlockEntry, b: BlockEntry)
    requires
        place_fits(origin, a),
        place_fits(origin, b),
    ensures
        place_of(origin, a).x - origin.x == a.x,
        place_of(origin, a).y - origin.y == a.y,
        place_of(origin, a).z - origin.z == a.z,
        place_of(origin, a) == place_of(origin, b) ==> a.x == b.x && a.y == b.y && a.z == b.z,
{
}

/// A place near enough to its origin has coordinates that an `i32` holds.
pub proof fn ordinary_structures_fit(origin: BlockPos, entry: BlockEntry)
    requires
        -30_000_000 <= origin.x <= 30_000_000,
        -30_000_000 <= origin.y <= 30_000_000,
        -30_000_000 <= origin.z <= 30_000_000,
        -30_000_000 <= entry.x <= 30_000_000,
        -30_000_000 <= entry.y <= 30_000_000,
        -30_000_000 <= entry.z <= 30_000_000,
    ensures
        place_fits(origin, entry),
{
}

/// A block is placed where it belongs: as soon as the bot stands within a block and a half of a
/// safe stance for it and not in its way, and a solid block touches its place, the bot looks midway
/// between that place, which lies at the block's offset from the origin, and a solid block that
/// touches it and is as near to the stance as any, and uses the item in its hand. It then waits for
/// the block, with one try more. Distances are given by the bits of numbers that are not negative.
pub proof fn reachable_blocks_are_placed(
    job: BuildJob,
    structure: Structure,
    next_index: usize,
    placement_attempts: u8,
    facts: PlaceFacts,
    world: spec_fn(BlockPos) -> Option<BlockKind>,
    distances: spec_fn(BlockPos) -> Measure,
    tick: BuildTick,
    target: BlockPos,
    stance: BlockPos,
    solid: BlockPos,
)
    requires
        is_placing_step(
            job,
            structure,
            next_index,
            placement_attempts,
            facts,
            world,
            distances,
            tick,
        ),
        next_index < structure.blocks@.len(),
        placement_attempts < 255,
        target.x - job.origin.x == structure.blocks@[next_index as int].x,
        target.y - job.origin.y == structure.blocks@[next_index as int].y,
        target.z - job.origin.z == structure.blocks@[next_index as int].z,
        support_search_fits(target),
        best_stance(passable_in(world), target, job.origin, seq![0i32, -1i32]) == Some(stance),
        distances(stance).bits <= 0x3FF8_0000_0000_0000,
        facts.bot_block != target,
        !passable_in(world)(solid),
        (is_one_step_off(solid, target) && solid.y == target.y) || (solid.x == target.x && solid.z
            == target.z && target.y - solid.y == 1),
    ensures
        tick.chat is None,
        tick.errand is Nothing,
        tick.mode matches BotMode::Building(next) && same_work(job, next) && (next.phase matches
            BuildPhase::PlacingBlocks {
            structure: s,
            next_index: i,
            placement_attempts: tries,
            waiting_for_confirmation: true,
        } && s == structure && i == next_index && tries == placement_attempts + 1),
        tick.actions@.len() == 2,
        tick.actions@[1] is UseItem,
        tick.actions@[0] matches Action::LookAt(Place::Point(point)) && exists|support: BlockPos|
            {
                &&& !(#[trigger] passable_in(world)(support))
                &&& (is_one_step_off(support, target) && support.y == target.y) || (support.x
                    == target.x && support.z == target.z && target.y - support.y == 1)
                &&& distance_sq(support, stance) <= distance_sq(solid, stance)
                &&& point.x2 == support.x + target.x + 1
                &&& point.y2 == support.y + target.y + 1
                &&& point.z2 == support.z + target.z + 1
            },
{
    assert(placing_heights() =~= seq![0i32, -1i32]);
    assert(place_of(job.origin, structure.blocks@[next_index as int]) == target);
    solid_supports_are_found(passable_in(world), target, stance, solid);
    let support = best_support(passable_in(world), target, stance)->0;
    assert(!passable_in(world)(support));
}

/// Before it places a block the bot goes to the middle of the safe stance for it, where it stands
/// in the block's way or more than a block and a half from the stance, unless a path is being
/// calculated or walked: to within half a block where it stands in the way, else to within a block.
/// Nothing else changes meanwhile.
pub proof fn the_bot_goes_to_where_it_can_place(
    job: BuildJob,
    structure: Structure,
    next_index: usize,
    placement_attempts: u8,
    facts: PlaceFacts,
    world: spec_fn(BlockPos) -> Option<BlockKind>,
    distances: spec_fn(BlockPos) -> Measure,
    tick: BuildTick,
    target: BlockPos,
    stance: BlockPos,
)
    requires
        is_placing_step(
            job,
            structure,
            next_index,
            placement_attempts,
            facts,
            world,
            distances,
            tick,
        ),
        next_index < structure.blocks@.len(),
        target.x - job.origin.x == structure.blocks@[next_index as int].x,
        target.y - job.origin.y == structure.blocks@[next_index as int].y,
        target.z - job.origin.z == structure.blocks@[next_index as int].z,
        best_stance(passable_in(world), target, job.origin, seq![0i32, -1i32]) == Some(stance),
        facts.bot_block == target || 0x3FF8_0000_0000_0000 < distances(stance).bits
            <= 0x7FF0_0000_0000_0000,
    ensures
        tick.chat is None,
        tick.errand is Nothing,
        tick.mode matches BotMode::Building(next) && same_work(job, next) && next.phase
            == job.phase,
        facts.calculating_path || facts.executing_path ==> tick.actions@.len() == 0,
        !facts.calculating_path && !facts.executing_path ==> tick.actions@.len() == 1 && (
        tick.actions@[0] matches Action::Goto { place: Place::Point(point), radius_halves, opts }
            && point.x2 == 2 * stance.x + 1 && point.y2 == 2 * stance.y + 1 && point.z2 == 2
            * stance.z + 1 && radius_halves == (if facts.bot_block == target {
            1int
        } else {
            2
        }) && !opts.retry_on_no_path && opts.timeout_secs == 1),
{
    assert(placing_heights() =~= seq![0i32, -1i32]);
    assert(place_of(job.origin, structure.blocks@[next_index as int]) == target);
}

/// Where nothing solid touches the place of a block that the bot could place, the build is over,
/// and the bot says which block it is and where it belongs. Where there is no safe stance the bot
/// goes on with the next block, from its first try.
pub proof fn blocks_need_a_stance_and_a_support(
    job: BuildJob,
    structure: Structure,
    next_index: usize,
    placement_attempts: u8,
    facts: PlaceFacts,
    world: spec_fn(BlockPos) -> Option<BlockKind>,
    distances: spec_fn(BlockPos) -> Measure,
    tick: BuildTick,
    target: BlockPos,
)
    requires
        is_placing_step(
            job,
            structure,
            next_index,
            placement_attempts,
            facts,
            world,
            distances,
            tick,
        ),
        next_index < structure.blocks@.len() <= usize::MAX,
        target.x - job.origin.x == structure.blocks@[next_index as int].x,
        target.y - job.origin.y == structure.blocks@[next_index as int].y,
        target.z - job.origin.z == structure.blocks@[next_index as int].z,
        support_search_fits(target),
    ensures
        best_stance(passable_in(world), target, job.origin, seq![0i32, -1i32]) is None ==> {
            &&& tick.mode matches BotMode::Building(next) && same_work(job, next) && (next.phase
                matches BuildPhase::PlacingBlocks {
                structure: s,
                next_index: i,
                placement_attempts: 0,
                waiting_for_confirmation: false,
            } && s == structure && i == next_index + 1)
            &&& tick.actions@.len() == 0
            &&& tick.chat is None
        },
        best_stance(passable_in(world), target, job.origin, seq![0i32, -1i32]) matches Some(stance)
            ==> facts.bot_block != target && distances(stance).bits <= 0x3FF8_0000_0000_0000 && (
        forall|block: BlockPos|
            (is_one_step_off(block, target) && block.y == target.y) || (block.x == target.x
                && block.z == target.z && target.y - block.y == 1) ==> #[trigger] passable_in(
                world,
            )(block)) ==> {
            &&& tick.mode is Idle
            &&& tick.actions@.len() == 1 && tick.actions@[0] is StopPathfinding
            &&& tick.chat matches Some(text) && text@ == "Build failed: no support block available for "@
                + structure.blocks@[next_index as int].block@ + " at "@ + signed_decimal(
                target.x as int,
            ) + ","@ + signed_decimal(target.y as int) + ","@ + signed_decimal(target.z as int)
                + "."@
        },
{
    assert(placing_heights() =~= seq![0i32, -1i32]);
    assert(place_of(job.origin, structure.blocks@[next_index as int]) == target);
    if let Some(stance) = best_stance(passable_in(world), target, job.origin, placing_heights()) {
        supports_are_solid(passable_in(world), target, stance);
        if let Some(support) = best_support(passable_in(world), target, stance) {
            assert(!passable_in(world)(support));
        }
    }
}

/// A block is confirmed where it belongs: once its place, at its offset from the origin, holds the
/// right kind of block, the bot goes on with the next block. Else, after three tries, the build is
/// over and the bot says which block it is and where it belongs; before that it tries again, and
/// mines what stands in the place where that is not air.
pub proof fn blocks_are_confirmed_in_place(
    job: BuildJob,
    facts: BuildFacts,
    world: spec_fn(BlockPos) -> Option<BlockKind>,
    found: spec_fn(BlockKind) -> Seq<BlockPos>,
    distances: spec_fn(BlockPos) -> Measure,
    step: BuildStep,
    structure: Structure,
    next_index: usize,
    placement_attempts: u8,
    target: BlockPos,
)
    requires
        is_build_step(job, facts, world, found, distances, step),
        job.phase == (BuildPhase::PlacingBlocks {
            structure,
            next_index,
            placement_attempts,
            waiting_for_confirmation: true,
        }),
        next_index < structure.blocks@.len() <= usize::MAX,
        target.x - job.origin.x == structure.blocks@[next_index as int].x,
        target.y - job.origin.y == structure.blocks@[next_index as int].y,
        target.z - job.origin.z == structure.blocks@[next_index as int].z,
    ensures
        step matches BuildStep::Tick(tick) && {
            let right = world(target) is Some && world(target) == facts.block_kind;
            &&& tick.errand is Nothing
            &&& right ==> {
                &&& tick.mode matches BotMode::Building(next) && same_work(job, next) && (next.phase
                    matches BuildPhase::PlacingBlocks {
                    structure: s,
                    next_index: i,
                    placement_attempts: 0,
                    waiting_for_confirmation: false,
                } && s == structure && i == next_index + 1)
                &&& tick.actions@.len() == 0
                &&& tick.chat is None
            }
            &&& !right && placement_attempts < 3 ==> {
                &&& tick.mode matches BotMode::Building(next) && same_work(job, next) && (next.phase
                    matches BuildPhase::PlacingBlocks {
                    structure: s,
                    next_index: i,
                    placement_attempts: tries,
                    waiting_for_confirmation: false,
                } && s == structure && i == next_index && tries == placement_attempts)
                &&& tick.chat is None
                &&& world(target) is None || world(target) == Some(BlockKind::Air)
                    ==> tick.actions@.len() == 0
                &&& world(target) is Some && world(target) != Some(BlockKind::Air)
                    && !facts.is_mining ==> tick.actions@.len() == 2 && (tick.actions@[0] matches
                    Action::LookAt(Place::Point(point)) && point.x2 == 2 * target.x + 1 && point.y2
                    == 2 * target.y + 1 && point.z2 == 2 * target.z + 1) && tick.actions@[1]
                    == Action::StartMining(target)
                &&& world(target) is Some && world(target) != Some(BlockKind::Air)
                    && facts.is_mining ==> tick.actions@.len() == 1 && tick.actions@[0] is LookAt
            }
            &&& !right && placement_attempts >= 3 ==> {
                &&& tick.mode is Idle
                &&& tick.actions@.len() == 1 && tick.actions@[0] is StopPathfinding
                &&& tick.chat matches Some(text) && text@ == "Build failed: couldn't place "@
                    + structure.blocks@[next_index as int].block@ + " at "@ + signed_decimal(
                    target.x as int,
                ) + ","@ + signed_decimal(target.y as int) + ","@ + signed_decimal(
                    target.z as int,
                ) + " after 3 attempts. Aborting."@
            }
        },
{
    assert(place_of(job.origin, structure.blocks@[next_index as int]) == target);
}

/// When the last block has been dealt with, the build is over, and the bot says what it has built;
/// before that, and while it does not wait for a block, it goes on to place the next one, with the
/// item for it in its hand where it has one.
pub proof fn builds_go_on_to_the_last_block(
    job: BuildJob,
    facts: BuildFacts,
    world: spec_fn(BlockPos) -> Option<BlockKind>,
    found: spec_fn(BlockKind) -> Seq<BlockPos>,
    distances: spec_fn(BlockPos) -> Measure,
    step: BuildStep,
    structure: Structure,
    next_index: usize,
    placement_attempts: u8,
    waiting: bool,
)
    requires
        is_build_step(job, facts, world, found, distances, step),
        job.phase == (BuildPhase::PlacingBlocks {
            structure,
            next_index,
            placement_attempts,
            waiting_for_confirmation: waiting,
        }),
    ensures
        next_index >= structure.blocks@.len() ==> (step matches BuildStep::Tick(tick) && tick.mode
            is Idle && tick.actions@.len() == 1 && tick.actions@[0] is StopPathfinding
            && tick.errand is Nothing && (tick.chat matches Some(text) && text@
            == "Finished building "@ + job.description@ + "."@)),
        next_index < structure.blocks@.len() && !waiting ==> (step matches BuildStep::Place {
            job: same,
            plan,
        } && same == job && match facts.item_kind {
            None => plan is None,
            Some(kind) => is_equip_plan(
                facts.collect.hand.slots@,
                facts.collect.hand.hotbar,
                facts.collect.hand.selected,
                Wanted::Item(kind),
                plan,
            ),
        }),
{
}

/// A scan sends the bot to every chest, once; until its result is there the bot waits, and then
/// asks for a structure with what the chests and its own slots hold together.
pub proof fn scans_count_chests_and_slots(
    job: BuildJob,
    facts: BuildFacts,
    world: spec_fn(BlockPos) -> Option<BlockKind>,
    found: spec_fn(BlockKind) -> Seq<BlockPos>,
    distances: spec_fn(BlockPos) -> Measure,
    step: BuildStep,
    chests: Vec<BlockPos>,
    spawned: bool,
)
    requires
        is_build_step(job, facts, world, found, distances, step),
        job.phase == (BuildPhase::ScanningChests { chests, spawned }),
    ensures
        step matches BuildStep::Tick(tick) && {
            &&& tick.actions@.len() == 0
            &&& tick.chat is None
            &&& !spawned ==> (tick.errand matches Errand::ScanChests(list) && list@ == chests@)
            &&& spawned ==> tick.errand is Nothing
            &&& tick.mode matches BotMode::Building(next) && same_work(job, next) && match facts.scanned {
                None => next.phase matches BuildPhase::ScanningChests { chests: c, spawned: true }
                    && c == chests,
                Some(counts) => next.phase matches BuildPhase::WaitingForLlm {
                    inventory,
                    spawned: false,
                } && forall|id: Seq<char>| #[trigger]
                    count_in(inventory@, id) == count_in(counts@, id) + amount_in_slots(
                        facts.own_slots@,
                        id,
                    ),
            }
        },
{
    if let Some(counts) = facts.scanned {
        let inventory = with_slots(counts@, facts.own_slots@)->0;
        assert forall|id: Seq<char>| #[trigger] count_in(inventory, id) == count_in(counts@, id)
            + amount_in_slots(facts.own_slots@, id) by {
            added_contents_add_up(counts@, facts.own_slots@, id);
        }
    }
}

/// A structure is asked for once, with the description and what there is to build from; until it
/// comes the bot waits. When it has come, all that is missing is collected first, each material
/// with what is lacking of it; where nothing is lacking its blocks are placed, from the lowest up
/// and from the first. Where none comes the build is over, and the bot says why.
pub proof fn structures_are_asked_for_and_begun(
    job: BuildJob,
    facts: BuildFacts,
    world: spec_fn(BlockPos) -> Option<BlockKind>,
    found: spec_fn(BlockKind) -> Seq<BlockPos>,
    distances: spec_fn(BlockPos) -> Measure,
    step: BuildStep,
    inventory: ItemCounts,
    spawned: bool,
)
    requires
        is_build_step(job, facts, world, found, distances, step),
        job.phase == (BuildPhase::WaitingForLlm { inventory, spawned }),
    ensures
        step matches BuildStep::Tick(tick) && {
            &&& !spawned ==> (tick.errand matches Errand::AskLlm { description, inventory: known }
                && description == job.description && known.items() == inventory.items())
            &&& spawned ==> tick.errand is Nothing
            &&& match facts.reply {
                None => tick.actions@.len() == 0 && tick.chat is None && (tick.mode matches
                    BotMode::Building(next) && same_work(job, next) && next.phase == (
                BuildPhase::WaitingForLlm { inventory, spawned: true })),
                Some(Ok(structure)) => tick.actions@.len() == 0 && tick.chat is None && (tick.mode
                    matches BotMode::Building(next) && same_work(job, next) && if forall|i: int|
                    0 <= i < structure.materials.items().len() ==> (
                    #[trigger] structure.materials.items()[i]).1 <= count_in(
                        inventory@,
                        structure.materials.items()[i].0,
                    ) {
                    next.phase matches BuildPhase::PlacingBlocks {
                        structure: sorted,
                        next_index: 0,
                        placement_attempts: 0,
                        waiting_for_confirmation: false,
                    } && is_sorted_by_y(structure.blocks@, sorted.blocks@) && sorted.materials
                        == structure.materials
                } else {
                    next.phase matches BuildPhase::CollectingResources {
                        structure: s,
                        missing,
                        active_job: None,
                    } && s == structure && item_views(missing@) == missing_of(
                        structure.materials.items(),
                        inventory@,
                    )
                }),
                Some(Err(error)) => tick.mode is Idle && tick.actions@.len() == 1
                    && tick.actions@[0] is StopPathfinding && (tick.chat matches Some(text)
                    && text@ == "Build failed: LLM error — "@ + error@ + "."@),
            }
        },
{
    if let Some(Ok(structure)) = facts.reply {
        nothing_missing_iff_stocked(structure.materials.items(), inventory@);
    }
}

/// The next missing material is taken up where none is being collected and its name is that of a
/// block and of an item: just as much of it is collected as is missing, of just that block and
/// item, counted from what the bot carries of it, with a way back to the origin. The others stay
/// in the queue.
pub proof fn missing_materials_are_taken_up_in_turn(
    missing: Seq<(String, u32)>,
    block: BlockKind,
    item: ItemKind,
    origin: BlockPos,
    inventory: Seq<ItemStack>,
    still_missing: Seq<(String, u32)>,
    active: Option<CollectJob>,
)
    requires
        missing.len() > 0,
        is_taken_up(
            missing,
            None,
            Some(block),
            Some(item),
            origin,
            inventory,
            still_missing,
            active,
        ),
    ensures
        still_missing.len() == missing.len() - 1,
        forall|i: int|
            0 <= i < still_missing.len() ==> #[trigger] still_missing[i] == missing[i + 1],
        active matches Some(job) && {
            &&& job.requested_count == missing[0].1
            &&& job.target.source_blocks@.len() == 1 && job.target.source_blocks@[0] == block
            &&& job.target.counted_items@.len() == 1 && job.target.counted_items@[0] == item
            &&& !job.target.prefer_near_last_mined
            &&& job.baseline_count == inventory_count(job.target, inventory)
            &&& job.phase is Searching
            &&& job.last_mined_block is None
            &&& job.return_anchor == origin
            &&& "minecraft:"@ + job.target.name@ == missing[0].0@ || job.target.name@
                == missing[0].0@
        },
{
    let name = missing[0].0@;
    if ("minecraft:"@).is_prefix_of(name) {
        assert("minecraft:"@ + name.skip("minecraft:"@.len() as int) =~= name);
    }
    let job = active->0;
    assert(job.target.counted_items@ =~= seq![item]);
}

/// A material that is already being collected stays the one, and the queue stays as it is; one
/// whose name is not that of a block and of an item is passed over, and only that one.
pub proof fn materials_in_hand_are_kept(
    missing: Seq<(String, u32)>,
    active_job: Option<CollectJob>,
    block: Option<BlockKind>,
    item: Option<ItemKind>,
    origin: BlockPos,
    inventory: Seq<ItemStack>,
    still_missing: Seq<(String, u32)>,
    active: Option<CollectJob>,
)
    requires
        is_taken_up(missing, active_job, block, item, origin, inventory, still_missing, active),
    ensures
        active_job is Some ==> still_missing == missing && active == active_job,
        active_job is None && missing.len() == 0 ==> still_missing.len() == 0 && active is None,
        active_job is None && missing.len() > 0 && (block is None || item is None)
            ==> still_missing.len() == missing.len() - 1 && active is None,
{
}

/// A step of collecting a material does to it what a step of a collection does: the same actions,
/// the same block to mine, the same material afterwards. It is dropped once there is enough of it,
/// and then, or where there is nothing to collect, placing starts if the queue is empty.
pub proof fn gathering_is_collecting(
    job: BuildJob,
    structure: Structure,
    missing: Seq<(String, u32)>,
    collecting: CollectJob,
    facts: BuildFacts,
    world: spec_fn(BlockPos) -> Option<BlockKind>,
    found: spec_fn(BlockKind) -> Seq<BlockPos>,
    distances: spec_fn(BlockPos) -> Measure,
    outcome: CollectTickOutcome,
    tick: BuildTick,
)
    requires
        is_gathering_step(
            job,
            structure,
            missing,
            Some(collecting),
            facts,
            world,
            found,
            distances,
            tick,
        ),
        is_collect_outcome(collecting, facts.collect, world, found, distances, outcome),
        !(outcome is ExhaustedTargets),
    ensures
        tick.chat is None,
        tick.actions@ == collect_actions(collecting, facts.collect, world, found, distances),
        block_to_mine(collecting, facts.collect, world) is None ==> tick.errand is Nothing,
        block_to_mine(collecting, facts.collect, world) matches Some(block) ==> (tick.errand matches
            Errand::Mine(step) && step.block == block),
        tick.mode matches BotMode::Building(next) && same_work(job, next) && match outcome {
            CollectTickOutcome::Continue(later) => next.phase matches
                BuildPhase::CollectingResources { structure: s, missing: m, active_job: Some(a) }
                && s == structure && m@ == missing && a == later,
            _ => if missing.len() > 0 {
                next.phase matches BuildPhase::CollectingResources {
                    structure: s,
                    missing: m,
                    active_job: None,
                } && s == structure && m@ == missing
            } else {
                next.phase matches BuildPhase::PlacingBlocks {
                    structure: sorted,
                    next_index: 0,
                    placement_attempts: 0,
                    waiting_for_confirmation: false,
                } && is_sorted_by_y(structure.blocks@, sorted.blocks@) && sorted.materials
                    == structure.materials
            },
        },
{
}

/// What one more block adds to those within a radius: itself, at the end, where its squared
/// distance from the origin is at most that of the radius, and else nothing.
pub proof fn every_block_is_measured(
    blocks: Seq<BlockPos>,
    block: BlockPos,
    origin: BlockPos,
    radius_sq: int,
)
    ensures
        within(Seq::empty(), origin, radius_sq) == Seq::<BlockPos>::empty(),
        ({
            let dx = block.x - origin.x;
            let dy = block.y - origin.y;
            let dz = block.z - origin.z;
            within(blocks.push(block), origin, radius_sq) == if dx * dx + dy * dy + dz * dz
                <= radius_sq {
                within(blocks, origin, radius_sq).push(block)
            } else {
                within(blocks, origin, radius_sq)
            }
        }),
{
    assert(blocks.push(block).drop_last() =~= blocks);
    distance_is_by_pythagoras(
        origin,
        block,
        block.x - origin.x,
        block.y - origin.y,
        block.z - origin.z,
    );
    distance_is_symmetric(block, origin);
}

/// A block within the radius is listed as often as it was found, and one beyond it never.
pub proof fn near_blocks_are_listed_as_often_as_found(
    blocks: Seq<BlockPos>,
    origin: BlockPos,
    radius_sq: int,
    block: BlockPos,
)
    ensures
        within(blocks, origin, radius_sq).to_multiset().count(block) == if distance_sq(block, origin)
            <= radius_sq {
            blocks.to_multiset().count(block)
        } else {
            0
        },
    decreases blocks.len(),
{
    if blocks.len() == 0 {
        blocks.to_multiset_ensures();
        within(blocks, origin, radius_sq).to_multiset_ensures();
        assert(!blocks.contains(block));
        assert(!within(blocks, origin, radius_sq).contains(block));
    } else {
        let front = blocks.drop_last();
        let last = blocks.last();
        near_blocks_are_listed_as_often_as_found(front, origin, radius_sq, block);
        assert(front.push(last) =~= blocks);
        front.to_multiset_ensures();
        within(front, origin, radius_sq).to_multiset_ensures();
    }
}

/// Every chest within fifteen blocks of the origin is scanned, plain or trapped, as often as it was
/// found, and no other block is. `chests` are those that a build looks for.
pub proof fn every_near_chest_is_scanned(
    found: spec_fn(BlockKind) -> Seq<BlockPos>,
    origin: BlockPos,
    chests: Seq<BlockPos>,
    chest: BlockPos,
)
    requires
        chests == within(found_in_turn(chest_kinds(), found), origin, 225),
    ensures
        distance_sq(chest, origin) <= 15 * 15 ==> chests.to_multiset().count(chest) == found(
            BlockKind::Chest,
        ).to_multiset().count(chest) + found(BlockKind::TrappedChest).to_multiset().count(chest),
        distance_sq(chest, origin) > 15 * 15 ==> chests.to_multiset().count(chest) == 0,
{
    let none = Seq::<BlockPos>::empty();
    let plain = found(BlockKind::Chest);
    let trapped = found(BlockKind::TrappedChest);
    reveal_with_fuel(found_in_turn, 3);
    assert(chest_kinds().drop_last() =~= seq![BlockKind::Chest]);
    assert(seq![BlockKind::Chest].drop_last() =~= Seq::<BlockKind>::empty());
    assert(found_in_turn(chest_kinds(), found) =~= plain + trapped);
    near_blocks_are_listed_as_often_as_found(plain + trapped, origin, 225, chest);
    vstd::seq_lib::lemma_multiset_commutative(plain, trapped);
}

/// The same, of chests that were listed one kind after the other by answers that need not fit
/// together.
pub proof fn every_listed_chest_is_scanned<F: Fn(BlockKind) -> Vec<BlockPos>>(
    find_blocks: F,
    origin: BlockPos,
    radius_sq: int,
    chests: Seq<BlockPos>,
) -> (lists: (Seq<BlockPos>, Seq<BlockPos>))
    requires
        are_chests_within(find_blocks, origin, radius_sq, chests),
    ensures
        exists|answer: Vec<BlockPos>| #[trigger]
            call_ensures(find_blocks, (BlockKind::Chest,), answer) && answer@ == lists.0,
        exists|answer: Vec<BlockPos>| #[trigger]
            call_ensures(find_blocks, (BlockKind::TrappedChest,), answer) && answer@ == lists.1,
        forall|chest: BlockPos| #[trigger]
            chests.to_multiset().count(chest) == if distance_sq(chest, origin) <= radius_sq {
                lists.0.to_multiset().count(chest) + lists.1.to_multiset().count(chest)
            } else {
                0
            },
{
    let (plain, trapped) = choose|plain: Seq<BlockPos>, trapped: Seq<BlockPos>|
        {
            &&& #[trigger] was_listed(find_blocks, BlockKind::Chest, plain)
            &&& #[trigger] was_listed(find_blocks, BlockKind::TrappedChest, trapped)
            &&& chests == within(plain + trapped, origin, radius_sq)
        };
    assert forall|chest: BlockPos| #[trigger]
        chests.to_multiset().count(chest) == if distance_sq(chest, origin) <= radius_sq {
        plain.to_multiset().count(chest) + trapped.to_multiset().count(chest)
    } else {
        0
    } by {
        near_blocks_are_listed_as_often_as_found(plain + trapped, origin, radius_sq, chest);
        vstd::seq_lib::lemma_multiset_commutative(plain, trapped);
    }
    (plain, trapped)
}

/// The name that is looked up for a step is that of the material to take up next, where none is
/// being collected, or of the block to place next, without the `minecraft:` in front.
pub proof fn names_are_looked_up_without_their_namespace(job: BuildJob, name: Seq<char>)
    ensures
        job.phase matches BuildPhase::CollectingResources { missing, active_job, .. } && active_job
            is None && missing@.len() > 0 && missing@[0].0@ == "minecraft:"@ + name
            ==> name_to_look_up(job) == Some(name),
        job.phase matches BuildPhase::PlacingBlocks { structure, next_index, .. } && next_index
            < structure.blocks@.len() && structure.blocks@[next_index as int].block@
            == "minecraft:"@ + name ==> name_to_look_up(job) == Some(name),
        job.phase is ScanningChests || job.phase is WaitingForLlm ==> name_to_look_up(job) is None,
{
    prefixes_come_off("minecraft:"@, name);
}

} // verus!
