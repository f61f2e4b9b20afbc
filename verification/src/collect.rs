//! Collecting: from the search for a block to the item in the inventory.

use crate::actions::{collect_pathfinder_opts, one_try, Action, Place};
use crate::counts::{
    count_in_stacks, every_stack_counts, is_counted, matching_total, stack_amounts, ItemStack,
};
use crate::equip::{is_equip_plan, Hand, ToolEquipPlan, Wanted};
use crate::geometry::{distance_sq, BlockPos, EntityId};
use crate::kinds::{
    block_prefers_pickaxe, overworld_log_blocks, BlockKind, ItemKind, PreferredTool,
};
use crate::measure::{Measure, EIGHT, ONE_AND_A_HALF};
use crate::stance::{
    best_stance, best_stance_is_safe_and_nearest, is_safe_stance, is_told_stance,
    stance_search_fits, stance_search_in_range,
};
use crate::targets::{
    block_is_collect_target, blocks_near_the_last_one_come_first, choose_safe_collect_target,
    chosen_blocks_are_nearest_to_the_bot, chosen_blocks_have_their_stance,
    find_collect_candidates, found_blocks_are_of_the_kinds, found_in_turn, gained, is_normalized,
    is_source_block, joined, lowest_by_column_is_unique, next_safe_block, normalized,
    preferred_tool, preferred_tool_for_collect_target, reports_found, reports_stances,
    the_tool_suits_every_block, was_found, were_listed, CollectPhase, CollectTarget,
};
use crate::world::{choose_world_safe_action_stance, passable_in, reports_blocks, told_by};
use vstd::prelude::*;
use vstd::string::*;

verus! {

/// A collection under way.
#[derive(Clone, Debug, PartialEq, Eq)]
pub struct CollectJob {
    pub target: CollectTarget,
    pub requested_count: u32,
    pub baseline_count: u32,
    pub phase: CollectPhase,
    pub active_block_target: Option<BlockPos>,
    pub active_stance_target: Option<BlockPos>,
    pub last_mined_block: Option<BlockPos>,
    pub return_anchor: BlockPos,
}

impl CollectJob {
    /// A collection that is about to search for its first block.
    pub fn new(target: CollectTarget, requested_count: u32, return_anchor: BlockPos) -> (job:
        CollectJob)
        ensures
            job == (CollectJob {
                target,
                requested_count,
                baseline_count: 0,
                phase: CollectPhase::Searching,
                active_block_target: None,
                active_stance_target: None,
                last_mined_block: None,
                return_anchor,
            }),
    {
        CollectJob {
            target,
            requested_count,
            baseline_count: 0,
            phase: CollectPhase::Searching,
            active_block_target: None,
            active_stance_target: None,
            last_mined_block: None,
            return_anchor,
        }
    }
}

/// How many items of a target an inventory holds.
pub open spec fn inventory_count(target: CollectTarget, inventory: Seq<ItemStack>) -> int {
    matching_total(target.counted_items@, stack_amounts(inventory))
}

/// How many items of a target an inventory holds; `None` where that is more than a `u32` holds.
pub fn checked_inventory_count(target: &CollectTarget, inventory: &Vec<ItemStack>) -> (count: Option<
    u32,
>)
    ensures
        count is Some <==> inventory_count(*target, inventory@) <= u32::MAX,
        count matches Some(n) ==> n == inventory_count(*target, inventory@),
{
    count_in_stacks(&target.counted_items, inventory)
}

/// How many items of a target an inventory holds.
pub fn current_inventory_count(target: &CollectTarget, inventory: &Vec<ItemStack>) -> (count: u32)
    requires
        inventory_count(*target, inventory@) <= u32::MAX,
    ensures
        count == inventory_count(*target, inventory@),
{
    match checked_inventory_count(target, inventory) {
        Some(count) => count,
        None => 0,
    }
}

/// Whether an item on the ground is worth picking up: it counts, and it lies within eight blocks
/// of the block mined last, where one has been mined.
pub open spec fn is_drop(
    target: CollectTarget,
    item: ItemKind,
    distance_to_last_mined: Option<Measure>,
) -> bool {
    target.counted_items@.contains(item) && (distance_to_last_mined matches Some(d)
        ==> d.at_most_spec(Measure { bits: EIGHT }))
}

/// Whether an item on the ground is worth picking up.
pub fn is_collect_drop(
    target: &CollectTarget,
    item: ItemKind,
    distance_to_last_mined: Option<Measure>,
) -> (r: bool)
    ensures
        r == is_drop(*target, item, distance_to_last_mined),
{
    is_counted(&target.counted_items, item) && match distance_to_last_mined {
        Some(d) => d.at_most(Measure { bits: EIGHT }),
        None => true,
    }
}

/// What came of one step of a collection.
#[derive(Debug)]
pub enum CollectTickOutcome {
    Continue(CollectJob),
    Done { collected: u32, name: String },
    ExhaustedTargets { collected: u32, requested: u32, name: String },
}

/// An item on the ground that is worth picking up, and how far it is from the bot.
#[derive(Clone, Copy, Debug, PartialEq, Eq, Structural)]
pub struct NearbyDrop {
    pub entity: EntityId,
    pub distance: Measure,
}

/// What the bot knows of itself and of its surroundings as a step begins.
#[derive(Debug)]
pub struct CollectFacts {
    pub inventory: Vec<ItemStack>,
    pub hand: Hand,
    pub bot_block: BlockPos,
    pub calculating_path: bool,
    pub nearest_drop: Option<NearbyDrop>,
}

/// Every answer of `distance_to` is the one that `distances` gives.
pub open spec fn reports_distances<D: Fn(BlockPos) -> Measure>(
    distance_to: D,
    distances: spec_fn(BlockPos) -> Measure,
) -> bool {
    forall|pos: BlockPos, answer: Measure|
        #[trigger] call_ensures(distance_to, (pos,), answer) ==> answer == distances(pos)
}

/// A block that is to be mined, and how to get the tool for it into the hand.
#[derive(Clone, Copy, Debug, PartialEq, Eq, Structural)]
pub struct MineStep {
    pub block: BlockPos,
    pub plan: Option<ToolEquipPlan>,
}

/// One step of a collection: what became of the job, what to do, and what to mine. Mining goes on
/// once the tool is dealt with, see `mining_actions`.
#[derive(Debug)]
pub struct CollectTick {
    pub outcome: CollectTickOutcome,
    pub actions: Vec<Action>,
    pub mine: Option<MineStep>,
}

/// How many items a job has brought in so far.
pub open spec fn collected_so_far(job: CollectJob, inventory: Seq<ItemStack>) -> int {
    gained(inventory_count(job.target, inventory), job.baseline_count as int)
}

/// The heights at which a bot stands to mine a block, against the block's own.
pub open spec fn mining_heights() -> Seq<i32> {
    seq![1i32, 0i32]
}

/// The places in a world from which to mine a block, where the way back leads to `anchor`.
pub open spec fn mining_stances(
    world: spec_fn(BlockPos) -> Option<BlockKind>,
    anchor: BlockPos,
) -> spec_fn(BlockPos) -> Option<BlockPos> {
    |block: BlockPos| best_stance(passable_in(world), block, anchor, mining_heights())
}

/// The block that a search finds, with the stance to mine it from.
pub open spec fn search_result(
    job: CollectJob,
    bot_block: BlockPos,
    world: spec_fn(BlockPos) -> Option<BlockKind>,
    found: spec_fn(BlockKind) -> Seq<BlockPos>,
) -> Option<(BlockPos, BlockPos)> {
    next_safe_block(
        normalized(
            found_in_turn(job.target.source_blocks@, found),
            job.target.prefer_near_last_mined,
        ),
        bot_block,
        job.return_anchor,
        job.last_mined_block,
        job.target.prefer_near_last_mined,
        mining_stances(world, job.return_anchor),
    )
}

/// Both jobs collect the same: as much of the same target, counted from the same number, with the
/// same way back.
pub open spec fn is_same_order(a: CollectJob, b: CollectJob) -> bool {
    &&& a.target == b.target
    &&& a.requested_count == b.requested_count
    &&& a.baseline_count == b.baseline_count
    &&& a.return_anchor == b.return_anchor
}

/// The job back at the search, with no block in view.
pub open spec fn back_to_search(job: CollectJob) -> CollectJob {
    CollectJob {
        active_block_target: None,
        active_stance_target: None,
        phase: CollectPhase::Searching,
        ..job
    }
}

/// A path to within a block of a stance.
pub open spec fn goto_stance(stance: BlockPos) -> Action {
    Action::Goto {
        place: Place::Point(stance.center_spec()),
        radius_halves: 2,
        opts: one_try(1),
    }
}

/// A path to an item on the ground.
pub open spec fn goto_drop(drop: NearbyDrop) -> Action {
    Action::Goto { place: Place::Entity(drop.entity), radius_halves: 3, opts: one_try(1) }
}

/// Close enough: within a block and a half.
pub open spec fn is_close(distance: Measure) -> bool {
    distance.at_most_spec(Measure { bits: ONE_AND_A_HALF })
}

/// `outcome` is what becomes of a job in one step.
pub open spec fn is_collect_outcome(
    job: CollectJob,
    facts: CollectFacts,
    world: spec_fn(BlockPos) -> Option<BlockKind>,
    found: spec_fn(BlockKind) -> Seq<BlockPos>,
    distances: spec_fn(BlockPos) -> Measure,
    outcome: CollectTickOutcome,
) -> bool {
    let collected = collected_so_far(job, facts.inventory@);
    if collected >= job.requested_count {
        outcome matches CollectTickOutcome::Done { collected: c, name } && c == collected && name
            == job.target.name
    } else {
        match job.phase {
            CollectPhase::Searching => match search_result(job, facts.bot_block, world, found) {
                None => outcome matches CollectTickOutcome::ExhaustedTargets {
                    collected: c,
                    requested,
                    name,
                } && c == collected && requested == job.requested_count && name == job.target.name,
                Some((block, stance)) => outcome == CollectTickOutcome::Continue(
                    CollectJob {
                        active_block_target: Some(block),
                        active_stance_target: Some(stance),
                        phase: CollectPhase::MovingToBlock(block),
                        ..job
                    },
                ),
            },
            CollectPhase::MovingToBlock(block) => {
                let stance = mining_stances(world, job.return_anchor)(block);
                outcome == CollectTickOutcome::Continue(
                    if !is_source_block(job.target, world(block)) || stance is None {
                        back_to_search(job)
                    } else if is_close(distances(stance->0)) {
                        CollectJob {
                            active_stance_target: stance,
                            phase: CollectPhase::Mining(block),
                            ..job
                        }
                    } else if !facts.calculating_path {
                        CollectJob { active_stance_target: stance, ..job }
                    } else {
                        job
                    },
                )
            },
            CollectPhase::Mining(block) => outcome == CollectTickOutcome::Continue(
                if !is_source_block(job.target, world(block)) {
                    CollectJob {
                        last_mined_block: Some(block),
                        active_block_target: None,
                        active_stance_target: None,
                        phase: CollectPhase::Looting,
                        ..job
                    }
                } else {
                    job
                },
            ),
            CollectPhase::Looting => outcome == CollectTickOutcome::Continue(
                match facts.nearest_drop {
                    Some(drop) if !is_close(drop.distance) => job,
                    _ => CollectJob { phase: CollectPhase::Searching, ..job },
                },
            ),
        }
    }
}

/// What the bot does at once in one step of a job.
pub open spec fn collect_actions(
    job: CollectJob,
    facts: CollectFacts,
    world: spec_fn(BlockPos) -> Option<BlockKind>,
    found: spec_fn(BlockKind) -> Seq<BlockPos>,
    distances: spec_fn(BlockPos) -> Measure,
) -> Seq<Action> {
    if collected_so_far(job, facts.inventory@) >= job.requested_count {
        seq![Action::StopPathfinding]
    } else {
        match job.phase {
            CollectPhase::Searching => match search_result(job, facts.bot_block, world, found) {
                None => seq![Action::StopPathfinding],
                Some(_) => seq![],
            },
            CollectPhase::MovingToBlock(block) => {
                let stance = mining_stances(world, job.return_anchor)(block);
                if !is_source_block(job.target, world(block)) || stance is None {
                    seq![]
                } else if is_close(distances(stance->0)) {
                    seq![Action::StopPathfinding]
                } else if !facts.calculating_path {
                    seq![goto_stance(stance->0)]
                } else {
                    seq![]
                }
            },
            CollectPhase::Mining(_) => seq![],
            CollectPhase::Looting => match facts.nearest_drop {
                None => seq![],
                Some(drop) => if is_close(drop.distance) {
                    seq![Action::StopPathfinding]
                } else if !facts.calculating_path {
                    seq![goto_drop(drop)]
                } else {
                    seq![]
                },
            },
        }
    }
}

/// The block that the bot goes on to mine in one step of a job.
pub open spec fn block_to_mine(
    job: CollectJob,
    facts: CollectFacts,
    world: spec_fn(BlockPos) -> Option<BlockKind>,
) -> Option<BlockPos> {
    if collected_so_far(job, facts.inventory@) >= job.requested_count {
        None
    } else {
        match job.phase {
            CollectPhase::Mining(block) if is_source_block(job.target, world(block)) => Some(block),
            _ => None,
        }
    }
}

/// `plan` is the way to get the tool for a target into the hand, where it has one.
pub open spec fn is_collect_tool_plan(
    target: CollectTarget,
    hand: Hand,
    plan: Option<ToolEquipPlan>,
) -> bool {
    match preferred_tool(target.source_blocks@) {
        None => plan is None,
        Some(tool) => hand.is_plan(Wanted::Tool(tool), plan),
    }
}

/// How to get the tool for a target into the hand.
pub fn plan_collect_tool(target: &CollectTarget, hand: &Hand) -> (plan: Option<ToolEquipPlan>)
    requires
        hand.fits(),
    ensures
        is_collect_tool_plan(*target, *hand, plan),
{
    match preferred_tool_for_collect_target(target) {
        None => None,
        Some(tool) => hand.plan(Wanted::Tool(tool)),
    }
}

/// What the bot does to mine a block: nothing yet where a tool has just come into the hand, else
/// it looks at the block and begins to mine it, where it does not mine already.
pub open spec fn mining(block: BlockPos, equipped: bool, is_mining: bool) -> Seq<Action> {
    if equipped {
        seq![]
    } else if is_mining {
        seq![Action::LookAt(Place::Point(block.center_spec()))]
    } else {
        seq![Action::LookAt(Place::Point(block.center_spec())), Action::StartMining(block)]
    }
}

/// What the bot does to mine a block once the tool has been dealt with.
pub fn mining_actions(block: BlockPos, equipped: bool, is_mining: bool) -> (actions: Vec<Action>)
    ensures
        actions@ == mining(block, equipped, is_mining),
{
    let mut actions: Vec<Action> = Vec::new();
    if !equipped {
        actions.push(Action::LookAt(Place::Point(block.center())));
        if !is_mining {
            actions.push(Action::StartMining(block));
        }
    }
    assert(actions@ =~= mining(block, equipped, is_mining));
    actions
}

/// Where a step of the job looks for a stance, the blocks that it asks about have coordinates
/// that an `i32` holds.
pub open spec fn collect_fits<F: Fn(BlockKind) -> Vec<BlockPos>>(
    job: CollectJob,
    find_blocks: F,
) -> bool {
    match job.phase {
        CollectPhase::Searching => forall|pos: BlockPos| #[trigger]
            was_found(find_blocks, pos) ==> stance_search_fits(
                pos,
                job.return_anchor,
                mining_heights(),
            ),
        CollectPhase::MovingToBlock(block) => stance_search_fits(
            block,
            job.return_anchor,
            mining_heights(),
        ),
        _ => true,
    }
}

/// Whether the search for a stance to mine a block from asks only about blocks with coordinates
/// that an `i32` holds.
pub fn mining_in_range(block: BlockPos, anchor: BlockPos) -> (r: bool)
    ensures
        r == stance_search_fits(block, anchor, mining_heights()),
{
    let heights = heights_for_mining();
    stance_search_in_range(block, anchor, heights.as_slice())
}

/// The search gave `block`, which is among the blocks to mine as they were found, with a stance
/// that the bot was told is safe.
pub open spec fn is_told_find<
    B: Fn(BlockPos) -> Option<BlockKind>,
    F: Fn(BlockKind) -> Vec<BlockPos>,
>(job: CollectJob, block_at: B, find_blocks: F, block: BlockPos, stance: BlockPos) -> bool {
    &&& is_told_stance(told_by(block_at), block, job.return_anchor, mining_heights(), stance)
    &&& exists|lists: Seq<Seq<BlockPos>>| #[trigger]
        were_listed(find_blocks, job.target.source_blocks@, lists) && normalized(
            joined(lists),
            job.target.prefer_near_last_mined,
        ).contains(block)
}

/// The job and the actions where the bot is on its way to a block that is still to be mined: it
/// mines from the stance once it is close, and goes on to it until then.
pub open spec fn is_on_the_way(
    job: CollectJob,
    facts: CollectFacts,
    block: BlockPos,
    stance: BlockPos,
    distance: Measure,
    next: CollectJob,
    actions: Seq<Action>,
) -> bool {
    if is_close(distance) {
        &&& next == (CollectJob {
            active_stance_target: Some(stance),
            phase: CollectPhase::Mining(block),
            ..job
        })
        &&& actions == seq![Action::StopPathfinding]
    } else if !facts.calculating_path {
        &&& next == (CollectJob { active_stance_target: Some(stance), ..job })
        &&& actions == seq![goto_stance(stance)]
    } else {
        next == job && actions == Seq::<Action>::empty()
    }
}

/// `tick` is one step of a job by the answers that the bot was given, which need not fit together:
/// the blocks may change from one answer to the next.
pub open spec fn is_told_collect_step<
    B: Fn(BlockPos) -> Option<BlockKind>,
    D: Fn(BlockPos) -> Measure,
    F: Fn(BlockKind) -> Vec<BlockPos>,
>(
    job: CollectJob,
    facts: CollectFacts,
    block_at: B,
    distance_to: D,
    find_blocks: F,
    tick: CollectTick,
) -> bool {
    let collected = collected_so_far(job, facts.inventory@);
    if collected >= job.requested_count {
        &&& tick.outcome matches CollectTickOutcome::Done { collected: c, name } && c == collected
            && name == job.target.name
        &&& tick.actions@ == seq![Action::StopPathfinding]
        &&& tick.mine is None
    } else {
        match job.phase {
            CollectPhase::Searching => {
                &&& tick.mine is None
                &&& match tick.outcome {
                    CollectTickOutcome::Continue(next) => {
                        &&& tick.actions@ == Seq::<Action>::empty()
                        &&& exists|block: BlockPos, stance: BlockPos|
                            {
                                &&& #[trigger] is_told_find(
                                    job,
                                    block_at,
                                    find_blocks,
                                    block,
                                    stance,
                                )
                                &&& next == (CollectJob {
                                    active_block_target: Some(block),
                                    active_stance_target: Some(stance),
                                    phase: CollectPhase::MovingToBlock(block),
                                    ..job
                                })
                            }
                    },
                    CollectTickOutcome::Done { .. } => false,
                    CollectTickOutcome::ExhaustedTargets { collected: c, requested, name } => {
                        &&& tick.actions@ == seq![Action::StopPathfinding]
                        &&& c == collected
                        &&& requested == job.requested_count
                        &&& name == job.target.name
                    },
                }
            },
            CollectPhase::MovingToBlock(block) => {
                &&& tick.mine is None
                &&& tick.outcome matches CollectTickOutcome::Continue(next) && {
                    ||| next == back_to_search(job) && tick.actions@ == Seq::<Action>::empty()
                    ||| exists|kind: Option<BlockKind>, stance: BlockPos, distance: Measure|
                        {
                            &&& #[trigger] call_ensures(block_at, (block,), kind)
                            &&& is_source_block(job.target, kind)
                            &&& is_told_stance(
                                told_by(block_at),
                                block,
                                job.return_anchor,
                                mining_heights(),
                                stance,
                            )
                            &&& #[trigger] call_ensures(distance_to, (stance,), distance)
                            &&& is_on_the_way(
                                job,
                                facts,
                                block,
                                stance,
                                distance,
                                next,
                                tick.actions@,
                            )
                        }
                }
            },
            CollectPhase::Mining(block) => {
                &&& tick.actions@ == Seq::<Action>::empty()
                &&& exists|kind: Option<BlockKind>|
                    #[trigger] call_ensures(block_at, (block,), kind) && if is_source_block(
                        job.target,
                        kind,
                    ) {
                        &&& tick.outcome == CollectTickOutcome::Continue(job)
                        &&& tick.mine matches Some(step) && step.block == block
                    } else {
                        &&& tick.outcome == CollectTickOutcome::Continue(
                            CollectJob {
                                last_mined_block: Some(block),
                                active_block_target: None,
                                active_stance_target: None,
                                phase: CollectPhase::Looting,
                                ..job
                            },
                        )
                        &&& tick.mine is None
                    }
            },
            CollectPhase::Looting => {
                &&& tick.mine is None
                &&& match facts.nearest_drop {
                    Some(drop) if !is_close(drop.distance) => {
                        &&& tick.outcome == CollectTickOutcome::Continue(job)
                        &&& tick.actions@ == if facts.calculating_path {
                            seq![]
                        } else {
                            seq![goto_drop(drop)]
                        }
                    },
                    _ => {
                        &&& tick.outcome == CollectTickOutcome::Continue(
                            CollectJob { phase: CollectPhase::Searching, ..job },
                        )
                        &&& tick.actions@ == if facts.nearest_drop is Some {
                            seq![Action::StopPathfinding]
                        } else {
                            seq![]
                        }
                    },
                }
            },
        }
    }
}

/// The heights at which a bot stands to mine a block.
fn heights_for_mining() -> (heights: Vec<i32>)
    ensures
        heights@ == mining_heights(),
{
    let heights: Vec<i32> = vec![1, 0];
    assert(heights@ =~= mining_heights());
    heights
}

/// Searches for the next block to mine and the stance to mine it from.
fn search<B: Fn(BlockPos) -> Option<BlockKind>, F: Fn(BlockKind) -> Vec<BlockPos>>(
    job: &CollectJob,
    bot_block: BlockPos,
    block_at: &B,
    find_blocks: &F,
) -> (result: Option<(BlockPos, BlockPos)>)
    requires
        forall|p: BlockPos| call_requires(*block_at, (p,)),
        forall|kind: BlockKind| call_requires(*find_blocks, (kind,)),
        forall|pos: BlockPos| #[trigger]
            was_found(*find_blocks, pos) ==> stance_search_fits(
                pos,
                job.return_anchor,
                mining_heights(),
            ),
    ensures
        forall|
            world: spec_fn(BlockPos) -> Option<BlockKind>,
            found: spec_fn(BlockKind) -> Seq<BlockPos>,
        |
            #![trigger reports_blocks(*block_at, world), reports_found(*find_blocks, found)]
            reports_blocks(*block_at, world) && reports_found(*find_blocks, found) ==> result
                == search_result(*job, bot_block, world, found),
        result matches Some((block, stance)) ==> is_told_find(
            *job,
            *block_at,
            *find_blocks,
            block,
            stance,
        ),
{
    let candidates = find_collect_candidates(&job.target, find_blocks);
    let heights = heights_for_mining();
    let anchor = job.return_anchor;
    let stance_for = |block: BlockPos| -> (stance: Option<BlockPos>)
        requires
            stance_search_fits(block, anchor, mining_heights()),
        ensures
            forall|world: spec_fn(BlockPos) -> Option<BlockKind>| #[trigger]
                reports_blocks(*block_at, world) ==> stance == best_stance(
                    passable_in(world),
                    block,
                    anchor,
                    mining_heights(),
                ),
            stance matches Some(s) ==> is_told_stance(
                told_by(*block_at),
                block,
                anchor,
                mining_heights(),
                s,
            ),
        { choose_world_safe_action_stance(block, anchor, heights.as_slice(), block_at) };
    proof {
        assert forall|world: spec_fn(BlockPos) -> Option<BlockKind>| #[trigger]
            reports_blocks(*block_at, world) implies reports_stances(
            stance_for,
            mining_stances(world, anchor),
        ) by {}
    }
    choose_safe_collect_target(
        candidates.as_slice(),
        bot_block,
        anchor,
        job.last_mined_block,
        job.target.prefer_near_last_mined,
        stance_for,
    )
}

/// One step of a collection.
pub fn collect_tick_inner<
    B: Fn(BlockPos) -> Option<BlockKind>,
    D: Fn(BlockPos) -> Measure,
    F: Fn(BlockKind) -> Vec<BlockPos>,
>(job: CollectJob, facts: &CollectFacts, block_at: &B, distance_to: &D, find_blocks: &F) -> (tick:
    CollectTick)
    requires
        facts.hand.fits(),
        inventory_count(job.target, facts.inventory@) <= u32::MAX,
        collect_fits(job, *find_blocks),
        forall|p: BlockPos| call_requires(*block_at, (p,)),
        forall|p: BlockPos| call_requires(*distance_to, (p,)),
        forall|kind: BlockKind| call_requires(*find_blocks, (kind,)),
    ensures
        forall|
            world: spec_fn(BlockPos) -> Option<BlockKind>,
            found: spec_fn(BlockKind) -> Seq<BlockPos>,
            distances: spec_fn(BlockPos) -> Measure,
        |
            #![trigger reports_blocks(*block_at, world), reports_found(*find_blocks, found), reports_distances(*distance_to, distances)]
            reports_blocks(*block_at, world) && reports_found(*find_blocks, found)
                && reports_distances(*distance_to, distances) ==> {
                &&& is_collect_outcome(job, *facts, world, found, distances, tick.outcome)
                &&& tick.actions@ == collect_actions(job, *facts, world, found, distances)
                &&& tick.mine is Some <==> block_to_mine(job, *facts, world) is Some
                &&& tick.mine matches Some(step) ==> block_to_mine(job, *facts, world) == Some(
                    step.block,
                )
            },
        is_told_collect_step(job, *facts, *block_at, *distance_to, *find_blocks, tick),
        tick.outcome is Done <==> collected_so_far(job, facts.inventory@) >= job.requested_count,
        tick.outcome matches CollectTickOutcome::Done { collected, name } ==> {
            &&& collected == collected_so_far(job, facts.inventory@)
            &&& name == job.target.name
            &&& tick.actions@ == seq![Action::StopPathfinding]
            &&& tick.mine is None
        },
        tick.outcome matches CollectTickOutcome::Continue(next) ==> is_same_order(job, next),
        tick.mine matches Some(step) ==> is_collect_tool_plan(job.target, facts.hand, step.plan),
{
    let mut actions: Vec<Action> = Vec::new();
    let current_count: u32 = current_inventory_count(&job.target, &facts.inventory);
    let collected: u32 = current_count.saturating_sub(job.baseline_count);
    if collected >= job.requested_count {
        actions.push(Action::StopPathfinding);
        assert(actions@ =~= seq![Action::StopPathfinding]);
        return CollectTick {
            outcome: CollectTickOutcome::Done { collected, name: job.target.name.clone() },
            actions,
            mine: None,
        };
    }
    let mut mine: Option<MineStep> = None;
    let next_job = match job.phase {
        CollectPhase::Searching => {
            match search(&job, facts.bot_block, block_at, find_blocks) {
                None => {
                    actions.push(Action::StopPathfinding);
                    assert(actions@ =~= seq![Action::StopPathfinding]);
                    return CollectTick {
                        outcome: CollectTickOutcome::ExhaustedTargets {
                            collected,
                            requested: job.requested_count,
                            name: job.target.name.clone(),
                        },
                        actions,
                        mine: None,
                    };
                },
                Some((block, stance)) => CollectJob {
                    active_block_target: Some(block),
                    active_stance_target: Some(stance),
                    phase: CollectPhase::MovingToBlock(block),
                    ..job
                },
            }
        },
        CollectPhase::MovingToBlock(block) => {
            let heights = heights_for_mining();
            let stance = choose_world_safe_action_stance(
                block,
                job.return_anchor,
                heights.as_slice(),
                block_at,
            );
            let is_target: bool = block_is_collect_target(&job.target, block_at(block));
            match stance {
                Some(stance_pos) if is_target => {
                    if distance_to(stance_pos).at_most(Measure { bits: ONE_AND_A_HALF }) {
                        actions.push(Action::StopPathfinding);
                        CollectJob {
                            active_stance_target: Some(stance_pos),
                            phase: CollectPhase::Mining(block),
                            ..job
                        }
                    } else if !facts.calculating_path {
                        actions.push(
                            Action::Goto {
                                place: Place::Point(stance_pos.center()),
                                radius_halves: 2,
                                opts: collect_pathfinder_opts(),
                            },
                        );
                        CollectJob { active_stance_target: Some(stance_pos), ..job }
                    } else {
                        job
                    }
                },
                _ => CollectJob {
                    active_block_target: None,
                    active_stance_target: None,
                    phase: CollectPhase::Searching,
                    ..job
                },
            }
        },
        CollectPhase::Mining(block) => {
            if !block_is_collect_target(&job.target, block_at(block)) {
                CollectJob {
                    last_mined_block: Some(block),
                    active_block_target: None,
                    active_stance_target: None,
                    phase: CollectPhase::Looting,
                    ..job
                }
            } else {
                mine = Some(MineStep { block, plan: plan_collect_tool(&job.target, &facts.hand) });
                job
            }
        },
        CollectPhase::Looting => {
            match facts.nearest_drop {
                Some(drop) => {
                    if drop.distance.at_most(Measure { bits: ONE_AND_A_HALF }) {
                        actions.push(Action::StopPathfinding);
                        CollectJob { phase: CollectPhase::Searching, ..job }
                    } else {
                        if !facts.calculating_path {
                            actions.push(
                                Action::Goto {
                                    place: Place::Entity(drop.entity),
                                    radius_halves: 3,
                                    opts: collect_pathfinder_opts(),
                                },
                            );
                        }
                        job
                    }
                },
                None => CollectJob { phase: CollectPhase::Searching, ..job },
            }
        },
    };
    CollectTick { outcome: CollectTickOutcome::Continue(next_job), actions, mine }
}

/// A collection is done exactly when at least as much has come into the inventory as was asked
/// for, whatever else the bot was doing.
pub proof fn collection_is_done_iff_enough(
    job: CollectJob,
    facts: CollectFacts,
    world: spec_fn(BlockPos) -> Option<BlockKind>,
    found: spec_fn(BlockKind) -> Seq<BlockPos>,
    distances: spec_fn(BlockPos) -> Measure,
    outcome: CollectTickOutcome,
)
    requires
        is_collect_outcome(job, facts, world, found, distances, outcome),
    ensures
        outcome is Done <==> collected_so_far(job, facts.inventory@) >= job.requested_count,
        outcome matches CollectTickOutcome::Done { collected, .. } ==> collected
            == collected_so_far(job, facts.inventory@),
        outcome matches CollectTickOutcome::ExhaustedTargets { collected, requested, .. }
            ==> collected == collected_so_far(job, facts.inventory@) && collected < requested,
{
}

/// A collection that goes on keeps what it collects, how much of it, what it counts from, and
/// where its way back leads.
pub proof fn collection_keeps_its_order(
    job: CollectJob,
    facts: CollectFacts,
    world: spec_fn(BlockPos) -> Option<BlockKind>,
    found: spec_fn(BlockKind) -> Seq<BlockPos>,
    distances: spec_fn(BlockPos) -> Measure,
    outcome: CollectTickOutcome,
)
    requires
        is_collect_outcome(job, facts, world, found, distances, outcome),
    ensures
        outcome matches CollectTickOutcome::Continue(next) ==> is_same_order(job, next),
{
}

/// Whatever answers the bot is given, a collection that goes on keeps its order. The block mined
/// last changes only where the bot was mining a block and was told that it is none of the target's
/// any more; the bot then picks up what it mined. Where it gives up a block, and where it has
/// mined one, it has no block in view.
pub proof fn collection_changes_what_it_should<
    B: Fn(BlockPos) -> Option<BlockKind>,
    D: Fn(BlockPos) -> Measure,
    F: Fn(BlockKind) -> Vec<BlockPos>,
>(
    job: CollectJob,
    facts: CollectFacts,
    block_at: B,
    distance_to: D,
    find_blocks: F,
    tick: CollectTick,
    next: CollectJob,
)
    requires
        is_told_collect_step(job, facts, block_at, distance_to, find_blocks, tick),
        tick.outcome == CollectTickOutcome::Continue(next),
    ensures
        is_same_order(job, next),
        next.last_mined_block != job.last_mined_block ==> (job.phase matches CollectPhase::Mining(
            block,
        ) && next.phase == CollectPhase::Looting && next.last_mined_block == Some(block)
            && exists|kind: Option<BlockKind>|
            #[trigger] call_ensures(block_at, (block,), kind) && !is_source_block(
                job.target,
                kind,
            )),
        job.phase is MovingToBlock && next.phase is Searching ==> next.active_block_target is None
            && next.active_stance_target is None,
        job.phase is Mining && next.phase is Looting ==> next.active_block_target is None
            && next.active_stance_target is None,
{
}

/// Whatever answers the bot is given, it sets out for a stance only where it was told that the
/// stance is safe.
pub proof fn collecting_bot_acts_on_what_it_is_told<
    B: Fn(BlockPos) -> Option<BlockKind>,
    D: Fn(BlockPos) -> Measure,
    F: Fn(BlockKind) -> Vec<BlockPos>,
>(
    job: CollectJob,
    facts: CollectFacts,
    block_at: B,
    distance_to: D,
    find_blocks: F,
    tick: CollectTick,
    k: int,
)
    requires
        is_told_collect_step(job, facts, block_at, distance_to, find_blocks, tick),
        0 <= k < tick.actions@.len(),
    ensures
        tick.actions@[k] matches Action::Goto { place: Place::Point(point), .. } ==> (job.phase matches CollectPhase::MovingToBlock(block) && exists|stance: BlockPos|
            #[trigger] is_told_stance(
                told_by(block_at),
                block,
                job.return_anchor,
                mining_heights(),
                stance,
            ) && point == stance.center_spec()),
{
}

/// Whatever answers the bot is given, it mines a block only where it was told that the block is
/// one of the target's.
pub proof fn only_told_blocks_are_mined<
    B: Fn(BlockPos) -> Option<BlockKind>,
    D: Fn(BlockPos) -> Measure,
    F: Fn(BlockKind) -> Vec<BlockPos>,
>(
    job: CollectJob,
    facts: CollectFacts,
    block_at: B,
    distance_to: D,
    find_blocks: F,
    tick: CollectTick,
)
    requires
        is_told_collect_step(job, facts, block_at, distance_to, find_blocks, tick),
    ensures
        tick.mine matches Some(step) ==> job.phase == CollectPhase::Mining(step.block) && exists|
            kind: Option<BlockKind>,
        |
            #[trigger] call_ensures(block_at, (step.block,), kind) && is_source_block(
                job.target,
                kind,
            ),
{
}

/// The phases of a collection follow one another: searching, moving, mining, looting, and
/// searching again; from moving the bot may go back to searching.
pub proof fn phases_follow_in_turn(
    job: CollectJob,
    facts: CollectFacts,
    world: spec_fn(BlockPos) -> Option<BlockKind>,
    found: spec_fn(BlockKind) -> Seq<BlockPos>,
    distances: spec_fn(BlockPos) -> Measure,
    outcome: CollectTickOutcome,
)
    requires
        is_collect_outcome(job, facts, world, found, distances, outcome),
    ensures
        outcome matches CollectTickOutcome::Continue(next) ==> match job.phase {
            CollectPhase::Searching => next.phase is MovingToBlock,
            CollectPhase::MovingToBlock(block) => next.phase == job.phase || next.phase
                == CollectPhase::Mining(block) || next.phase == CollectPhase::Searching,
            CollectPhase::Mining(block) => next.phase == job.phase || (next.phase
                == CollectPhase::Looting && next.last_mined_block == Some(block)),
            CollectPhase::Looting => next.phase == job.phase || next.phase
                == CollectPhase::Searching,
        },
        outcome is ExhaustedTargets ==> job.phase == CollectPhase::Searching,
{
}

/// Only blocks of the target are mined.
pub proof fn only_source_blocks_are_mined(
    job: CollectJob,
    facts: CollectFacts,
    world: spec_fn(BlockPos) -> Option<BlockKind>,
    block: BlockPos,
)
    requires
        block_to_mine(job, facts, world) == Some(block),
    ensures
        job.phase == CollectPhase::Mining(block),
        world(block) matches Some(kind) && job.target.source_blocks@.contains(kind),
{
}

/// The bot goes only to safe stances beside the block that it is about to mine, and to items on
/// the ground.
pub proof fn collecting_bot_goes_to_safe_stances(
    job: CollectJob,
    facts: CollectFacts,
    world: spec_fn(BlockPos) -> Option<BlockKind>,
    found: spec_fn(BlockKind) -> Seq<BlockPos>,
    distances: spec_fn(BlockPos) -> Measure,
    k: int,
)
    requires
        0 <= k < collect_actions(job, facts, world, found, distances).len(),
    ensures
        collect_actions(job, facts, world, found, distances)[k] matches Action::Goto {
            place: Place::Point(point),
            ..
        } ==> (job.phase matches CollectPhase::MovingToBlock(block) && exists|stance: BlockPos|
            #[trigger] is_safe_stance(passable_in(world), block, job.return_anchor, stance)
                && point == stance.center_spec()),
{
    if let CollectPhase::MovingToBlock(block) = job.phase {
        best_stance_is_safe_and_nearest(
            passable_in(world),
            block,
            job.return_anchor,
            mining_heights(),
            0,
        );
        if let Some(stance) = mining_stances(world, job.return_anchor)(block) {
            assert(is_safe_stance(passable_in(world), block, job.return_anchor, stance));
        }
    }
}

/// An item on the ground is picked up where it counts and no block has been mined yet, or the item
/// lies within eight blocks of the one mined last; a distance is given by the bits of a number that
/// is not negative.
pub proof fn drops_are_picked_up_nearby(target: CollectTarget, item: ItemKind, distance: Measure)
    requires
        distance.bits <= 0x7FF0_0000_0000_0000,
    ensures
        is_drop(target, item, None) <==> target.counted_items@.contains(item),
        is_drop(target, item, Some(distance)) <==> target.counted_items@.contains(item)
            && distance.bits <= 0x4020_0000_0000_0000,
{
}

/// How much has been collected is how much more there is in the inventory than at the start, of
/// all items that count and of no other; the first stack counts as every other.
pub proof fn collected_is_what_came_in(job: CollectJob, inventory: Seq<ItemStack>, stack: ItemStack)
    requires
        inventory_count(job.target, inventory) >= job.baseline_count,
    ensures
        job.baseline_count + collected_so_far(job, inventory) == inventory_count(
            job.target,
            inventory,
        ),
        job.target.counted_items@.contains(stack.kind) && stack.count > 0 ==> collected_so_far(
            job,
            inventory.push(stack),
        ) == collected_so_far(job, inventory) + stack.count,
        !job.target.counted_items@.contains(stack.kind) || stack.count <= 0 ==> collected_so_far(
            job,
            inventory.push(stack),
        ) == collected_so_far(job, inventory),
{
    every_stack_counts(
        job.target.counted_items@,
        inventory,
        stack,
        Seq::empty(),
        ItemKind::Cobblestone,
        0,
    );
}

/// A search without a preference finds a block of the target with a safe stance wherever there is
/// one, and none of them is nearer to the bot than the one it finds; of those equally near none is
/// nearer to where the way back leads. `block` is one that there is.
pub proof fn searches_find_the_nearest_block(
    job: CollectJob,
    bot_block: BlockPos,
    world: spec_fn(BlockPos) -> Option<BlockKind>,
    found: spec_fn(BlockKind) -> Seq<BlockPos>,
    i: int,
    block: BlockPos,
)
    requires
        !job.target.prefer_near_last_mined,
        0 <= i < job.target.source_blocks@.len(),
        found(job.target.source_blocks@[i]).contains(block),
        best_stance(passable_in(world), block, job.return_anchor, seq![1i32, 0i32]) is Some,
    ensures
        search_result(job, bot_block, world, found) matches Some((nearest, stance)) && {
            &&& best_stance(passable_in(world), nearest, job.return_anchor, seq![1i32, 0i32])
                == Some(stance)
            &&& exists|k: int|
                0 <= k < job.target.source_blocks@.len() && found(
                    #[trigger] job.target.source_blocks@[k],
                ).contains(nearest)
            &&& distance_sq(nearest, bot_block) <= distance_sq(block, bot_block)
            &&& distance_sq(nearest, bot_block) == distance_sq(block, bot_block) ==> distance_sq(
                nearest,
                job.return_anchor,
            ) <= distance_sq(block, job.return_anchor)
        },
{
    let kinds = job.target.source_blocks@;
    let candidates = found_in_turn(kinds, found);
    found_blocks_are_of_the_kinds(kinds, found, block);
    assert(is_normalized(candidates, false, candidates));
    assert(normalized(candidates, false) == candidates);
    let stances = mining_stances(world, job.return_anchor);
    let c = choose|c: int| 0 <= c < candidates.len() && candidates[c] == block;
    assert(stances(candidates[c]) is Some);
    chosen_blocks_are_nearest_to_the_bot(
        candidates,
        bot_block,
        job.return_anchor,
        job.last_mined_block,
        false,
        stances,
        c,
    );
    chosen_blocks_have_their_stance(
        candidates,
        bot_block,
        job.return_anchor,
        job.last_mined_block,
        false,
        stances,
    );
    let (nearest, stance) = search_result(job, bot_block, world, found)->0;
    found_blocks_are_of_the_kinds(kinds, found, nearest);
}

/// A search for logs takes trees from below: it looks at the lowest block of each column only, and
/// where one of them, with a safe stance, lies within three blocks of the one mined last, it finds
/// the nearest to that one.
pub proof fn searches_stay_with_the_tree(
    job: CollectJob,
    bot_block: BlockPos,
    world: spec_fn(BlockPos) -> Option<BlockKind>,
    found: spec_fn(BlockKind) -> Seq<BlockPos>,
    last: BlockPos,
    lowest: Seq<BlockPos>,
    i: int,
)
    requires
        job.target.prefer_near_last_mined,
        job.last_mined_block == Some(last),
        is_normalized(found_in_turn(job.target.source_blocks@, found), true, lowest),
        0 <= i < lowest.len(),
        best_stance(passable_in(world), lowest[i], job.return_anchor, seq![1i32, 0i32]) is Some,
        distance_sq(lowest[i], last) <= 9,
    ensures
        search_result(job, bot_block, world, found) matches Some((nearest, stance)) && {
            &&& lowest.contains(nearest)
            &&& best_stance(passable_in(world), nearest, job.return_anchor, seq![1i32, 0i32])
                == Some(stance)
            &&& distance_sq(nearest, last) <= distance_sq(lowest[i], last)
        },
{
    let candidates = found_in_turn(job.target.source_blocks@, found);
    lowest_by_column_is_unique(candidates, lowest, normalized(candidates, true));
    let stances = mining_stances(world, job.return_anchor);
    assert(stances(lowest[i]) is Some);
    blocks_near_the_last_one_come_first(
        lowest,
        bot_block,
        job.return_anchor,
        last,
        stances,
        i,
    );
    chosen_blocks_have_their_stance(
        lowest,
        bot_block,
        job.return_anchor,
        Some(last),
        true,
        stances,
    );
}

/// A collection that has enough is done and stops; one that has not and searches sets out for the
/// block that the search finds, with the stance for it, or ends where there is none, and stops.
pub proof fn searching_leads_to_a_block(
    job: CollectJob,
    facts: CollectFacts,
    world: spec_fn(BlockPos) -> Option<BlockKind>,
    found: spec_fn(BlockKind) -> Seq<BlockPos>,
    distances: spec_fn(BlockPos) -> Measure,
    outcome: CollectTickOutcome,
)
    requires
        is_collect_outcome(job, facts, world, found, distances, outcome),
        job.phase is Searching,
    ensures
        ({
            let collected = collected_so_far(job, facts.inventory@);
            let actions = collect_actions(job, facts, world, found, distances);
            &&& block_to_mine(job, facts, world) is None
            &&& collected >= job.requested_count ==> {
                &&& outcome matches CollectTickOutcome::Done { collected: c, name } && c
                    == collected && name == job.target.name
                &&& actions.len() == 1 && actions[0] is StopPathfinding
            }
            &&& collected < job.requested_count ==> match search_result(
                job,
                facts.bot_block,
                world,
                found,
            ) {
                None => {
                    &&& outcome matches CollectTickOutcome::ExhaustedTargets {
                        collected: c,
                        requested,
                        name,
                    } && c == collected && requested == job.requested_count && name
                        == job.target.name
                    &&& actions.len() == 1 && actions[0] is StopPathfinding
                },
                Some((block, stance)) => {
                    &&& outcome matches CollectTickOutcome::Continue(next) && next.phase
                        == CollectPhase::MovingToBlock(block) && next.active_block_target == Some(
                        block,
                    ) && next.active_stance_target == Some(stance) && next.last_mined_block
                        == job.last_mined_block
                    &&& actions.len() == 0
                },
            }
        }),
{
}

/// On its way to a block that is still one of the target's and has a safe stance, the bot begins
/// to mine once it is within a block and a half of the stance, and stops there; until then it goes
/// to within a block of the middle of the stance, unless a path is being calculated. A block that
/// is none of the target's, or has no safe stance, is given up. Distances are given by the bits of
/// numbers that are not negative.
pub proof fn moving_leads_to_mining(
    job: CollectJob,
    facts: CollectFacts,
    world: spec_fn(BlockPos) -> Option<BlockKind>,
    found: spec_fn(BlockKind) -> Seq<BlockPos>,
    distances: spec_fn(BlockPos) -> Measure,
    outcome: CollectTickOutcome,
    block: BlockPos,
)
    requires
        is_collect_outcome(job, facts, world, found, distances, outcome),
        collected_so_far(job, facts.inventory@) < job.requested_count,
        job.phase == CollectPhase::MovingToBlock(block),
        forall|p: BlockPos| (#[trigger] distances(p)).bits <= 0x7FF0_0000_0000_0000,
    ensures
        ({
            let stance = best_stance(
                passable_in(world),
                block,
                job.return_anchor,
                seq![1i32, 0i32],
            );
            let wanted = world(block) matches Some(kind) && job.target.source_blocks@.contains(kind);
            let actions = collect_actions(job, facts, world, found, distances);
            &&& block_to_mine(job, facts, world) is None
            &&& !wanted || stance is None ==> {
                &&& outcome matches CollectTickOutcome::Continue(next) && next.phase is Searching
                    && next.active_block_target is None && next.active_stance_target is None
                    && next.last_mined_block == job.last_mined_block
                &&& actions.len() == 0
            }
            &&& wanted && stance is Some && distances(stance->0).bits <= 0x3FF8_0000_0000_0000 ==> {
                &&& outcome matches CollectTickOutcome::Continue(next) && next.phase
                    == CollectPhase::Mining(block) && next.active_stance_target == stance
                    && next.active_block_target == job.active_block_target && next.last_mined_block
                    == job.last_mined_block
                &&& actions.len() == 1 && actions[0] is StopPathfinding
            }
            &&& wanted && stance is Some && distances(stance->0).bits > 0x3FF8_0000_0000_0000 ==> {
                &&& outcome matches CollectTickOutcome::Continue(next) && next.phase == job.phase
                    && next.active_block_target == job.active_block_target && next.last_mined_block
                    == job.last_mined_block
                &&& facts.calculating_path ==> actions.len() == 0
                &&& !facts.calculating_path ==> actions.len() == 1 && (actions[0] matches
                    Action::Goto { place: Place::Point(point), radius_halves, opts } && point.x2
                    == 2 * (stance->0).x + 1 && point.y2 == 2 * (stance->0).y + 1 && point.z2 == 2
                    * (stance->0).z + 1 && radius_halves == 2 && !opts.retry_on_no_path
                    && opts.timeout_secs == 1)
            }
        }),
{
    assert(mining_heights() =~= seq![1i32, 0i32]);
}

/// The bot mines a block as long as it is one of the target's, and nothing else; once it is none,
/// the bot looks for what it dropped, and remembers the block.
pub proof fn mining_leads_to_looting(
    job: CollectJob,
    facts: CollectFacts,
    world: spec_fn(BlockPos) -> Option<BlockKind>,
    found: spec_fn(BlockKind) -> Seq<BlockPos>,
    distances: spec_fn(BlockPos) -> Measure,
    outcome: CollectTickOutcome,
    block: BlockPos,
)
    requires
        is_collect_outcome(job, facts, world, found, distances, outcome),
        collected_so_far(job, facts.inventory@) < job.requested_count,
        job.phase == CollectPhase::Mining(block),
    ensures
        ({
            let wanted = world(block) matches Some(kind) && job.target.source_blocks@.contains(kind);
            &&& collect_actions(job, facts, world, found, distances).len() == 0
            &&& wanted ==> block_to_mine(job, facts, world) == Some(block) && outcome
                == CollectTickOutcome::Continue(job)
            &&& !wanted ==> block_to_mine(job, facts, world) is None && (outcome matches
                CollectTickOutcome::Continue(next) && next.phase is Looting
                && next.last_mined_block == Some(block) && next.active_block_target is None
                && next.active_stance_target is None)
        }),
{
}

/// The bot goes to an item on the ground, to within a block and a half of it, unless a path is
/// being calculated; once it is that near it stops and searches on, and so it does without an
/// item.
pub proof fn looting_leads_back_to_searching(
    job: CollectJob,
    facts: CollectFacts,
    world: spec_fn(BlockPos) -> Option<BlockKind>,
    found: spec_fn(BlockKind) -> Seq<BlockPos>,
    distances: spec_fn(BlockPos) -> Measure,
    outcome: CollectTickOutcome,
)
    requires
        is_collect_outcome(job, facts, world, found, distances, outcome),
        collected_so_far(job, facts.inventory@) < job.requested_count,
        job.phase is Looting,
        facts.nearest_drop matches Some(drop) ==> drop.distance.bits <= 0x7FF0_0000_0000_0000,
    ensures
        ({
            let actions = collect_actions(job, facts, world, found, distances);
            &&& block_to_mine(job, facts, world) is None
            &&& facts.nearest_drop is None ==> {
                &&& outcome matches CollectTickOutcome::Continue(next) && next.phase is Searching
                    && next.last_mined_block == job.last_mined_block
                &&& actions.len() == 0
            }
            &&& facts.nearest_drop is Some && facts.nearest_drop->0.distance.bits
                <= 0x3FF8_0000_0000_0000 ==> {
                &&& outcome matches CollectTickOutcome::Continue(next) && next.phase is Searching
                    && next.last_mined_block == job.last_mined_block
                &&& actions.len() == 1 && actions[0] is StopPathfinding
            }
            &&& facts.nearest_drop is Some && facts.nearest_drop->0.distance.bits
                > 0x3FF8_0000_0000_0000 ==> {
                &&& outcome == CollectTickOutcome::Continue(job)
                &&& facts.calculating_path ==> actions.len() == 0
                &&& !facts.calculating_path ==> actions.len() == 1 && (actions[0] matches
                    Action::Goto { place: Place::Entity(entity), radius_halves, opts } && entity
                    == facts.nearest_drop->0.entity && radius_halves == 3 && !opts.retry_on_no_path
                    && opts.timeout_secs == 1)
            }
        }),
{
}

/// To mine a block the bot looks at its middle and, where it does not mine already, begins to mine
/// it; where a tool has just come into its hand it does neither yet.
pub proof fn mining_is_looking_and_striking(block: BlockPos, equipped: bool, is_mining: bool)
    ensures
        equipped ==> mining(block, equipped, is_mining).len() == 0,
        !equipped ==> mining(block, equipped, is_mining).len() == if is_mining {
            1int
        } else {
            2
        },
        !equipped ==> (mining(block, equipped, is_mining)[0] matches Action::LookAt(
            Place::Point(point),
        ) && point.x2 == 2 * block.x + 1 && point.y2 == 2 * block.y + 1 && point.z2 == 2 * block.z
            + 1),
        !equipped && !is_mining ==> mining(block, equipped, is_mining)[1] == Action::StartMining(
            block,
        ),
{
}

/// For logs the bot takes an axe and for stone and ore a pickaxe, where it has one; for what is
/// neither it takes nothing.
pub proof fn the_bot_mines_with_the_right_tool(
    target: CollectTarget,
    hand: Hand,
    plan: Option<ToolEquipPlan>,
)
    requires
        is_collect_tool_plan(target, hand, plan),
        target.source_blocks@.len() > 0,
    ensures
        (forall|i: int|
            0 <= i < target.source_blocks@.len() ==> overworld_log_blocks().contains(
                #[trigger] target.source_blocks@[i],
            )) ==> is_equip_plan(
            hand.slots@,
            hand.hotbar,
            hand.selected,
            Wanted::Tool(PreferredTool::Axe),
            plan,
        ),
        (forall|i: int|
            0 <= i < target.source_blocks@.len() ==> block_prefers_pickaxe(
                #[trigger] target.source_blocks@[i],
            )) ==> is_equip_plan(
            hand.slots@,
            hand.hotbar,
            hand.selected,
            Wanted::Tool(PreferredTool::Pickaxe),
            plan,
        ),
        (exists|i: int|
            0 <= i < target.source_blocks@.len() && !overworld_log_blocks().contains(
                #[trigger] target.source_blocks@[i],
            ) && !block_prefers_pickaxe(target.source_blocks@[i])) ==> plan is None,
{
    the_tool_suits_every_block(target.source_blocks@, 0);
}

/// Answers report distances just where each of them is right.
pub proof fn right_distances_are_reported<D: Fn(BlockPos) -> Measure>(
    distance_to: D,
    distances: spec_fn(BlockPos) -> Measure,
)
    ensures
        (forall|p: BlockPos, answer: Measure|
            call_ensures(distance_to, (p,), answer) ==> answer == distances(p))
            <==> reports_distances(distance_to, distances),
{
}

} // verus!
