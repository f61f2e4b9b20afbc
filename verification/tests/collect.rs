use std::cell::Cell;
use std::collections::HashMap;

use third_principles_bot::actions::{collect_pathfinder_opts, Action, Place};
use third_principles_bot::collect::{
    checked_inventory_count, collect_tick_inner, current_inventory_count, is_collect_drop,
    mining_actions, mining_in_range, CollectFacts, CollectJob, CollectTick, CollectTickOutcome, MineStep, NearbyDrop,
};
use third_principles_bot::counts::ItemStack;
use third_principles_bot::equip::{equip_succeeded, Hand, ToolEquipPlan};
use third_principles_bot::geometry::{BlockPos, EntityId, HalfPoint};
use third_principles_bot::kinds::{BlockKind, ItemKind};
use third_principles_bot::measure::Measure;
use third_principles_bot::targets::{
    block_is_collect_target, find_collect_candidates, CollectPhase, CollectTarget,
};

fn measure(value: f64) -> Measure {
    Measure::from_bits(value.to_bits())
}

fn pos(x: i32, y: i32, z: i32) -> BlockPos {
    BlockPos::new(x, y, z)
}

fn stack(kind: ItemKind, count: i32) -> ItemStack {
    ItemStack { kind, count }
}

fn facts() -> CollectFacts {
    CollectFacts {
        inventory: vec![],
        hand: Hand {
            slots: vec![None; 46],
            hotbar: 36..=44,
            selected: 0,
        },
        bot_block: pos(0, 64, 0),
        calculating_path: false,
        nearest_drop: None,
    }
}

fn job(phase: CollectPhase) -> CollectJob {
    let mut job = CollectJob::new(CollectTarget::wood(), 3, pos(0, 64, 0));
    job.baseline_count = 1;
    job.phase = phase;
    job
}

/// A floor at height 63 around a tree of two logs at (3, 64, 0), and a log high up at (9, 80, 0).
fn world() -> HashMap<BlockPos, BlockKind> {
    let mut blocks = HashMap::new();
    for x in -2..=12 {
        for z in -3..=3 {
            blocks.insert(pos(x, 63, z), BlockKind::Stone);
            for y in 64..=82 {
                blocks.insert(pos(x, y, z), BlockKind::Air);
            }
        }
    }
    blocks.insert(pos(3, 64, 0), BlockKind::OakLog);
    blocks.insert(pos(3, 65, 0), BlockKind::OakLog);
    blocks.insert(pos(9, 80, 0), BlockKind::BirchLog);
    blocks
}

fn tick(
    job: CollectJob,
    facts: &CollectFacts,
    world: &HashMap<BlockPos, BlockKind>,
    distance: f64,
) -> CollectTick {
    collect_tick_inner(
        job,
        facts,
        &|p: BlockPos| world.get(&p).copied(),
        &|_: BlockPos| measure(distance),
        &|kind: BlockKind| {
            let mut found: Vec<BlockPos> = world
                .iter()
                .filter(|(_, k)| **k == kind)
                .map(|(p, _)| *p)
                .collect();
            found.sort_by_key(|p| (p.y, p.x, p.z));
            found
        },
    )
}

fn next(tick: CollectTick) -> CollectJob {
    match tick.outcome {
        CollectTickOutcome::Continue(job) => job,
        other => panic!("the collection should go on: {other:?}"),
    }
}

fn center(p: BlockPos) -> Place {
    Place::Point(HalfPoint {
        x2: 2 * i64::from(p.x) + 1,
        y2: 2 * i64::from(p.y) + 1,
        z2: 2 * i64::from(p.z) + 1,
    })
}

#[test]
fn enough_items_end_a_collection() {
    let mut facts = facts();
    facts.inventory = vec![stack(ItemKind::OakLog, 4), stack(ItemKind::Cobblestone, 9)];
    let tick = tick(job(CollectPhase::Looting), &facts, &world(), 9.0);
    assert!(matches!(
        tick.outcome,
        CollectTickOutcome::Done { collected: 3, ref name } if name == "wood"
    ));
    assert_eq!(tick.actions, [Action::StopPathfinding]);
    assert_eq!(tick.mine, None);
}

#[test]
fn a_search_finds_the_lowest_log_of_the_nearest_tree() {
    let tick = tick(job(CollectPhase::Searching), &facts(), &world(), 9.0);
    assert!(tick.actions.is_empty());
    let job = next(tick);
    assert_eq!(job.phase, CollectPhase::MovingToBlock(pos(3, 64, 0)));
    assert_eq!(job.active_block_target, Some(pos(3, 64, 0)));
    assert_eq!(job.active_stance_target, Some(pos(2, 64, 0)));
    assert_eq!(job.target, CollectTarget::wood());
    assert_eq!(job.requested_count, 3);
    assert_eq!(job.baseline_count, 1);
}

#[test]
fn a_search_without_safe_blocks_ends_a_collection() {
    let mut world = world();
    world.remove(&pos(3, 64, 0));
    world.remove(&pos(3, 65, 0));
    let mut facts = facts();
    facts.inventory = vec![stack(ItemKind::BirchLog, 2)];
    let tick = tick(job(CollectPhase::Searching), &facts, &world, 9.0);
    assert!(matches!(
        tick.outcome,
        CollectTickOutcome::ExhaustedTargets { collected: 1, requested: 3, ref name } if name == "wood"
    ));
    assert_eq!(tick.actions, [Action::StopPathfinding]);
}

#[test]
fn the_bot_goes_to_its_stance_and_mines() {
    let block = pos(3, 64, 0);
    let stance = pos(2, 64, 0);
    let moving = || job(CollectPhase::MovingToBlock(block));

    let far = tick(moving(), &facts(), &world(), 1.6);
    assert_eq!(
        far.actions,
        [Action::Goto {
            place: center(stance),
            radius_halves: 2,
            opts: collect_pathfinder_opts(),
        }]
    );
    let after = next(far);
    assert_eq!(after.phase, CollectPhase::MovingToBlock(block));
    assert_eq!(after.active_stance_target, Some(stance));

    let mut busy = facts();
    busy.calculating_path = true;
    let waiting = tick(moving(), &busy, &world(), 1.6);
    assert!(waiting.actions.is_empty());
    assert_eq!(next(waiting), moving());

    let near = tick(moving(), &facts(), &world(), 1.5);
    assert_eq!(near.actions, [Action::StopPathfinding]);
    let after = next(near);
    assert_eq!(after.phase, CollectPhase::Mining(block));
    assert_eq!(after.active_stance_target, Some(stance));
}

#[test]
fn a_block_that_is_gone_leads_back_to_the_search() {
    let mut moving = job(CollectPhase::MovingToBlock(pos(5, 64, 0)));
    moving.active_block_target = Some(pos(5, 64, 0));
    moving.active_stance_target = Some(pos(4, 64, 0));
    let tick = tick(moving, &facts(), &world(), 9.0);
    assert!(tick.actions.is_empty());
    assert_eq!(next(tick), job(CollectPhase::Searching));
}

#[test]
fn mining_waits_for_the_tool() {
    let block = pos(3, 64, 0);
    let mut facts = facts();
    facts.hand.slots[40] = Some(ItemKind::StoneAxe);
    let with_axe = tick(job(CollectPhase::Mining(block)), &facts, &world(), 1.0);
    let plan = Some(ToolEquipPlan::SelectHotbar { hotbar_index: 4 });
    assert_eq!(with_axe.mine, Some(MineStep { block, plan }));
    assert!(with_axe.actions.is_empty());
    assert_eq!(next(with_axe), job(CollectPhase::Mining(block)));

    assert!(equip_succeeded(plan, false));
    assert!(mining_actions(block, true, false).is_empty());
    assert_eq!(
        mining_actions(block, false, false),
        [Action::LookAt(center(block)), Action::StartMining(block)]
    );
    assert_eq!(
        mining_actions(block, false, true),
        [Action::LookAt(center(block))]
    );
    let moved = Some(ToolEquipPlan::MoveToSelectedHotbar {
        source_slot: 9,
        hotbar_slot: 36,
        hotbar_index: 0,
    });
    assert!(equip_succeeded(moved, true));
    assert!(!equip_succeeded(moved, false));
    assert!(!equip_succeeded(None, true));
}

#[test]
fn a_mined_block_leads_to_its_drops() {
    let block = pos(5, 64, 0);
    let tick = tick(job(CollectPhase::Mining(block)), &facts(), &world(), 1.0);
    assert_eq!(tick.mine, None);
    let job = next(tick);
    assert_eq!(job.phase, CollectPhase::Looting);
    assert_eq!(job.last_mined_block, Some(block));
    assert_eq!(job.active_block_target, None);
}

#[test]
fn drops_are_picked_up() {
    let entity = EntityId { bits: 8 };
    let mut facts = facts();
    let looting = || job(CollectPhase::Looting);
    assert_eq!(
        next(tick(looting(), &facts, &world(), 1.0)),
        job(CollectPhase::Searching)
    );
    facts.nearest_drop = Some(NearbyDrop {
        entity,
        distance: measure(4.0),
    });
    let far = tick(looting(), &facts, &world(), 1.0);
    assert_eq!(
        far.actions,
        [Action::Goto {
            place: Place::Entity(entity),
            radius_halves: 3,
            opts: collect_pathfinder_opts(),
        }]
    );
    assert_eq!(next(far), looting());
    facts.nearest_drop = Some(NearbyDrop {
        entity,
        distance: measure(1.5),
    });
    let near = tick(looting(), &facts, &world(), 1.0);
    assert_eq!(near.actions, [Action::StopPathfinding]);
    assert_eq!(next(near), job(CollectPhase::Searching));
}

#[test]
fn only_counted_items_nearby_are_drops() {
    let wood = CollectTarget::wood();
    assert!(is_collect_drop(&wood, ItemKind::OakLog, None));
    assert!(is_collect_drop(&wood, ItemKind::OakLog, Some(measure(8.0))));
    assert!(!is_collect_drop(&wood, ItemKind::OakLog, Some(measure(8.1))));
    assert!(!is_collect_drop(&wood, ItemKind::Cobblestone, None));
}

#[test]
fn an_inventory_is_counted_by_kind() {
    let wood = CollectTarget::wood();
    let inventory = vec![
        stack(ItemKind::OakLog, 64),
        stack(ItemKind::Cobblestone, 5),
        stack(ItemKind::PaleOakLog, 1),
        stack(ItemKind::OakLog, -3),
    ];
    assert_eq!(current_inventory_count(&wood, &inventory), 65);
    assert_eq!(checked_inventory_count(&wood, &inventory), Some(65));
    let plenty = vec![stack(ItemKind::OakLog, i32::MAX); 3];
    assert_eq!(checked_inventory_count(&wood, &plenty), None);
}

#[test]
fn candidates_come_kind_by_kind() {
    let mut target = CollectTarget::exact("two", BlockKind::Stone, ItemKind::Cobblestone);
    target.source_blocks.push(BlockKind::Deepslate);
    let found = |kind: BlockKind| match kind {
        BlockKind::Stone => vec![pos(9, 1, 1), pos(1, 1, 1)],
        BlockKind::Deepslate => vec![pos(5, 1, 1)],
        _ => vec![],
    };
    assert_eq!(
        find_collect_candidates(&target, &found),
        [pos(9, 1, 1), pos(1, 1, 1), pos(5, 1, 1)]
    );
    assert!(block_is_collect_target(&target, Some(BlockKind::Deepslate)));
    assert!(!block_is_collect_target(&target, Some(BlockKind::Air)));
    assert!(!block_is_collect_target(&target, None));
}

#[test]
fn near_logs_are_taken_before_those_near_the_bot() {
    let mut world = world();
    world.insert(pos(-1, 64, 2), BlockKind::SpruceLog);
    let mut searching = job(CollectPhase::Searching);
    searching.last_mined_block = Some(pos(4, 64, 1));
    let job = next(tick(searching, &facts(), &world, 1.0));
    assert_eq!(job.phase, CollectPhase::MovingToBlock(pos(3, 64, 0)));
}

#[test]
fn a_world_that_changes_does_not_change_the_order() {
    let asked = Cell::new(0u32);
    let fickle = |p: BlockPos| {
        asked.set(asked.get() + 1);
        if asked.get() % 2 == 0 {
            None
        } else {
            world().get(&p).copied()
        }
    };
    let before = job(CollectPhase::Mining(pos(3, 64, 0)));
    for _ in 0..2 {
        let tick = collect_tick_inner(
            before.clone(),
            &facts(),
            &fickle,
            &|_: BlockPos| measure(9.0),
            &|_: BlockKind| vec![],
        );
        match tick.outcome {
            CollectTickOutcome::Continue(next) => {
                assert_eq!(next.target, before.target);
                assert_eq!(next.requested_count, 3);
                assert_eq!(next.baseline_count, 1);
                assert_eq!(next.return_anchor, pos(0, 64, 0));
                assert_eq!(next.last_mined_block.is_some(), next.phase == CollectPhase::Looting);
                assert_eq!(tick.mine.is_some(), next.phase == before.phase);
            }
            other => panic!("the collection should go on: {other:?}"),
        }
    }
    assert_eq!(asked.get(), 2);
}

#[test]
fn blocks_at_the_edge_of_the_world_have_no_room() {
    assert!(mining_in_range(pos(3, 64, 0), pos(0, 64, 0)));
    assert!(!mining_in_range(pos(i32::MAX, 64, 0), pos(0, 64, 0)));
    assert!(!mining_in_range(pos(3, i32::MAX, 0), pos(0, 64, 0)));
}
