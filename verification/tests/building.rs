use std::collections::{HashMap, VecDeque};

use third_principles_bot::actions::{collect_pathfinder_opts, Action, Place};
use third_principles_bot::building::{
    build_tick, build_values_in_range, find_build_chests, find_nearby_chests, lookup_name,
    place_block, placing_in_range, BuildFacts, BuildJob, BuildPhase, BuildStep, BuildTick, Errand, PlaceFacts,
};
use third_principles_bot::collect::{CollectFacts, CollectJob, MineStep};
use third_principles_bot::counts::{ItemCounts, ItemStack, NamedStack};
use third_principles_bot::equip::{Hand, ToolEquipPlan};
use third_principles_bot::geometry::{BlockPos, HalfPoint};
use third_principles_bot::kinds::{BlockKind, ItemKind};
use third_principles_bot::measure::Measure;
use third_principles_bot::mode::BotMode;
use third_principles_bot::structure::{BlockEntry, Structure};
use third_principles_bot::targets::{CollectPhase, CollectTarget};

const DIRT: BlockKind = BlockKind::Other(9);
const DIRT_ITEM: ItemKind = ItemKind::Other(28);

fn measure(value: f64) -> Measure {
    Measure::from_bits(value.to_bits())
}

fn pos(x: i32, y: i32, z: i32) -> BlockPos {
    BlockPos::new(x, y, z)
}

fn counts(items: &[(&str, u32)]) -> ItemCounts {
    let mut counts = ItemCounts::new();
    for (name, count) in items {
        counts = counts.with_count((*name).to_owned(), *count);
    }
    counts
}

fn named(name: &str, count: i32) -> Option<NamedStack> {
    Some(NamedStack {
        name: name.to_owned(),
        count,
    })
}

fn entry(x: i32, y: i32, z: i32, block: &str) -> BlockEntry {
    BlockEntry {
        x,
        y,
        z,
        block: block.to_owned(),
    }
}

fn structure(blocks: Vec<BlockEntry>, materials: &[(&str, u32)]) -> Structure {
    Structure {
        blocks,
        materials: counts(materials),
    }
}

fn facts() -> BuildFacts {
    BuildFacts {
        scanned: None,
        own_slots: vec![],
        reply: None,
        block_kind: None,
        item_kind: None,
        collect: CollectFacts {
            inventory: vec![],
            hand: Hand {
                slots: vec![None; 46],
                hotbar: 36..=44,
                selected: 0,
            },
            bot_block: pos(0, 64, 0),
            calculating_path: false,
            nearest_drop: None,
        },
        is_mining: false,
    }
}

fn job(phase: BuildPhase) -> BuildJob {
    BuildJob {
        id: 7,
        description: "hut".to_owned(),
        origin: pos(0, 64, 0),
        phase,
    }
}

fn placing(attempts: u8, waiting: bool) -> BuildJob {
    job(BuildPhase::PlacingBlocks {
        structure: structure(vec![entry(2, 0, 0, "minecraft:dirt")], &[]),
        next_index: 0,
        placement_attempts: attempts,
        waiting_for_confirmation: waiting,
    })
}

/// A floor of stone at height 63 below air.
fn world() -> HashMap<BlockPos, BlockKind> {
    let mut blocks = HashMap::new();
    for x in -4..=6 {
        for z in -4..=4 {
            blocks.insert(pos(x, 63, z), BlockKind::Stone);
            for y in 64..=68 {
                blocks.insert(pos(x, y, z), BlockKind::Air);
            }
        }
    }
    blocks
}

fn step(job: BuildJob, facts: BuildFacts, world: &HashMap<BlockPos, BlockKind>) -> BuildStep {
    assert!(build_values_in_range(&job, &facts));
    build_tick(
        job,
        facts,
        &|p: BlockPos| world.get(&p).copied(),
        &|_: BlockPos| measure(9.0),
        &|kind: BlockKind| {
            world
                .iter()
                .filter(|(_, k)| **k == kind)
                .map(|(p, _)| *p)
                .collect()
        },
    )
}

fn tick(step: BuildStep) -> BuildTick {
    match step {
        BuildStep::Tick(tick) => tick,
        BuildStep::Place { .. } => panic!("the step should be over"),
    }
}

fn phase(tick: BuildTick) -> BuildPhase {
    match tick.mode {
        BotMode::Building(job) => {
            assert_eq!(job.id, 7);
            assert_eq!(job.description, "hut");
            assert_eq!(job.origin, pos(0, 64, 0));
            job.phase
        }
        other => panic!("the bot should build: {other:?}"),
    }
}

fn over(tick: &BuildTick, message: &str) {
    assert!(matches!(tick.mode, BotMode::Idle));
    assert_eq!(tick.actions, [Action::StopPathfinding]);
    assert_eq!(tick.chat.as_deref(), Some(message));
}

fn center(p: BlockPos) -> Place {
    Place::Point(HalfPoint {
        x2: 2 * i64::from(p.x) + 1,
        y2: 2 * i64::from(p.y) + 1,
        z2: 2 * i64::from(p.z) + 1,
    })
}

#[test]
fn a_scan_is_begun_once() {
    let scanning = |spawned| {
        job(BuildPhase::ScanningChests {
            chests: vec![pos(1, 64, 1)],
            spawned,
        })
    };
    let first = tick(step(scanning(false), facts(), &world()));
    assert!(matches!(first.errand, Errand::ScanChests(ref chests) if *chests == [pos(1, 64, 1)]));
    assert!(first.actions.is_empty());
    assert!(matches!(
        phase(first),
        BuildPhase::ScanningChests { spawned: true, ref chests } if *chests == [pos(1, 64, 1)]
    ));
    let second = tick(step(scanning(true), facts(), &world()));
    assert!(matches!(second.errand, Errand::Nothing));
}

#[test]
fn what_the_bot_carries_is_added_to_the_scan() {
    let mut facts = facts();
    facts.scanned = Some(counts(&[("minecraft:dirt", 10)]));
    facts.own_slots = vec![
        named("minecraft:dirt", 5),
        None,
        named("glass", 3),
        named("minecraft:dirt", -2),
    ];
    let scanning = job(BuildPhase::ScanningChests {
        chests: vec![],
        spawned: true,
    });
    match phase(tick(step(scanning, facts, &world()))) {
        BuildPhase::WaitingForLlm {
            inventory,
            spawned: false,
        } => {
            assert_eq!(inventory.len(), 2);
            assert_eq!(inventory.count_of("minecraft:dirt"), 15);
            assert_eq!(inventory.count_of("minecraft:glass"), 3);
        }
        other => panic!("the bot should wait: {other:?}"),
    }
}

#[test]
fn too_much_to_count_is_out_of_range() {
    let mut facts = facts();
    facts.scanned = Some(counts(&[("minecraft:dirt", u32::MAX)]));
    facts.own_slots = vec![named("dirt", 1)];
    let scanning = job(BuildPhase::ScanningChests {
        chests: vec![],
        spawned: true,
    });
    assert!(!build_values_in_range(&scanning, &facts));
}

#[test]
fn a_structure_is_asked_for_once() {
    let waiting = |spawned| {
        job(BuildPhase::WaitingForLlm {
            inventory: counts(&[("minecraft:dirt", 3)]),
            spawned,
        })
    };
    let first = tick(step(waiting(false), facts(), &world()));
    match &first.errand {
        Errand::AskLlm {
            description,
            inventory,
        } => {
            assert_eq!(description, "hut");
            assert_eq!(inventory.count_of("minecraft:dirt"), 3);
        }
        other => panic!("a structure should be asked for: {other:?}"),
    }
    assert!(matches!(
        phase(first),
        BuildPhase::WaitingForLlm { spawned: true, .. }
    ));
    let second = tick(step(waiting(true), facts(), &world()));
    assert!(matches!(second.errand, Errand::Nothing));
}

#[test]
fn a_structure_with_all_materials_is_placed_from_the_lowest_up() {
    let mut facts = facts();
    facts.reply = Some(Ok(structure(
        vec![
            entry(0, 2, 0, "c"),
            entry(0, 0, 0, "a"),
            entry(1, 2, 0, "d"),
            entry(1, 0, 0, "b"),
        ],
        &[("minecraft:dirt", 3)],
    )));
    let waiting = job(BuildPhase::WaitingForLlm {
        inventory: counts(&[("minecraft:dirt", 3)]),
        spawned: true,
    });
    match phase(tick(step(waiting, facts, &world()))) {
        BuildPhase::PlacingBlocks {
            structure,
            next_index: 0,
            placement_attempts: 0,
            waiting_for_confirmation: false,
        } => {
            let names: Vec<&str> = structure.blocks.iter().map(|b| b.block.as_str()).collect();
            assert_eq!(names, ["a", "b", "c", "d"]);
        }
        other => panic!("the bot should place blocks: {other:?}"),
    }
}

#[test]
fn missing_materials_are_collected_first() {
    let mut facts = facts();
    facts.reply = Some(Ok(structure(vec![], &[("minecraft:dirt", 5), ("minecraft:glass", 1)])));
    let waiting = job(BuildPhase::WaitingForLlm {
        inventory: counts(&[("minecraft:dirt", 3), ("minecraft:glass", 1)]),
        spawned: true,
    });
    match phase(tick(step(waiting, facts, &world()))) {
        BuildPhase::CollectingResources {
            missing,
            active_job: None,
            ..
        } => assert_eq!(missing, [("minecraft:dirt".to_owned(), 2)]),
        other => panic!("the bot should collect: {other:?}"),
    }
}

#[test]
fn a_failed_request_ends_the_construction() {
    let mut facts = facts();
    facts.reply = Some(Err("HTTP 500: oops".to_owned()));
    let waiting = job(BuildPhase::WaitingForLlm {
        inventory: ItemCounts::new(),
        spawned: true,
    });
    let tick = tick(step(waiting, facts, &world()));
    over(&tick, "Build failed: LLM error — HTTP 500: oops.");
}

fn gathering(missing: Vec<(&str, u32)>, active_job: Option<CollectJob>) -> BuildJob {
    job(BuildPhase::CollectingResources {
        structure: structure(vec![entry(0, 1, 0, "b"), entry(0, 0, 0, "a")], &[]),
        missing: missing
            .into_iter()
            .map(|(name, count)| (name.to_owned(), count))
            .collect::<VecDeque<_>>(),
        active_job,
    })
}

#[test]
fn the_next_material_is_taken_up() {
    let mut world = world();
    world.insert(pos(3, 64, 0), DIRT);
    let gather = gathering(vec![("minecraft:dirt", 2), ("minecraft:glass", 1)], None);
    assert_eq!(lookup_name(&gather), Some("dirt"));
    let mut facts = facts();
    facts.block_kind = Some(DIRT);
    facts.item_kind = Some(DIRT_ITEM);
    facts.collect.inventory = vec![ItemStack {
        kind: DIRT_ITEM,
        count: 4,
    }];
    let tick = tick(step(gather, facts, &world));
    assert!(tick.actions.is_empty());
    match phase(tick) {
        BuildPhase::CollectingResources {
            missing,
            active_job: Some(collecting),
            ..
        } => {
            assert_eq!(missing, [("minecraft:glass".to_owned(), 1)]);
            assert_eq!(collecting.target, CollectTarget::exact("dirt", DIRT, DIRT_ITEM));
            assert_eq!(collecting.requested_count, 2);
            assert_eq!(collecting.baseline_count, 4);
            assert_eq!(collecting.return_anchor, pos(0, 64, 0));
            assert_eq!(collecting.phase, CollectPhase::MovingToBlock(pos(3, 64, 0)));
        }
        other => panic!("the bot should collect: {other:?}"),
    }
}

#[test]
fn unknown_materials_are_passed_over() {
    let gather = gathering(vec![("minecraft:magic", 2), ("minecraft:glass", 1)], None);
    match phase(tick(step(gather, facts(), &world()))) {
        BuildPhase::CollectingResources {
            missing,
            active_job: None,
            ..
        } => assert_eq!(missing, [("minecraft:glass".to_owned(), 1)]),
        other => panic!("the bot should collect: {other:?}"),
    }
    let last = gathering(vec![("minecraft:magic", 2)], None);
    assert!(matches!(
        phase(tick(step(last, facts(), &world()))),
        BuildPhase::PlacingBlocks { next_index: 0, .. }
    ));
}

#[test]
fn placing_starts_once_everything_is_collected() {
    let mut collecting =
        CollectJob::new(CollectTarget::exact("dirt", DIRT, DIRT_ITEM), 2, pos(0, 64, 0));
    collecting.phase = CollectPhase::Looting;
    let gather = gathering(vec![], Some(collecting));
    assert_eq!(lookup_name(&gather), None);
    let mut facts = facts();
    facts.collect.inventory = vec![ItemStack {
        kind: DIRT_ITEM,
        count: 2,
    }];
    let tick = tick(step(gather, facts, &world()));
    assert_eq!(tick.actions, [Action::StopPathfinding]);
    assert_eq!(tick.chat, None);
    match phase(tick) {
        BuildPhase::PlacingBlocks { structure, .. } => assert_eq!(structure.blocks[0].block, "a"),
        other => panic!("the bot should place blocks: {other:?}"),
    }
}

#[test]
fn a_material_that_has_run_out_ends_the_construction() {
    let mut collecting =
        CollectJob::new(CollectTarget::exact("dirt", DIRT, DIRT_ITEM), 5, pos(0, 64, 0));
    collecting.baseline_count = 1;
    let gather = gathering(vec![("minecraft:glass", 1)], Some(collecting));
    let mut facts = facts();
    facts.collect.inventory = vec![ItemStack {
        kind: DIRT_ITEM,
        count: 3,
    }];
    let tick = tick(step(gather, facts, &HashMap::new()));
    over(&tick, "I only collected 2/5 dirt before running out of targets.");
}

#[test]
fn materials_are_mined_on_the_way() {
    let mut world = world();
    world.insert(pos(3, 64, 0), DIRT);
    let mut collecting =
        CollectJob::new(CollectTarget::exact("dirt", DIRT, DIRT_ITEM), 2, pos(0, 64, 0));
    collecting.phase = CollectPhase::Mining(pos(3, 64, 0));
    let tick = tick(step(gathering(vec![], Some(collecting)), facts(), &world));
    assert!(matches!(
        tick.errand,
        Errand::Mine(MineStep { block, plan: None }) if block == pos(3, 64, 0)
    ));
    assert!(matches!(
        phase(tick),
        BuildPhase::CollectingResources {
            active_job: Some(_),
            ..
        }
    ));
}

#[test]
fn a_finished_construction_is_reported() {
    let done = job(BuildPhase::PlacingBlocks {
        structure: structure(vec![], &[]),
        next_index: 0,
        placement_attempts: 0,
        waiting_for_confirmation: false,
    });
    assert_eq!(lookup_name(&done), None);
    let tick = tick(step(done, facts(), &world()));
    over(&tick, "Finished building hut.");
}

#[test]
fn a_block_that_appeared_is_confirmed() {
    let mut world = world();
    world.insert(pos(2, 64, 0), DIRT);
    let mut facts = facts();
    facts.block_kind = Some(DIRT);
    let tick = tick(step(placing(2, true), facts, &world));
    assert!(tick.actions.is_empty());
    assert!(matches!(
        phase(tick),
        BuildPhase::PlacingBlocks {
            next_index: 1,
            placement_attempts: 0,
            waiting_for_confirmation: false,
            ..
        }
    ));
}

#[test]
fn a_wrong_block_is_mined() {
    let mut world = world();
    world.insert(pos(2, 64, 0), BlockKind::Stone);
    let mut given = facts();
    given.block_kind = Some(DIRT);
    let wrong = tick(step(placing(2, true), given, &world));
    assert_eq!(
        wrong.actions,
        [
            Action::LookAt(center(pos(2, 64, 0))),
            Action::StartMining(pos(2, 64, 0)),
        ]
    );
    assert!(matches!(
        phase(wrong),
        BuildPhase::PlacingBlocks {
            next_index: 0,
            placement_attempts: 2,
            waiting_for_confirmation: false,
            ..
        }
    ));
    let mut given = facts();
    given.is_mining = true;
    let wrong = tick(step(placing(2, true), given, &world));
    assert_eq!(wrong.actions, [Action::LookAt(center(pos(2, 64, 0)))]);
}

#[test]
fn a_block_is_given_up_after_three_tries() {
    let message = "Build failed: couldn't place minecraft:dirt at 2,64,0 after 3 attempts. Aborting.";
    let missing = tick(step(placing(3, true), facts(), &world()));
    over(&missing, message);
    let mut world = world();
    world.insert(pos(2, 64, 0), BlockKind::Stone);
    let wrong = tick(step(placing(3, true), facts(), &world));
    over(&wrong, message);
    world.remove(&pos(2, 64, 0));
    let again = tick(step(placing(2, true), facts(), &world));
    assert!(again.actions.is_empty());
    assert!(matches!(
        phase(again),
        BuildPhase::PlacingBlocks {
            placement_attempts: 2,
            waiting_for_confirmation: false,
            ..
        }
    ));
}

#[test]
fn a_block_is_taken_into_the_hand_before_it_is_placed() {
    let mut given = facts();
    given.item_kind = Some(DIRT_ITEM);
    given.collect.hand.slots[12] = Some(DIRT_ITEM);
    match step(placing(0, false), given, &world()) {
        BuildStep::Place { job, plan } => {
            assert_eq!(lookup_name(&job), Some("dirt"));
            assert_eq!(
                plan,
                Some(ToolEquipPlan::MoveToSelectedHotbar {
                    source_slot: 12,
                    hotbar_slot: 36,
                    hotbar_index: 0,
                })
            );
        }
        BuildStep::Tick(tick) => panic!("the step should go on: {tick:?}"),
    }
    assert!(matches!(
        step(placing(0, false), facts(), &world()),
        BuildStep::Place { plan: None, .. }
    ));
}

fn place(
    job: BuildJob,
    bot_block: BlockPos,
    distance: f64,
    world: &HashMap<BlockPos, BlockKind>,
) -> BuildTick {
    assert!(placing_in_range(&job));
    place_block(
        job,
        PlaceFacts {
            bot_block,
            calculating_path: false,
            executing_path: false,
        },
        &|p: BlockPos| world.get(&p).copied(),
        &|_: BlockPos| measure(distance),
    )
}

#[test]
fn a_block_is_placed_from_a_stance_beside_it() {
    let tick = place(placing(1, false), pos(1, 64, 0), 0.3, &world());
    assert_eq!(
        tick.actions,
        [
            Action::LookAt(Place::Point(HalfPoint {
                x2: 5,
                y2: 128,
                z2: 1,
            })),
            Action::UseItem,
        ]
    );
    assert!(matches!(
        phase(tick),
        BuildPhase::PlacingBlocks {
            next_index: 0,
            placement_attempts: 2,
            waiting_for_confirmation: true,
            ..
        }
    ));
}

#[test]
fn the_bot_goes_to_its_stance_before_it_places() {
    let far = place(placing(0, false), pos(-2, 64, 0), 3.0, &world());
    assert_eq!(
        far.actions,
        [Action::Goto {
            place: center(pos(1, 64, 0)),
            radius_halves: 2,
            opts: collect_pathfinder_opts(),
        }]
    );
    assert!(matches!(
        phase(far),
        BuildPhase::PlacingBlocks {
            placement_attempts: 0,
            waiting_for_confirmation: false,
            ..
        }
    ));
    let in_the_way = place(placing(0, false), pos(2, 64, 0), 1.0, &world());
    assert_eq!(
        in_the_way.actions,
        [Action::Goto {
            place: center(pos(1, 64, 0)),
            radius_halves: 1,
            opts: collect_pathfinder_opts(),
        }]
    );
}

#[test]
fn a_block_that_cannot_be_reached_is_passed_over() {
    let tick = place(placing(2, false), pos(1, 64, 0), 0.3, &HashMap::new());
    assert!(tick.actions.is_empty());
    assert_eq!(tick.chat, None);
    assert!(matches!(tick.errand, Errand::Nothing));
    assert!(matches!(
        phase(tick),
        BuildPhase::PlacingBlocks {
            next_index: 1,
            placement_attempts: 0,
            waiting_for_confirmation: false,
            ..
        }
    ));
}

#[test]
fn without_a_solid_block_the_construction_is_over() {
    let mut world = world();
    let high = job(BuildPhase::PlacingBlocks {
        structure: structure(vec![entry(-1, 1, 0, "minecraft:dirt")], &[]),
        next_index: 0,
        placement_attempts: 0,
        waiting_for_confirmation: false,
    });
    world.insert(pos(-1, 64, 0), BlockKind::Air);
    let tick = place(high, pos(0, 64, 0), 0.3, &world);
    over(
        &tick,
        "Build failed: no support block available for minecraft:dirt at -1,65,0.",
    );
}

#[test]
fn places_beyond_the_world_are_out_of_range() {
    let beyond = BuildJob {
        id: 1,
        description: String::new(),
        origin: pos(i32::MAX, 64, 0),
        phase: BuildPhase::PlacingBlocks {
            structure: structure(vec![entry(1, 0, 0, "minecraft:dirt")], &[]),
            next_index: 0,
            placement_attempts: 0,
            waiting_for_confirmation: true,
        },
    };
    assert!(!build_values_in_range(&beyond, &facts()));
    assert!(!placing_in_range(&beyond));
    assert!(!placing_in_range(&placing(255, false)));
    assert!(!placing_in_range(&placing(0, true)));
}

#[test]
fn chests_are_found_within_the_radius() {
    let find = |kind: BlockKind| match kind {
        BlockKind::Chest => vec![pos(15, 64, 0), pos(16, 64, 0), pos(9, 64, 12)],
        BlockKind::TrappedChest => vec![pos(0, 60, 0), pos(0, 64, 20)],
        _ => panic!("only chests are looked for"),
    };
    assert_eq!(
        find_nearby_chests(pos(0, 64, 0), 15, &find),
        [pos(15, 64, 0), pos(9, 64, 12), pos(0, 60, 0)]
    );
    assert_eq!(
        find_build_chests(pos(0, 64, 0), &find),
        [pos(15, 64, 0), pos(9, 64, 12), pos(0, 60, 0)]
    );
    assert_eq!(find_nearby_chests(pos(0, 64, 0), 4, &find), [pos(0, 60, 0)]);
}

#[test]
fn a_construction_can_be_copied() {
    let work = placing(2, true);
    let copy = work.clone();
    assert_eq!(copy.id, 7);
    assert_eq!(copy.description, "hut");
    assert_eq!(copy.origin, pos(0, 64, 0));
    match copy.phase {
        BuildPhase::PlacingBlocks {
            structure,
            next_index: 0,
            placement_attempts: 2,
            waiting_for_confirmation: true,
        } => assert_eq!(structure.blocks[0].block, "minecraft:dirt"),
        other => panic!("the copy should be the same: {other:?}"),
    }
}
