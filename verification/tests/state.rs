use std::collections::HashSet;
use std::ops::RangeInclusive;

use third_principles_bot::collect::CollectJob;
use third_principles_bot::combat::detected_health_drop;
use third_principles_bot::counts::ItemCounts;
use third_principles_bot::equip::{
    log_collect_tool_search_attempt, log_collect_tool_search_outcome, plan_combat_weapon_equip,
    plan_tool_equip, ToolEquipPlan, ToolSearchOutcome,
};
use third_principles_bot::geometry::BlockPos;
use third_principles_bot::kinds::{tool_matches, BlockKind, ItemKind, PreferredTool};
use third_principles_bot::measure::Measure;
use third_principles_bot::stance::{
    choose_placement_support_block, choose_safe_action_stance, needs_navigation_for_placement,
};
use third_principles_bot::structure::{compute_missing, sort_blocks_by_y, BlockEntry, Structure};
use third_principles_bot::targets::{
    choose_next_collect_block, choose_safe_collect_target, collect_progress_from_counts,
    next_collect_phase_after_search, normalize_collect_candidates,
    preferred_tool_for_collect_target, CollectPhase, CollectProgress, CollectTarget,
};
use third_principles_bot::text::strip_namespace;

/// Stone as an item, by its number in the registry.
const STONE_ITEM: ItemKind = ItemKind::Other(1);

/// Coal ore as an item, by its number in the registry.
const COAL_ORE_ITEM: ItemKind = ItemKind::Other(64);

fn measure(value: f64) -> Measure {
    Measure::from_bits(value.to_bits())
}

fn slot_items(items: &[Option<ItemKind>]) -> Vec<Option<ItemKind>> {
    items.to_vec()
}

fn player_hotbar_range() -> RangeInclusive<usize> {
    36..=44
}

#[test]
fn collect_job_tracks_active_block_target() {
    let job = CollectJob::new(CollectTarget::wood(), 3, BlockPos::new(0, 64, 0));
    assert_eq!(job.active_block_target, None);
}

#[test]
fn phase_transition_helpers_are_pure() {
    let next = next_collect_phase_after_search(Some(BlockPos::new(1, 64, 1)));
    assert_eq!(
        next,
        CollectPhase::MovingToBlock(BlockPos::new(1, 64, 1))
    );

    let next = next_collect_phase_after_search(None);
    assert_eq!(next, CollectPhase::Searching);
}

#[test]
fn inventory_gain_counts_matching_items_only() {
    let target = CollectTarget::oak_log();
    let baseline = vec![];
    let current = vec![(ItemKind::OakLog, 2), (STONE_ITEM, 4)];

    let progress = collect_progress_from_counts(&target, &baseline, &current);
    assert_eq!(
        progress,
        CollectProgress {
            baseline: 0,
            current: 2,
            collected: 2
        }
    );
}

#[test]
fn inventory_gain_sums_multiple_wood_variants() {
    let target = CollectTarget::wood();
    let baseline = vec![];
    let current = vec![(ItemKind::OakLog, 2), (ItemKind::BirchLog, 3)];

    let progress = collect_progress_from_counts(&target, &baseline, &current);
    assert_eq!(progress.collected, 5);
}

#[test]
fn inventory_gain_ignores_unrelated_items() {
    let target = CollectTarget::cobblestone();
    let baseline = vec![];
    let current = vec![(ItemKind::Cobblestone, 1), (ItemKind::OakLog, 9)];

    let progress = collect_progress_from_counts(&target, &baseline, &current);
    assert_eq!(progress.collected, 1);
}

#[test]
fn search_picks_nearest_matching_source_block() {
    let bot_pos = BlockPos::new(0, 64, 0);
    let candidates = vec![
        BlockPos::new(10, 64, 0),
        BlockPos::new(2, 64, 0),
        BlockPos::new(5, 64, 0),
    ];

    let chosen = choose_next_collect_block(&candidates, bot_pos, None, false);
    assert_eq!(chosen, Some(BlockPos::new(2, 64, 0)));
}

#[test]
fn wood_search_prefers_nearby_logs_after_first_log() {
    let bot_pos = BlockPos::new(0, 64, 0);
    let last_mined = BlockPos::new(20, 64, 20);
    let candidates = vec![
        BlockPos::new(1, 64, 0),
        BlockPos::new(21, 64, 20),
        BlockPos::new(22, 64, 20),
    ];

    let chosen = choose_next_collect_block(&candidates, bot_pos, Some(last_mined), true);
    assert_eq!(chosen, Some(BlockPos::new(21, 64, 20)));
}

#[test]
fn search_returns_none_when_no_loaded_targets_exist() {
    let chosen = choose_next_collect_block(&[], BlockPos::new(0, 64, 0), None, false);
    assert_eq!(chosen, None);
}

fn solid_world(blocks: &[BlockPos]) -> HashSet<BlockPos> {
    blocks.iter().copied().collect()
}

#[test]
fn safe_action_stance_prefers_neighbor_with_escape_toward_anchor() {
    let target = BlockPos::new(0, 64, 0);
    let anchor = BlockPos::new(5, 64, 0);
    let solids = solid_world(&[
        BlockPos::new(-1, 63, 0),
        BlockPos::new(0, 63, 1),
        BlockPos::new(1, 63, 0),
        BlockPos::new(2, 63, 0),
    ]);

    let stance = choose_safe_action_stance(target, anchor, &[0], |pos| !solids.contains(&pos));
    assert_eq!(stance, Some(BlockPos::new(1, 64, 0)));
}

#[test]
fn safe_action_stance_rejects_single_cell_pit() {
    let target = BlockPos::new(0, 62, 0);
    let anchor = BlockPos::new(0, 64, 4);
    let solids = solid_world(&[
        BlockPos::new(1, 61, 0),
        BlockPos::new(2, 62, 0),
        BlockPos::new(1, 62, 1),
        BlockPos::new(1, 62, -1),
        BlockPos::new(1, 63, 0),
        BlockPos::new(0, 63, 0),
    ]);

    let stance = choose_safe_action_stance(target, anchor, &[0], |pos| !solids.contains(&pos));
    assert_eq!(stance, None);
}

#[test]
fn safe_collect_target_skips_nearest_candidate_without_safe_stance() {
    let bot_pos = BlockPos::new(0, 64, 0);
    let anchor = BlockPos::new(0, 64, 0);
    let risky = BlockPos::new(1, 62, 0);
    let safe = BlockPos::new(4, 64, 0);
    let candidates = vec![risky, safe];
    let solids = solid_world(&[
        BlockPos::new(2, 61, 0),
        BlockPos::new(3, 62, 0),
        BlockPos::new(2, 62, 1),
        BlockPos::new(2, 62, -1),
        BlockPos::new(2, 63, 0),
        BlockPos::new(1, 63, 0),
        BlockPos::new(3, 63, 0),
        BlockPos::new(4, 63, 1),
        BlockPos::new(5, 63, 0),
        BlockPos::new(6, 63, 0),
    ]);

    let chosen = choose_safe_collect_target(
        &candidates,
        bot_pos,
        anchor,
        None,
        false,
        |target| choose_safe_action_stance(target, anchor, &[0], |pos| !solids.contains(&pos)),
    );

    assert_eq!(chosen, Some((safe, BlockPos::new(3, 64, 0))));
}

#[test]
fn placement_stance_uses_supported_adjacent_block_below_target() {
    let target = BlockPos::new(0, 65, 0);
    let anchor = BlockPos::new(3, 64, 0);
    let solids = solid_world(&[
        BlockPos::new(1, 63, 0),
        BlockPos::new(2, 63, 0),
    ]);

    let stance =
        choose_safe_action_stance(target, anchor, &[0, -1], |pos| !solids.contains(&pos));
    assert_eq!(stance, Some(BlockPos::new(1, 64, 0)));
}

#[test]
fn placement_stance_allows_build_origin_when_exit_moves_away_from_anchor() {
    let target = BlockPos::new(0, 64, 0);
    let anchor = BlockPos::new(0, 64, 0);
    let solids = solid_world(&[
        BlockPos::new(1, 63, 0),
        BlockPos::new(2, 63, 0),
    ]);

    let stance =
        choose_safe_action_stance(target, anchor, &[0, -1], |pos| !solids.contains(&pos));
    assert_eq!(stance, Some(BlockPos::new(1, 64, 0)));
}

#[test]
fn placement_support_prefers_adjacent_solid_when_target_has_no_block_below() {
    let target = BlockPos::new(0, 64, 0);
    let stance = BlockPos::new(1, 64, 0);
    let solids = solid_world(&[BlockPos::new(1, 63, 0), BlockPos::new(1, 64, 0)]);

    let support = choose_placement_support_block(target, stance, |pos| !solids.contains(&pos));
    assert_eq!(support, Some(BlockPos::new(1, 64, 0)));
}

#[test]
fn wood_candidate_search_prefers_lowest_log_in_same_column() {
    let bot_pos = BlockPos::new(0, 64, 0);
    let candidates = vec![
        BlockPos::new(4, 70, 0),
        BlockPos::new(4, 75, 0),
        BlockPos::new(8, 69, 0),
    ];

    let normalized = normalize_collect_candidates(&candidates, true);
    assert_eq!(
        normalized,
        vec![
            BlockPos::new(4, 70, 0),
            BlockPos::new(8, 69, 0)
        ]
    );

    let chosen = choose_next_collect_block(&normalized, bot_pos, None, true);
    assert_eq!(chosen, Some(BlockPos::new(4, 70, 0)));
}

#[test]
fn wood_prefers_axe_tools() {
    assert_eq!(
        preferred_tool_for_collect_target(&CollectTarget::wood()),
        Some(PreferredTool::Axe)
    );
}

#[test]
fn stone_and_ore_targets_prefer_pickaxe_tools() {
    assert_eq!(
        preferred_tool_for_collect_target(&CollectTarget::cobblestone()),
        Some(PreferredTool::Pickaxe)
    );
    assert_eq!(
        preferred_tool_for_collect_target(&CollectTarget::exact(
            "coal_ore",
            BlockKind::CoalOre,
            COAL_ORE_ITEM,
        )),
        Some(PreferredTool::Pickaxe)
    );
}

#[test]
fn equip_plan_prefers_existing_hotbar_tool() {
    let mut slots = vec![None; 45];
    slots[38] = Some(ItemKind::StoneAxe);

    assert_eq!(
        plan_tool_equip(
            &slot_items(&slots),
            player_hotbar_range(),
            0,
            PreferredTool::Axe
        ),
        Some(ToolEquipPlan::SelectHotbar { hotbar_index: 2 })
    );
}

#[test]
fn equip_plan_moves_inventory_tool_into_selected_hotbar_slot() {
    let mut slots = vec![None; 45];
    slots[12] = Some(ItemKind::IronPickaxe);
    slots[36] = Some(ItemKind::OakLog);

    assert_eq!(
        plan_tool_equip(
            &slot_items(&slots),
            player_hotbar_range(),
            0,
            PreferredTool::Pickaxe,
        ),
        Some(ToolEquipPlan::MoveToSelectedHotbar {
            source_slot: 12,
            hotbar_slot: 36,
            hotbar_index: 0,
        })
    );
}

#[test]
fn equip_plan_skips_when_selected_hotbar_already_matches() {
    let mut slots = vec![None; 45];
    slots[37] = Some(ItemKind::IronAxe);

    assert_eq!(
        plan_tool_equip(
            &slot_items(&slots),
            player_hotbar_range(),
            1,
            PreferredTool::Axe
        ),
        None
    );
}

#[test]
fn logging_describes_tool_search_attempt() {
    assert_eq!(
        log_collect_tool_search_attempt("wood", PreferredTool::Axe),
        "[collect] wood prefers axe, checking inventory"
    );
    assert_eq!(
        log_collect_tool_search_attempt("cobblestone", PreferredTool::Pickaxe),
        "[collect] cobblestone prefers pickaxe, checking inventory"
    );
}

#[test]
fn logging_describes_tool_search_outcomes() {
    assert_eq!(
        log_collect_tool_search_outcome(
            "wood",
            PreferredTool::Axe,
            ToolSearchOutcome::AlreadySelected
        ),
        "[collect] already holding an axe for wood"
    );
    assert_eq!(
        log_collect_tool_search_outcome(
            "wood",
            PreferredTool::Axe,
            ToolSearchOutcome::FoundInHotbar("minecraft:stone_axe".to_owned()),
        ),
        "[collect] equipped stone_axe from hotbar for wood"
    );
    assert_eq!(
        log_collect_tool_search_outcome(
            "cobblestone",
            PreferredTool::Pickaxe,
            ToolSearchOutcome::FoundInInventory("minecraft:iron_pickaxe".to_owned()),
        ),
        "[collect] moved iron_pickaxe into the hotbar for cobblestone"
    );
    assert_eq!(
        log_collect_tool_search_outcome(
            "coal_ore",
            PreferredTool::Pickaxe,
            ToolSearchOutcome::Missing
        ),
        "[collect] no pickaxe found for coal_ore, mining without one"
    );
}

#[test]
fn strip_namespace_removes_minecraft_prefix() {
    assert_eq!(strip_namespace("minecraft:dirt"), "dirt");
    assert_eq!(strip_namespace("dirt"), "dirt");
    assert_eq!(strip_namespace("minecraft:oak_planks"), "oak_planks");
}

#[test]
fn compute_missing_returns_deficit() {
    let mut materials = ItemCounts::new();
    materials = materials.with_count("minecraft:dirt".to_owned(), 10);
    materials = materials.with_count("minecraft:cobblestone".to_owned(), 5);
    let structure = Structure {
        blocks: vec![],
        materials,
    };

    let mut inventory = ItemCounts::new();
    inventory = inventory.with_count("minecraft:dirt".to_owned(), 3);

    let missing = compute_missing(&structure, &inventory);
    let missing_vec: Vec<_> = missing.into_iter().collect();
    assert!(missing_vec.contains(&("minecraft:dirt".to_owned(), 7)));
    assert!(missing_vec.contains(&("minecraft:cobblestone".to_owned(), 5)));
}

#[test]
fn compute_missing_returns_empty_when_fully_stocked() {
    let mut materials = ItemCounts::new();
    materials = materials.with_count("minecraft:dirt".to_owned(), 10);
    let structure = Structure {
        blocks: vec![],
        materials,
    };

    let mut inventory = ItemCounts::new();
    inventory = inventory.with_count("minecraft:dirt".to_owned(), 15);

    let missing = compute_missing(&structure, &inventory);
    assert!(missing.is_empty());
}

#[test]
fn sort_blocks_by_y_orders_ascending() {
    let mut blocks = vec![
        BlockEntry {
            x: 0,
            y: 3,
            z: 0,
            block: "minecraft:dirt".to_owned(),
        },
        BlockEntry {
            x: 0,
            y: 1,
            z: 0,
            block: "minecraft:dirt".to_owned(),
        },
        BlockEntry {
            x: 0,
            y: 2,
            z: 0,
            block: "minecraft:dirt".to_owned(),
        },
    ];
    sort_blocks_by_y(&mut blocks);
    assert_eq!(blocks[0].y, 1);
    assert_eq!(blocks[1].y, 2);
    assert_eq!(blocks[2].y, 3);
}

#[test]
fn placement_needs_navigation_when_bot_stands_at_target() {
    let target = BlockPos::new(0, 64, 0);
    let stance = BlockPos::new(1, 64, 0);
    // Bot is at the target (distance to stance ~1.0, which is <= 1.5)
    let bot_block = target;
    assert!(
        needs_navigation_for_placement(bot_block, target, stance, measure(1.0)),
        "should require navigation when bot occupies the target block"
    );
}

#[test]
fn placement_needs_navigation_when_far_from_stance() {
    let target = BlockPos::new(0, 64, 0);
    let stance = BlockPos::new(1, 64, 0);
    // Bot is far from the stance
    let bot_block = BlockPos::new(10, 64, 0);
    assert!(
        needs_navigation_for_placement(bot_block, target, stance, measure(10.0)),
        "should require navigation when bot is far from stance"
    );
}

#[test]
fn placement_ready_when_at_stance_and_not_at_target() {
    let target = BlockPos::new(0, 64, 0);
    let stance = BlockPos::new(1, 64, 0);
    // Bot is at the stance, not at the target
    let bot_block = stance;
    assert!(
        !needs_navigation_for_placement(bot_block, target, stance, measure(0.3)),
        "should NOT require navigation when bot is at stance and not at target"
    );
}

#[test]
fn sword_matches_preferred_weapon() {
    assert!(tool_matches(ItemKind::DiamondSword, PreferredTool::Sword));
    assert!(tool_matches(ItemKind::IronSword, PreferredTool::Sword));
    assert!(tool_matches(ItemKind::StoneSword, PreferredTool::Sword));
    assert!(tool_matches(ItemKind::WoodenSword, PreferredTool::Sword));
    assert!(tool_matches(ItemKind::GoldenSword, PreferredTool::Sword));
    assert!(tool_matches(ItemKind::NetheriteSword, PreferredTool::Sword));
    assert!(!tool_matches(ItemKind::DiamondAxe, PreferredTool::Sword));
}

#[test]
fn combat_equip_prefers_sword_over_axe() {
    let mut slots = vec![None; 46];
    slots[5] = Some(ItemKind::IronSword);
    slots[38] = Some(ItemKind::IronAxe);
    let plan = plan_combat_weapon_equip(&slots, 36..=44, 0);
    assert_eq!(
        plan,
        Some(ToolEquipPlan::MoveToSelectedHotbar {
            source_slot: 5,
            hotbar_slot: 36,
            hotbar_index: 0,
        })
    );
}

#[test]
fn combat_equip_falls_back_to_axe_when_no_sword() {
    let mut slots = vec![None; 46];
    slots[38] = Some(ItemKind::IronAxe);
    let plan = plan_combat_weapon_equip(&slots, 36..=44, 0);
    assert_eq!(
        plan,
        Some(ToolEquipPlan::SelectHotbar { hotbar_index: 2 })
    );
}

#[test]
fn combat_equip_returns_none_when_no_weapons() {
    let slots = vec![None; 46];
    let plan = plan_combat_weapon_equip(&slots, 36..=44, 0);
    assert_eq!(plan, None);
}

#[test]
fn health_drop_detected_when_health_decreases() {
    assert!(detected_health_drop(measure(20.0), measure(17.0)));
    assert!(detected_health_drop(measure(10.0), measure(9.5)));
}

#[test]
fn health_drop_not_detected_for_heal_or_same() {
    assert!(!detected_health_drop(measure(17.0), measure(20.0))); // healed
    assert!(!detected_health_drop(measure(20.0), measure(20.0))); // same
}

#[test]
fn health_drop_not_detected_for_zero_previous() {
    // After respawn, previous health might be 0. Don't trigger combat.
    assert!(!detected_health_drop(measure(0.0), measure(20.0)));
}
