use third_principles_bot::actions::Action;
use third_principles_bot::building::BuildPhase;
use third_principles_bot::commands::{
    carried_in_range, execute_build, execute_collect, execute_come, execute_stop,
    parse_collect_args, resolve_collect_target, to_state_collect_target, wood_source_blocks,
    CollectError,
};
use third_principles_bot::counts::ItemStack;
use third_principles_bot::geometry::{BlockPos, EntityId};
use third_principles_bot::kinds::{BlockKind, ItemKind};
use third_principles_bot::mode::BotMode;
use third_principles_bot::targets::{CollectPhase, CollectTarget as StateCollectTarget};

#[test]
fn collect_target_parse_defaults_count_to_one() {
    let request = parse_collect_args("wood", None, None, None).expect("expected collect request");

    assert_eq!(request.count, 1);
    assert_eq!(request.target.name, "wood");
}

#[test]
fn collect_target_resolve_supports_wood() {
    let target = resolve_collect_target("wood", None, None).expect("expected wood target");

    assert_eq!(target.name, "wood");
    assert_eq!(target.source_blocks, wood_source_blocks());
    assert_eq!(target.counted_items, wood_source_blocks());
    assert_eq!(
        wood_source_blocks(),
        [
            "oak_log",
            "spruce_log",
            "birch_log",
            "jungle_log",
            "acacia_log",
            "dark_oak_log",
            "mangrove_log",
            "cherry_log",
            "pale_oak_log",
        ]
    );
}

#[test]
fn collect_target_resolve_supports_cobblestone() {
    let target = resolve_collect_target(
        "cobblestone",
        Some(BlockKind::Other(12)),
        Some(ItemKind::Cobblestone),
    )
    .expect("expected cobblestone target");

    assert_eq!(target.name, "cobblestone");
    assert_eq!(target.source_blocks, ["stone"]);
    assert_eq!(target.counted_items, ["cobblestone"]);
}

#[test]
fn collect_target_resolve_supports_exact_block_ids() {
    let target = resolve_collect_target(
        "birch_log",
        Some(BlockKind::BirchLog),
        Some(ItemKind::BirchLog),
    )
    .expect("expected birch_log target");

    assert_eq!(target.name, "birch_log");
    assert_eq!(target.source_blocks, ["birch_log"]);
    assert_eq!(target.counted_items, ["birch_log"]);
}

#[test]
fn collect_target_resolve_rejects_unknown_target() {
    assert!(resolve_collect_target("not_a_real_block", None, None).is_none());
}

#[test]
fn collect_target_rejects_zero_count() {
    let err = parse_collect_args("wood", Some(0), None, None).expect_err("expected invalid count");

    assert_eq!(err, CollectError::InvalidCount(0));
}

fn stack(kind: ItemKind, count: i32) -> ItemStack {
    ItemStack { kind, count }
}

#[test]
fn unknown_targets_come_before_invalid_counts() {
    assert_eq!(
        parse_collect_args("nonsense", Some(0), None, None),
        Err(CollectError::UnknownTarget("nonsense".to_owned()))
    );
    assert_eq!(
        parse_collect_args("dirt", Some(-3), Some(BlockKind::Other(9)), Some(ItemKind::Other(28))),
        Err(CollectError::InvalidCount(-3))
    );
    assert!(resolve_collect_target("dirt", Some(BlockKind::Other(9)), None).is_none());
    assert!(resolve_collect_target("stick", None, Some(ItemKind::Other(28))).is_none());
}

#[test]
fn come_follows_a_visible_player() {
    let player = EntityId { bits: 7 };
    let outcome = execute_come(Some(player));
    assert!(matches!(outcome.mode, Some(BotMode::Following(entity)) if entity == player));
    assert!(outcome.actions.is_empty());
    assert_eq!(outcome.reply, "On my way!");
    assert_eq!(outcome.result, 1);

    let outcome = execute_come(None);
    assert!(outcome.mode.is_none());
    assert_eq!(outcome.reply, "I can't see you!");
    assert_eq!(outcome.result, 0);
}

#[test]
fn stop_makes_the_bot_idle() {
    let outcome = execute_stop();
    assert!(matches!(outcome.mode, Some(BotMode::Idle)));
    assert_eq!(outcome.actions, [Action::StopPathfinding]);
    assert_eq!(outcome.reply, "Stopping.");
    assert_eq!(outcome.result, 1);
}

#[test]
fn collect_counts_from_what_the_bot_carries() {
    let here = BlockPos::new(1, 64, 2);
    let inventory = vec![
        stack(ItemKind::OakLog, 3),
        stack(ItemKind::BirchLog, 2),
        stack(ItemKind::Cobblestone, 9),
        stack(ItemKind::OakLog, -4),
    ];
    assert!(carried_in_range("wood", None, None, &inventory));
    let outcome = execute_collect("wood", Some(10), None, None, &inventory, here);
    let Some(BotMode::Collecting(job)) = outcome.mode else {
        panic!("the bot should collect");
    };
    assert_eq!(job.target, StateCollectTarget::wood());
    assert_eq!(job.requested_count, 10);
    assert_eq!(job.baseline_count, 5);
    assert_eq!(job.phase, CollectPhase::Searching);
    assert_eq!(job.return_anchor, here);
    assert_eq!(outcome.actions, [Action::StopPathfinding]);
    assert_eq!(outcome.reply, "Collecting wood x10.");
    assert_eq!(outcome.result, 1);
}

#[test]
fn collect_answers_why_it_does_not() {
    let here = BlockPos::new(0, 0, 0);
    let outcome = execute_collect("nonsense", None, None, None, &vec![], here);
    assert!(outcome.mode.is_none());
    assert_eq!(outcome.reply, "I don't know how to collect nonsense.");
    assert_eq!(outcome.result, 0);
    let outcome = execute_collect("wood", Some(-3), None, None, &vec![], here);
    assert!(outcome.mode.is_none());
    assert_eq!(outcome.reply, "Count must be positive, got -3.");
    assert_eq!(outcome.result, 0);
}

#[test]
fn known_names_become_targets() {
    let target = resolve_collect_target("oak_log", None, None).expect("a target");
    assert_eq!(
        to_state_collect_target(&target, None, None),
        StateCollectTarget::oak_log()
    );
    let target = resolve_collect_target("cobblestone", None, None).expect("a target");
    assert_eq!(
        to_state_collect_target(&target, None, None),
        StateCollectTarget::cobblestone()
    );
    let block = BlockKind::CoalOre;
    let item = ItemKind::Other(64);
    let target = resolve_collect_target("coal_ore", Some(block), Some(item)).expect("a target");
    assert_eq!(
        to_state_collect_target(&target, Some(block), Some(item)),
        StateCollectTarget::exact("coal_ore", block, item)
    );
}

#[test]
fn too_much_to_count_is_told_beforehand() {
    let plenty = vec![
        stack(ItemKind::OakLog, i32::MAX),
        stack(ItemKind::OakLog, i32::MAX),
        stack(ItemKind::OakLog, 2),
    ];
    assert!(!carried_in_range("wood", None, None, &plenty));
    assert!(carried_in_range("cobblestone", None, None, &plenty));
    assert!(carried_in_range("nonsense", None, None, &plenty));
}

#[test]
fn build_begins_with_the_chests() {
    let here = BlockPos::new(5, 70, -3);
    let chest = BlockPos::new(6, 70, -3);
    let outcome = execute_build(4, "dirt house".to_owned(), here, vec![chest]);
    let Some(BotMode::Building(job)) = outcome.mode else {
        panic!("the bot should build");
    };
    assert_eq!(job.id, 4);
    assert_eq!(job.description, "dirt house");
    assert_eq!(job.origin, here);
    assert!(matches!(
        job.phase,
        BuildPhase::ScanningChests { chests, spawned: false } if chests == [chest]
    ));
    assert_eq!(outcome.actions, [Action::StopPathfinding]);
    assert_eq!(
        outcome.reply,
        "Building: dirt house. Scanning nearby chests..."
    );
}
