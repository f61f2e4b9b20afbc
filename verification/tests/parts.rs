use third_principles_bot::counts::{
    add_contents, amount_of, item_identifier, ItemCounts, NamedStack,
};
use third_principles_bot::equip::{
    equip_steps, item_kind_name, item_swap_started, needs_inventory, plan_combat_weapon_equip,
    plan_item_equip, plan_tool_equip, HandStep, ToolEquipPlan,
};
use third_principles_bot::geometry::{block_distance_sq, wide_distance_sq, BlockPos, HalfPoint};
use third_principles_bot::kinds::{
    block_prefers_pickaxe, is_overworld_log, is_passable_block, preferred_tool_name, BlockKind,
    ItemKind, PreferredTool,
};
use third_principles_bot::measure::Measure;
use third_principles_bot::order::{stable_order, Rank};
use third_principles_bot::stance::{
    can_occupy_block, choose_placement_support_block, choose_safe_action_stance, has_escape_step,
    placement_interaction_point, stance_search_in_range, support_search_in_range,
};
use third_principles_bot::structure::{compute_missing, sort_blocks_by_y, BlockEntry, Structure};
use third_principles_bot::targets::{
    choose_safe_collect_target, normalize_collect_candidates, preferred_tool_for_collect_target,
    CollectTarget,
};
use third_principles_bot::text::{
    append_decimal, append_signed, comes_before, has_prefix, strip_namespace, strip_suffix_char,
    strip_text_prefixes,
};

fn measure(value: f64) -> Measure {
    Measure::from_bits(value.to_bits())
}

fn pos(x: i32, y: i32, z: i32) -> BlockPos {
    BlockPos::new(x, y, z)
}

#[test]
fn measures_are_ordered_as_numbers() {
    let numbers = [
        f64::NEG_INFINITY,
        -1.0e300,
        -2.5,
        -f64::MIN_POSITIVE,
        -0.0,
        0.0,
        1.0e-310,
        1.5,
        4.0,
        8.0,
        16.0,
        20.0,
        f64::MAX,
        f64::INFINITY,
        f64::NAN,
        -f64::NAN,
    ];
    for a in numbers {
        for b in numbers {
            assert_eq!(measure(a).less(measure(b)), a < b, "{a} < {b}");
            assert_eq!(measure(a).at_most(measure(b)), a <= b, "{a} <= {b}");
        }
    }
}

#[test]
fn the_constants_are_the_numbers_they_name() {
    assert_eq!(third_principles_bot::measure::ZERO, 0.0f64.to_bits());
    assert_eq!(third_principles_bot::measure::ONE_AND_A_HALF, 1.5f64.to_bits());
    assert_eq!(third_principles_bot::measure::FOUR, 4.0f64.to_bits());
    assert_eq!(third_principles_bot::measure::EIGHT, 8.0f64.to_bits());
    assert_eq!(third_principles_bot::measure::SIXTEEN, 16.0f64.to_bits());
    assert_eq!(third_principles_bot::measure::TWENTY, 20.0f64.to_bits());
}

#[test]
fn distances_are_squared() {
    assert_eq!(block_distance_sq(pos(1, 2, 3), pos(4, 6, 3)), 25);
    assert_eq!(block_distance_sq(pos(4, 6, 3), pos(1, 2, 3)), 25);
    assert_eq!(block_distance_sq(pos(-5, 0, 7), pos(-5, 0, 7)), 0);
    assert_eq!(
        wide_distance_sq(pos(i32::MIN, 0, 0), pos(i32::MAX, 0, 0)),
        0xFFFF_FFFE_0000_0001
    );
}

#[test]
fn blocks_have_centres() {
    assert_eq!(
        pos(3, -1, 0).center(),
        HalfPoint {
            x2: 7,
            y2: -1,
            z2: 1
        }
    );
    assert_eq!(
        placement_interaction_point(pos(1, 64, 0), pos(0, 64, 0)),
        HalfPoint {
            x2: 2,
            y2: 129,
            z2: 1
        }
    );
}

#[test]
fn equal_ranks_keep_their_order() {
    let rank = |major: i128, minor: i128| Rank {
        major,
        minor,
        last: 0,
    };
    let ranks = vec![rank(2, 0), rank(1, 5), rank(2, 0), rank(1, 4), rank(0, 9), rank(1, 5)];
    assert_eq!(stable_order(&ranks), [4, 3, 1, 5, 0, 2]);
    assert!(stable_order(&vec![]).is_empty());
}

#[test]
fn numbers_are_written_in_decimal() {
    for n in [0u64, 7, 10, 99, 100, 1234567890, u64::MAX] {
        let mut text = "n=".to_owned();
        append_decimal(&mut text, n);
        assert_eq!(text, format!("n={n}"));
    }
    for n in [0i64, 5, -5, -10, i64::MAX, i64::MIN] {
        let mut text = String::new();
        append_signed(&mut text, n);
        assert_eq!(text, n.to_string());
    }
}

#[test]
fn prefixes_are_taken_off() {
    assert_eq!(strip_namespace("minecraft:minecraft:dirt"), "minecraft:dirt");
    assert_eq!(strip_namespace("minecraft"), "minecraft");
    assert_eq!(strip_namespace(""), "");
    assert_eq!(strip_text_prefixes("aaab", "aa"), "ab");
    assert_eq!(item_kind_name("minecraft:minecraft:stone"), "stone");
    assert_eq!(item_kind_name("stone_axe"), "stone_axe");
    assert_eq!(strip_suffix_char("a//", '/'), "a");
    assert_eq!(strip_suffix_char("//", '/'), "");
    assert!(has_prefix("größe", "grö"));
    assert!(!has_prefix("gr", "grö"));
}

#[test]
fn names_are_in_alphabetical_order() {
    let names = ["", "a", "aa", "ab", "b", "minecraft:dirt", "minecraft:glass", "z", "ä", "€"];
    for (i, a) in names.iter().enumerate() {
        for (j, b) in names.iter().enumerate() {
            assert_eq!(comes_before(a, b), i < j);
            assert_eq!(comes_before(a, b), a < b);
        }
    }
}

#[test]
fn counts_are_kept_by_identifier() {
    let counts = ItemCounts::new();
    assert!(counts.is_empty());
    let counts = counts
        .with_count("a".to_owned(), 3)
        .with_count("b".to_owned(), 4)
        .with_count("a".to_owned(), 5);
    assert_eq!(counts.len(), 2);
    assert_eq!((counts.name_at(0).as_str(), counts.count_at(0)), ("a", 5));
    assert_eq!((counts.name_at(1).as_str(), counts.count_at(1)), ("b", 4));
    assert_eq!(counts.count_of("b"), 4);
    assert_eq!(counts.count_of("c"), 0);
    assert_eq!(counts.total(), Some(9));
    let counts = counts.with_more("c".to_owned(), 2).expect("it fits");
    assert_eq!(counts.clone().count_of("c"), 2);
    assert!(counts.with_more("a".to_owned(), u32::MAX).is_none());
    let plenty = ItemCounts::new()
        .with_count("a".to_owned(), u32::MAX)
        .with_count("b".to_owned(), 1);
    assert_eq!(plenty.total(), None);
}

#[test]
fn contents_add_up_whatever_their_order() {
    let slot = |name: &str, count: i32| {
        Some(NamedStack {
            name: name.to_owned(),
            count,
        })
    };
    let mut slots = vec![slot("dirt", 3), None, slot("minecraft:dirt", 4), slot("x:y", -1)];
    let forward = add_contents(ItemCounts::new(), &slots).expect("it fits");
    slots.reverse();
    let backward = add_contents(ItemCounts::new(), &slots).expect("it fits");
    for counts in [forward, backward] {
        assert_eq!(counts.len(), 2);
        assert_eq!(counts.count_of("minecraft:dirt"), 7);
        assert_eq!(counts.count_of("x:y"), 0);
    }
    let full = ItemCounts::new().with_count("minecraft:dirt".to_owned(), u32::MAX);
    assert!(add_contents(full, &slots).is_none());
    assert_eq!(item_identifier("dirt"), "minecraft:dirt");
    assert_eq!(item_identifier("other:dirt"), "other:dirt");
    assert_eq!(amount_of(-5), 0);
    assert_eq!(amount_of(5), 5);
}

#[test]
fn a_carried_out_plan_leaves_nothing_to_plan() {
    let mut slots: Vec<Option<ItemKind>> = vec![None; 46];
    slots[12] = Some(ItemKind::IronPickaxe);
    slots[36] = Some(ItemKind::OakLog);
    let plan = plan_tool_equip(&slots, 36..=44, 0, PreferredTool::Pickaxe);
    let Some(ToolEquipPlan::MoveToSelectedHotbar {
        source_slot,
        hotbar_slot,
        hotbar_index,
    }) = plan
    else {
        panic!("the tool should be moved: {plan:?}");
    };
    slots.swap(source_slot, hotbar_slot);
    assert_eq!(slots[12], Some(ItemKind::OakLog));
    assert_eq!(
        plan_tool_equip(&slots, 36..=44, hotbar_index, PreferredTool::Pickaxe),
        None
    );
}

#[test]
fn a_sword_in_the_hand_is_kept() {
    let mut slots: Vec<Option<ItemKind>> = vec![None; 46];
    slots[36] = Some(ItemKind::WoodenSword);
    slots[38] = Some(ItemKind::NetheriteAxe);
    assert_eq!(plan_combat_weapon_equip(&slots, 36..=44, 0), None);
    assert_eq!(
        plan_combat_weapon_equip(&slots, 36..=44, 2),
        Some(ToolEquipPlan::SelectHotbar { hotbar_index: 0 })
    );
}

#[test]
fn weapons_are_taken_by_what_they_are_made_of() {
    let mut slots: Vec<Option<ItemKind>> = vec![None; 46];
    slots[37] = Some(ItemKind::WoodenSword);
    slots[38] = Some(ItemKind::NetheriteSword);
    assert_eq!(
        plan_combat_weapon_equip(&slots, 36..=44, 0),
        Some(ToolEquipPlan::SelectHotbar { hotbar_index: 2 })
    );
    let swords = [
        ItemKind::WoodenSword,
        ItemKind::StoneSword,
        ItemKind::GoldenSword,
        ItemKind::IronSword,
        ItemKind::DiamondSword,
        ItemKind::NetheriteSword,
    ];
    let axes = [
        ItemKind::WoodenAxe,
        ItemKind::StoneAxe,
        ItemKind::CopperAxe,
        ItemKind::GoldenAxe,
        ItemKind::IronAxe,
        ItemKind::DiamondAxe,
        ItemKind::NetheriteAxe,
    ];
    let by_rank: Vec<ItemKind> = axes.iter().chain(swords.iter()).copied().collect();
    for pair in by_rank.windows(2) {
        let mut slots: Vec<Option<ItemKind>> = vec![None; 46];
        slots[36] = Some(pair[0]);
        slots[9] = Some(pair[1]);
        assert_eq!(
            plan_combat_weapon_equip(&slots, 36..=44, 0),
            Some(ToolEquipPlan::MoveToSelectedHotbar {
                source_slot: 9,
                hotbar_slot: 36,
                hotbar_index: 0,
            }),
            "{pair:?}"
        );
        slots.swap(9, 36);
        assert_eq!(plan_combat_weapon_equip(&slots, 36..=44, 0), None, "{pair:?}");
    }
    let mut slots: Vec<Option<ItemKind>> = vec![None; 46];
    slots[36] = Some(ItemKind::DiamondPickaxe);
    assert_eq!(plan_combat_weapon_equip(&slots, 36..=44, 1), None);
}

#[test]
fn a_swap_starts_with_a_move_in_an_open_inventory() {
    let select = Some(ToolEquipPlan::SelectHotbar { hotbar_index: 3 });
    let shift = Some(ToolEquipPlan::MoveToSelectedHotbar {
        source_slot: 9,
        hotbar_slot: 36,
        hotbar_index: 0,
    });
    assert!(item_swap_started(shift, true));
    assert!(!item_swap_started(shift, false));
    assert!(!item_swap_started(select, true));
    assert!(!item_swap_started(None, true));
}

#[test]
fn a_plan_is_carried_out_step_by_step() {
    let select = ToolEquipPlan::SelectHotbar { hotbar_index: 3 };
    let shift = ToolEquipPlan::MoveToSelectedHotbar {
        source_slot: 9,
        hotbar_slot: 37,
        hotbar_index: 1,
    };
    assert!(!needs_inventory(select));
    assert!(needs_inventory(shift));
    assert_eq!(equip_steps(select, false), [HandStep::Select(3)]);
    assert_eq!(equip_steps(select, true), [HandStep::Select(3)]);
    assert_eq!(equip_steps(shift, false), []);
    assert_eq!(
        equip_steps(shift, true),
        [
            HandStep::Click(9),
            HandStep::Click(37),
            HandStep::Click(9),
            HandStep::Select(1),
        ]
    );
    let mut slots = vec![None; 46];
    slots[9] = Some(ItemKind::IronAxe);
    slots[37] = Some(ItemKind::Cobblestone);
    let mut carried = None;
    for step in equip_steps(shift, true) {
        if let HandStep::Click(slot) = step {
            std::mem::swap(&mut slots[slot], &mut carried);
        }
    }
    assert_eq!(slots[37], Some(ItemKind::IronAxe));
    assert_eq!(slots[9], Some(ItemKind::Cobblestone));
    assert_eq!(carried, None);
}

#[test]
fn the_edge_of_the_world_matters_only_at_heights_that_count() {
    let anchor = BlockPos::new(0, 64, 0);
    let edge = BlockPos::new(i32::MAX - 1, 64, 0);
    assert!(!stance_search_in_range(edge, anchor, &[0]));
    assert!(stance_search_in_range(edge, anchor, &[-10]));
    assert!(!stance_search_in_range(BlockPos::new(i32::MAX, 64, 0), anchor, &[-10]));
    assert!(stance_search_in_range(BlockPos::new(i32::MAX - 2, 64, 0), anchor, &[0]));
    assert_eq!(choose_safe_action_stance(edge, anchor, &[-10], |_| true), None);
}

#[test]
fn one_kind_of_item_is_found() {
    let mut slots: Vec<Option<ItemKind>> = vec![None; 46];
    slots[9] = Some(ItemKind::Other(28));
    assert_eq!(
        plan_item_equip(&slots, 36..=44, 3, ItemKind::Other(28)),
        Some(ToolEquipPlan::MoveToSelectedHotbar {
            source_slot: 9,
            hotbar_slot: 39,
            hotbar_index: 3,
        })
    );
    slots[44] = Some(ItemKind::Other(28));
    assert_eq!(
        plan_item_equip(&slots, 36..=44, 3, ItemKind::Other(28)),
        Some(ToolEquipPlan::SelectHotbar { hotbar_index: 8 })
    );
    assert_eq!(plan_item_equip(&slots, 36..=44, 8, ItemKind::Other(28)), None);
    assert_eq!(plan_item_equip(&slots, 36..=44, 0, ItemKind::Other(29)), None);
}

#[test]
fn kinds_are_told_apart() {
    assert!(is_passable_block(None));
    assert!(is_passable_block(Some(BlockKind::CaveAir)));
    assert!(!is_passable_block(Some(BlockKind::Chest)));
    assert!(is_overworld_log(BlockKind::PaleOakLog));
    assert!(!is_overworld_log(BlockKind::Stone));
    assert!(block_prefers_pickaxe(BlockKind::AncientDebris));
    assert!(!block_prefers_pickaxe(BlockKind::OakLog));
    assert_eq!(preferred_tool_name(PreferredTool::Sword), "sword");
    let mut mixed = CollectTarget::oak_log();
    mixed.source_blocks.push(BlockKind::Stone);
    assert_eq!(preferred_tool_for_collect_target(&mixed), None);
    mixed.source_blocks.clear();
    assert_eq!(
        preferred_tool_for_collect_target(&mixed),
        Some(PreferredTool::Axe)
    );
}

#[test]
fn the_bot_fits_where_there_is_room_on_solid_ground() {
    let solid = |p: BlockPos| p.y <= 63;
    assert!(can_occupy_block(pos(0, 64, 0), &|p| !solid(p)));
    assert!(!can_occupy_block(pos(0, 65, 0), &|p| !solid(p)));
    assert!(!can_occupy_block(pos(0, 63, 0), &|p| !solid(p)));
    assert!(has_escape_step(pos(0, 64, 0), pos(1, 64, 0), &|p| !solid(p)));
    let walled = |p: BlockPos| p.y > 63 && (p.x, p.z) == (0, 0) || (p.x, p.z) == (1, 0);
    assert!(!has_escape_step(pos(0, 64, 0), pos(1, 64, 0), &walled));
}

#[test]
fn equally_near_stances_go_by_direction() {
    let flat = |p: BlockPos| p.y > 63;
    assert_eq!(
        choose_safe_action_stance(pos(0, 64, 0), pos(0, 64, 0), &[1, 0], flat),
        Some(pos(1, 64, 0))
    );
    assert_eq!(
        choose_safe_action_stance(pos(0, 60, 0), pos(0, 64, 0), &[1, 0], |p: BlockPos| p.y > 59),
        None
    );
}

#[test]
fn searches_near_the_edge_are_out_of_range() {
    assert!(stance_search_in_range(pos(0, 64, 0), pos(0, 64, 0), &[1, 0]));
    assert!(!stance_search_in_range(pos(i32::MAX - 1, 64, 0), pos(0, 64, 0), &[1, 0]));
    assert!(!stance_search_in_range(pos(0, i32::MAX, 0), pos(0, 64, 0), &[1, 0]));
    assert!(!stance_search_in_range(pos(0, 0, 0), pos(0, i32::MIN, 0), &[]));
    assert!(stance_search_in_range(pos(i32::MAX, 0, 0), pos(0, 0, 0), &[]));
    assert!(support_search_in_range(pos(0, 0, 0)));
    assert!(!support_search_in_range(pos(0, i32::MIN, 0)));
}

#[test]
fn the_nearest_support_is_taken() {
    let target = pos(0, 64, 0);
    let solid = [pos(0, 63, 0), pos(-1, 64, 0), pos(0, 64, 1)];
    assert_eq!(
        choose_placement_support_block(target, pos(-2, 64, 0), |p: BlockPos| !solid.contains(&p)),
        Some(pos(-1, 64, 0))
    );
    assert_eq!(
        choose_placement_support_block(target, pos(-1, 63, 1), |p: BlockPos| !solid.contains(&p)),
        Some(pos(0, 63, 0))
    );
    assert_eq!(
        choose_placement_support_block(target, pos(1, 64, 0), |_: BlockPos| true),
        None
    );
}

#[test]
fn columns_collapse_to_their_lowest_block() {
    let candidates = [pos(4, 75, 0), pos(-1, 3, 9), pos(4, 70, 0), pos(-1, 3, -9), pos(4, 71, 0)];
    let once = normalize_collect_candidates(&candidates, true);
    assert_eq!(once, [pos(-1, 3, -9), pos(-1, 3, 9), pos(4, 70, 0)]);
    assert_eq!(normalize_collect_candidates(&once, true), once);
    assert_eq!(normalize_collect_candidates(&candidates, false), candidates);
}

#[test]
fn safe_blocks_near_the_last_one_come_first() {
    let candidates = [pos(1, 64, 0), pos(22, 64, 20), pos(21, 64, 20)];
    let choose = |prefer| {
        choose_safe_collect_target(
            &candidates,
            pos(0, 64, 0),
            pos(0, 64, 0),
            Some(pos(20, 64, 20)),
            prefer,
            |p: BlockPos| {
                if p == pos(21, 64, 20) {
                    None
                } else {
                    Some(pos(p.x, p.y, p.z + 1))
                }
            },
        )
    };
    assert_eq!(choose(true), Some((pos(22, 64, 20), pos(22, 64, 21))));
    assert_eq!(choose(false), Some((pos(1, 64, 0), pos(1, 64, 1))));
}

#[test]
fn gathering_what_is_missing_is_enough() {
    let structure = Structure {
        blocks: vec![],
        materials: ItemCounts::new()
            .with_count("a".to_owned(), 5)
            .with_count("b".to_owned(), 2)
            .with_count("c".to_owned(), 0),
    };
    let mut inventory = ItemCounts::new().with_count("a".to_owned(), 3);
    let missing = compute_missing(&structure, &inventory);
    assert_eq!(missing, [("a".to_owned(), 2), ("b".to_owned(), 2)]);
    for (name, count) in missing {
        inventory = inventory.with_more(name, count).expect("it fits");
    }
    assert!(compute_missing(&structure, &inventory).is_empty());
}

#[test]
fn sorting_is_stable_and_loses_nothing() {
    let entry = |y: i32, block: &str| BlockEntry {
        x: 0,
        y,
        z: 0,
        block: block.to_owned(),
    };
    let mut blocks = vec![entry(2, "a"), entry(-1, "b"), entry(2, "c"), entry(-1, "d"), entry(0, "e")];
    sort_blocks_by_y(&mut blocks);
    let names: Vec<&str> = blocks.iter().map(|b| b.block.as_str()).collect();
    assert_eq!(names, ["b", "d", "e", "a", "c"]);
    let mut part = [entry(3, "x"), entry(1, "y")];
    sort_blocks_by_y(&mut part);
    assert_eq!(part[0].block, "y");
}
