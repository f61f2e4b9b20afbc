use third_principles_bot::actions::{Action, PathfinderOpts, Place};
use third_principles_bot::collect::CollectJob;
use third_principles_bot::combat::{
    combat_tick, find_nearest_hostile, CombatFacts, CombatJob, CombatPhase, Hostile,
};
use third_principles_bot::equip::{Hand, ToolEquipPlan};
use third_principles_bot::geometry::{BlockPos, EntityId};
use third_principles_bot::kinds::ItemKind;
use third_principles_bot::measure::Measure;
use third_principles_bot::mode::{
    collect_tick, follow_tick, full_health, interrupt_actions, is_action_tick, mode_name, start_tick, BotMode,
    FollowFacts, TickStart,
};
use third_principles_bot::collect::CollectTickOutcome;
use third_principles_bot::targets::{CollectPhase, CollectTarget};

fn measure(value: f64) -> Measure {
    Measure::from_bits(value.to_bits())
}

fn entity(bits: u64) -> EntityId {
    EntityId { bits }
}

fn hostile(bits: u64, distance: f64) -> Hostile {
    Hostile {
        entity: entity(bits),
        distance: measure(distance),
    }
}

fn facts() -> CombatFacts {
    CombatFacts {
        now: 100,
        hand: Hand {
            slots: vec![None; 46],
            hotbar: 36..=44,
            selected: 0,
        },
        hostiles: vec![],
        target_distance: None,
        target_dead: false,
        calculating_path: false,
        attack_cooldown: false,
    }
}

fn collect_job() -> CollectJob {
    let mut job = CollectJob::new(CollectTarget::wood(), 10, BlockPos::new(0, 64, 0));
    job.baseline_count = 3;
    job.phase = CollectPhase::Mining(BlockPos::new(4, 65, 4));
    job.last_mined_block = Some(BlockPos::new(4, 64, 4));
    job
}

fn fight(phase: CombatPhase) -> CombatJob {
    CombatJob {
        previous_mode: Box::new(BotMode::Collecting(collect_job())),
        phase,
        health_at_entry: measure(15.0),
        started_at_tick: 100,
    }
}

fn phase_of(mode: &BotMode) -> CombatPhase {
    match mode {
        BotMode::Combat(job) => job.phase,
        _ => panic!("the bot should fight"),
    }
}

fn is_back_at_work(mode: &BotMode) -> bool {
    matches!(mode, BotMode::Collecting(job) if *job == collect_job())
}

#[test]
fn the_nearest_mob_in_range_is_found() {
    let range = measure(16.0);
    let mobs = vec![hostile(1, 9.0), hostile(2, 3.5), hostile(3, 3.5), hostile(4, 17.0)];
    assert_eq!(find_nearest_hostile(&mobs, range), Some(hostile(2, 3.5)));
    assert_eq!(
        find_nearest_hostile(&vec![hostile(1, 16.0)], range),
        Some(hostile(1, 16.0))
    );
    assert_eq!(find_nearest_hostile(&vec![hostile(1, 16.000001)], range), None);
    assert_eq!(find_nearest_hostile(&vec![hostile(1, f64::NAN)], range), None);
    assert_eq!(find_nearest_hostile(&vec![], range), None);
}

#[test]
fn lost_health_interrupts_any_work() {
    let mode = BotMode::Collecting(collect_job());
    match start_tick(mode, measure(20.0), measure(17.0), 55) {
        TickStart::Interrupted(BotMode::Combat(job)) => {
            assert!(is_back_at_work(&job.previous_mode));
            assert_eq!(job.phase, CombatPhase::Equipping);
            assert_eq!(job.health_at_entry, measure(17.0));
            assert_eq!(job.started_at_tick, 55);
        }
        other => panic!("the work should be interrupted: {other:?}"),
    }
    assert_eq!(interrupt_actions(), [Action::StopPathfinding]);
}

#[test]
fn a_fight_is_not_interrupted() {
    let mode = BotMode::Combat(fight(CombatPhase::Scanning));
    match start_tick(mode, measure(20.0), measure(10.0), 55) {
        TickStart::Run(BotMode::Combat(job)) => {
            assert_eq!(job.started_at_tick, 100);
            assert!(is_back_at_work(&job.previous_mode));
        }
        other => panic!("the fight should go on: {other:?}"),
    }
}

#[test]
fn health_that_holds_interrupts_nothing() {
    for (previous, current) in [(17.0, 20.0), (20.0, 20.0), (0.0, 20.0), (20.0, f64::NAN)] {
        let start = start_tick(BotMode::Idle, measure(previous), measure(current), 5);
        assert!(matches!(start, TickStart::Run(BotMode::Idle)));
    }
}

#[test]
fn a_dead_mob_is_left() {
    for phase in [CombatPhase::Approaching(entity(7)), CombatPhase::Attacking(entity(7))] {
        let mut facts = facts();
        facts.target_distance = Some(measure(2.0));
        facts.target_dead = true;
        let tick = combat_tick(fight(phase), &facts);
        assert_eq!(phase_of(&tick.mode), CombatPhase::Scanning);
        assert!(tick.actions.is_empty());
    }
}

#[test]
fn a_weapon_is_taken_up_first() {
    let mut facts = facts();
    facts.hand.slots[38] = Some(ItemKind::IronAxe);
    facts.hand.slots[5] = Some(ItemKind::StoneSword);
    let tick = combat_tick(fight(CombatPhase::Equipping), &facts);
    assert_eq!(phase_of(&tick.mode), CombatPhase::Scanning);
    assert!(tick.actions.is_empty());
    assert_eq!(
        tick.equip,
        Some(ToolEquipPlan::MoveToSelectedHotbar {
            source_slot: 5,
            hotbar_slot: 36,
            hotbar_index: 0,
        })
    );
}

#[test]
fn a_mob_is_approached_and_struck() {
    let mut facts = facts();
    facts.hostiles = vec![hostile(9, 12.0)];
    let tick = combat_tick(fight(CombatPhase::Scanning), &facts);
    assert_eq!(phase_of(&tick.mode), CombatPhase::Approaching(entity(9)));

    facts.target_distance = Some(measure(12.0));
    let tick = combat_tick(fight(CombatPhase::Approaching(entity(9))), &facts);
    assert_eq!(phase_of(&tick.mode), CombatPhase::Approaching(entity(9)));
    assert_eq!(
        tick.actions,
        [
            Action::LookAt(Place::Entity(entity(9))),
            Action::Goto {
                place: Place::Entity(entity(9)),
                radius_halves: 7,
                opts: PathfinderOpts {
                    retry_on_no_path: false,
                    timeout_secs: 2,
                },
            },
        ]
    );
    facts.calculating_path = true;
    let tick = combat_tick(fight(CombatPhase::Approaching(entity(9))), &facts);
    assert_eq!(tick.actions, [Action::LookAt(Place::Entity(entity(9)))]);

    facts.target_distance = Some(measure(4.0));
    let tick = combat_tick(fight(CombatPhase::Approaching(entity(9))), &facts);
    assert_eq!(phase_of(&tick.mode), CombatPhase::Attacking(entity(9)));

    let tick = combat_tick(fight(CombatPhase::Attacking(entity(9))), &facts);
    assert_eq!(phase_of(&tick.mode), CombatPhase::Attacking(entity(9)));
    assert_eq!(
        tick.actions,
        [
            Action::LookAt(Place::Entity(entity(9))),
            Action::Attack(entity(9)),
        ]
    );
    facts.attack_cooldown = true;
    let tick = combat_tick(fight(CombatPhase::Attacking(entity(9))), &facts);
    assert_eq!(tick.actions, [Action::LookAt(Place::Entity(entity(9)))]);

    facts.target_distance = Some(measure(4.5));
    let tick = combat_tick(fight(CombatPhase::Attacking(entity(9))), &facts);
    assert_eq!(phase_of(&tick.mode), CombatPhase::Approaching(entity(9)));
}

#[test]
fn a_mob_that_is_gone_leads_to_another_scan() {
    let facts = facts();
    for phase in [
        CombatPhase::Approaching(entity(9)),
        CombatPhase::Attacking(entity(9)),
    ] {
        let tick = combat_tick(fight(phase), &facts);
        assert_eq!(phase_of(&tick.mode), CombatPhase::Scanning);
        assert!(tick.actions.is_empty());
    }
}

#[test]
fn work_goes_on_unchanged_after_a_fight() {
    let tick = combat_tick(fight(CombatPhase::Scanning), &facts());
    assert!(is_back_at_work(&tick.mode));
    assert!(tick.actions.is_empty());
    assert_eq!(tick.equip, None);
}

#[test]
fn a_fight_ends_after_thirty_seconds() {
    let mut facts = facts();
    facts.target_distance = Some(measure(2.0));
    facts.now = 700;
    let tick = combat_tick(fight(CombatPhase::Attacking(entity(9))), &facts);
    assert_eq!(phase_of(&tick.mode), CombatPhase::Attacking(entity(9)));
    facts.now = 701;
    let tick = combat_tick(fight(CombatPhase::Attacking(entity(9))), &facts);
    assert!(is_back_at_work(&tick.mode));
    facts.now = 99;
    let tick = combat_tick(fight(CombatPhase::Attacking(entity(9))), &facts);
    assert!(is_back_at_work(&tick.mode));
}

#[test]
fn a_player_is_followed_while_in_view() {
    let facts = FollowFacts {
        in_view: true,
        arrived: false,
        calculating_path: false,
        executing_path: false,
    };
    let goto = [Action::Goto {
        place: Place::Entity(entity(3)),
        radius_halves: 6,
        opts: PathfinderOpts {
            retry_on_no_path: false,
            timeout_secs: 1,
        },
    }];
    let tick = follow_tick(entity(3), facts);
    assert!(matches!(tick.mode, BotMode::Following(e) if e == entity(3)));
    assert_eq!(tick.actions, goto);
    let tick = follow_tick(entity(3), FollowFacts { arrived: true, ..facts });
    assert!(tick.actions.is_empty());
    let tick = follow_tick(
        entity(3),
        FollowFacts {
            arrived: true,
            executing_path: true,
            ..facts
        },
    );
    assert_eq!(tick.actions, goto);
    let tick = follow_tick(
        entity(3),
        FollowFacts {
            calculating_path: true,
            ..facts
        },
    );
    assert!(tick.actions.is_empty());
    let tick = follow_tick(entity(3), FollowFacts { in_view: false, ..facts });
    assert!(matches!(tick.mode, BotMode::Idle));
    assert!(tick.actions.is_empty());
}

#[test]
fn modes_have_names() {
    assert_eq!(mode_name(&BotMode::default()), "idle");
    assert_eq!(mode_name(&BotMode::Following(entity(1))), "following");
    assert_eq!(mode_name(&BotMode::Collecting(collect_job())), "collecting");
    assert_eq!(mode_name(&BotMode::Combat(fight(CombatPhase::Equipping))), "combat");
}

#[test]
fn an_unharmed_bot_has_twenty_points() {
    assert_eq!(full_health(), measure(20.0));
}

#[test]
fn every_fifth_tick_is_one_of_action() {
    assert!(is_action_tick(0));
    assert!(is_action_tick(40));
    assert!(!is_action_tick(41));
    assert!(!is_action_tick(44));
}

#[test]
fn a_collection_that_is_over_is_reported() {
    let report = collect_tick(CollectTickOutcome::Done {
        collected: 12,
        name: "wood".to_owned(),
    });
    assert!(matches!(report.mode, BotMode::Idle));
    assert_eq!(report.chat.as_deref(), Some("Collected 12 wood."));

    let report = collect_tick(CollectTickOutcome::ExhaustedTargets {
        collected: 6,
        requested: 10,
        name: "wood".to_owned(),
    });
    assert!(matches!(report.mode, BotMode::Idle));
    assert_eq!(
        report.chat.as_deref(),
        Some("I only collected 6/10 wood before running out of targets.")
    );

    let report = collect_tick(CollectTickOutcome::Continue(collect_job()));
    assert!(is_back_at_work(&report.mode));
    assert_eq!(report.chat, None);
}
