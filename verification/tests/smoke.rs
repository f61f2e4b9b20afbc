use third_principles_bot::building::queue_build;
use third_principles_bot::calendar::utc_date;
use third_principles_bot::collect::CollectJob;
use third_principles_bot::geometry::{BlockPos, EntityId};
use third_principles_bot::mode::BotMode;
use third_principles_bot::smoke::{
    exit_code, mode_display_name, smoke_tick, LiveSmokeConfig, SmokeOutcome, SmokeRuntime,
    SmokeSettings,
};
use third_principles_bot::targets::{CollectPhase, CollectTarget};
use third_principles_bot::trace::trace_file_name;

fn settings() -> SmokeSettings {
    SmokeSettings {
        enabled: Some("1".to_owned()),
        live_server_url: None,
        server_url: Some("localhost".to_owned()),
        bot_name: None,
        description: None,
        start_delay_ticks: None,
        timeout_secs: None,
    }
}

#[test]
fn settings_have_defaults() {
    let config = LiveSmokeConfig::from_settings(settings()).expect("a configuration");
    assert_eq!(config.server_url, "localhost");
    assert_eq!(config.bot_name, "GoodBotSmoke");
    assert_eq!(config.description, "wood hut");
    assert_eq!(config.start_delay_ticks, 40);
    assert_eq!(config.timeout_secs, 180);
}

#[test]
fn given_settings_are_taken() {
    let config = LiveSmokeConfig::from_settings(SmokeSettings {
        live_server_url: Some("live".to_owned()),
        bot_name: Some("Bot".to_owned()),
        description: Some("tower".to_owned()),
        start_delay_ticks: Some("+7".to_owned()),
        timeout_secs: Some("18446744073709551615".to_owned()),
        ..settings()
    })
    .expect("a configuration");
    assert_eq!(config.server_url, "live");
    assert_eq!(config.bot_name, "Bot");
    assert_eq!(config.description, "tower");
    assert_eq!(config.start_delay_ticks, 7);
    assert_eq!(config.timeout_secs, u64::MAX);
}

#[test]
fn numbers_that_are_none_are_passed_over() {
    for text in ["", "+", "-1", "ten", "1 ", "18446744073709551616"] {
        let config = LiveSmokeConfig::from_settings(SmokeSettings {
            start_delay_ticks: Some(text.to_owned()),
            ..settings()
        })
        .expect("a configuration");
        assert_eq!(config.start_delay_ticks, 40, "{text:?}");
    }
}

#[test]
fn wrong_settings_are_named() {
    for enabled in [None, Some("true".to_owned())] {
        let error = LiveSmokeConfig::from_settings(SmokeSettings {
            enabled,
            ..settings()
        })
        .unwrap_err();
        assert_eq!(
            error,
            "LIVE_TEST_ENABLED=1 is required to run the live smoke harness"
        );
    }
    let error = LiveSmokeConfig::from_settings(SmokeSettings {
        server_url: None,
        ..settings()
    })
    .unwrap_err();
    assert_eq!(error, "LIVE_TEST_SERVER_URL or SERVER_URL must be set");
}

fn building() -> BotMode {
    queue_build(1, "hut".to_owned(), BlockPos::new(0, 0, 0), vec![])
}

#[test]
fn modes_are_shown_with_their_phase() {
    assert_eq!(mode_display_name(&BotMode::Idle), "Idle");
    assert_eq!(
        mode_display_name(&BotMode::Following(EntityId { bits: 1 })),
        "Following"
    );
    assert_eq!(mode_display_name(&building()), "Building(ScanningChests)");
    let mut job = CollectJob::new(CollectTarget::wood(), 1, BlockPos::new(0, 0, 0));
    for phase in [
        CollectPhase::Searching,
        CollectPhase::MovingToBlock(BlockPos::new(1, -2, 30)),
        CollectPhase::Mining(BlockPos::new(-100, 64, 0)),
        CollectPhase::Looting,
    ] {
        job.phase = phase;
        assert_eq!(
            mode_display_name(&BotMode::Collecting(job.clone())),
            format!("Collecting({phase:?})")
        );
    }
}

#[test]
fn a_run_passes_once_the_bot_is_idle_again() {
    let tick = smoke_tick(SmokeRuntime::default(), &BotMode::Idle, 39, 40);
    assert!(!tick.queue && !tick.passed);
    assert_eq!(tick.runtime.phase_history, ["Idle"]);

    let tick = smoke_tick(tick.runtime, &BotMode::Idle, 40, 40);
    assert!(tick.queue && !tick.passed);
    assert!(tick.runtime.queued && !tick.runtime.saw_non_idle);

    let tick = smoke_tick(tick.runtime, &building(), 41, 40);
    assert!(!tick.queue && !tick.passed);
    assert!(tick.runtime.saw_non_idle);

    let tick = smoke_tick(tick.runtime, &building(), 42, 40);
    assert_eq!(
        tick.runtime.phase_history,
        ["Idle", "Building(ScanningChests)"]
    );

    let tick = smoke_tick(tick.runtime, &BotMode::Idle, 43, 40);
    assert!(tick.passed && !tick.queue);
    assert_eq!(
        tick.runtime.phase_history,
        ["Idle", "Building(ScanningChests)", "Idle"]
    );
    assert_eq!(tick.runtime.last_mode_name, "Idle");
}

#[test]
fn work_before_the_build_does_not_count() {
    let tick = smoke_tick(SmokeRuntime::default(), &building(), 3, 40);
    assert!(!tick.runtime.saw_non_idle);
    let tick = smoke_tick(tick.runtime, &BotMode::Idle, 50, 40);
    assert!(tick.queue && !tick.passed);
}

#[test]
fn exit_codes_tell_how_a_run_ended() {
    assert_eq!(exit_code(SmokeOutcome::Passed), 0);
    assert_eq!(exit_code(SmokeOutcome::TimedOut), 1);
    assert_eq!(exit_code(SmokeOutcome::Misconfigured), 2);
}

#[test]
fn records_are_named_by_time_and_tag() {
    assert_eq!(
        trace_file_name(1775478896, "live_smoke"),
        "2026-04-06T12-34-56_live_smoke.ndjson"
    );
    assert_eq!(trace_file_name(1775000000, "main"), "2026-03-31T23-33-20_main.ndjson");
    assert_eq!(trace_file_name(0, "main"), "1970-01-01T00-00-00_main.ndjson");
}

#[test]
fn days_are_counted_through_leap_years() {
    let at = |secs: u64| utc_date(secs / 86400);
    assert_eq!(at(68169600), (1972, 2, 29));
    assert_eq!(at(951782400), (2000, 2, 29));
    assert_eq!(at(1735689599), (2024, 12, 31));
    assert_eq!(at(1735689600), (2025, 1, 1));
    assert_eq!(at(4107542399), (2100, 2, 28));
    assert_eq!(at(4107542400), (2100, 3, 1));
    assert_eq!(
        trace_file_name(u64::MAX, "late"),
        "584554051223-11-09T07-00-15_late.ndjson"
    );
}
