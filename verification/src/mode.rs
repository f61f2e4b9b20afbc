//! What the bot is doing, and how one tick changes it.

use crate::actions::{collect_pathfinder_opts, one_try, Action, Place};
use crate::building::BuildJob;
use crate::collect::{CollectJob, CollectTickOutcome};
use crate::combat::{detected_health_drop, lost_health, CombatJob, CombatPhase};
use crate::geometry::EntityId;
use crate::measure::{Measure, TWENTY};
use crate::text::{append_decimal, decimal};
use vstd::prelude::*;
use vstd::string::*;

verus! {

/// What the bot is doing.
#[derive(Debug)]
pub enum BotMode {
    Idle,
    /// Following a player.
    Following(EntityId),
    /// Collecting until enough has come into the inventory.
    Collecting(CollectJob),
    /// Building a structure.
    Building(BuildJob),
    /// Fighting off hostile mobs.
    Combat(CombatJob),
}

impl Default for BotMode {
    fn default() -> (mode: BotMode)
        ensures
            mode is Idle,
    {
        BotMode::Idle
    }
}

/// The name of a mode.
pub fn mode_name(mode: &BotMode) -> (name: &'static str)
    ensures
        name@ == match mode {
            BotMode::Idle => "idle"@,
            BotMode::Following(_) => "following"@,
            BotMode::Collecting(_) => "collecting"@,
            BotMode::Building(_) => "building"@,
            BotMode::Combat(_) => "combat"@,
        },
{
    match mode {
        BotMode::Idle => "idle",
        BotMode::Following(_) => "following",
        BotMode::Collecting(_) => "collecting",
        BotMode::Building(_) => "building",
        BotMode::Combat(_) => "combat",
    }
}

/// The health of a bot that is unharmed, which it is taken to have at first.
pub fn full_health() -> (health: Measure)
    ensures
        health == (Measure { bits: TWENTY }),
{
    Measure { bits: TWENTY }
}

/// The bot acts on every fifth tick.
pub fn is_action_tick(ticks: u64) -> (r: bool)
    ensures
        r == (ticks % 5 == 0),
{
    ticks % 5 == 0
}

/// The start of a tick: the mode to go on with, or a fight that has just broken out and takes the
/// tick for itself.
#[derive(Debug)]
pub enum TickStart {
    Run(BotMode),
    Interrupted(BotMode),
}

/// The fight that breaks out when the bot loses health.
pub open spec fn new_fight(mode: BotMode, health: Measure, now: u64) -> BotMode {
    BotMode::Combat(
        CombatJob {
            previous_mode: Box::new(mode),
            phase: CombatPhase::Equipping,
            health_at_entry: health,
            started_at_tick: now,
        },
    )
}

/// How a tick starts: where health went down since the last tick, a fight breaks out, unless the
/// bot is fighting already.
pub open spec fn tick_start(
    mode: BotMode,
    previous_health: Measure,
    current_health: Measure,
    now: u64,
) -> TickStart {
    if lost_health(previous_health, current_health) && !(mode is Combat) {
        TickStart::Interrupted(new_fight(mode, current_health, now))
    } else {
        TickStart::Run(mode)
    }
}

/// Starts a tick.
pub fn start_tick(
    mode: BotMode,
    previous_health: Measure,
    current_health: Measure,
    now: u64,
) -> (start: TickStart)
    ensures
        start == tick_start(mode, previous_health, current_health, now),
{
    let fighting: bool = match &mode {
        BotMode::Combat(_) => true,
        _ => false,
    };
    if detected_health_drop(previous_health, current_health) && !fighting {
        TickStart::Interrupted(
            BotMode::Combat(
                CombatJob {
                    previous_mode: Box::new(mode),
                    phase: CombatPhase::Equipping,
                    health_at_entry: current_health,
                    started_at_tick: now,
                },
            ),
        )
    } else {
        TickStart::Run(mode)
    }
}

/// What the bot does when a fight breaks out: it stops where it is.
pub fn interrupt_actions() -> (actions: Vec<Action>)
    ensures
        actions@ == seq![Action::StopPathfinding],
{
    let actions = vec![Action::StopPathfinding];
    assert(actions@ =~= seq![Action::StopPathfinding]);
    actions
}

/// A fight never interrupts a fight: what a new fight holds as interrupted is no fight, and a bot
/// that is fighting goes on with the fight that it is in.
pub proof fn fights_do_not_nest(
    mode: BotMode,
    previous_health: Measure,
    current_health: Measure,
    now: u64,
)
    ensures
        match tick_start(mode, previous_health, current_health, now) {
            TickStart::Interrupted(BotMode::Combat(job)) => *job.previous_mode == mode && !(mode
                is Combat),
            TickStart::Interrupted(_) => false,
            TickStart::Run(same) => same == mode,
        },
        mode is Combat ==> tick_start(mode, previous_health, current_health, now) == TickStart::Run(
            mode,
        ),
{
}

/// What the bot knows of the player whom it follows.
#[derive(Clone, Copy, Debug, PartialEq, Eq, Structural)]
pub struct FollowFacts {
    pub in_view: bool,
    /// Whether the bot stands within three blocks of the player.
    pub arrived: bool,
    pub calculating_path: bool,
    pub executing_path: bool,
}

/// The mode after one step, and what the bot does in it.
#[derive(Debug)]
pub struct FollowTick {
    pub mode: BotMode,
    pub actions: Vec<Action>,
}

/// What the bot does in one step of following.
pub open spec fn follow_actions(entity: EntityId, facts: FollowFacts) -> Seq<Action> {
    if facts.in_view && !facts.calculating_path && (!facts.arrived || facts.executing_path) {
        seq![Action::Goto { place: Place::Entity(entity), radius_halves: 6, opts: one_try(1) }]
    } else {
        seq![]
    }
}

/// One step of following: the bot goes to the player, and is idle once the player is out of view.
pub fn follow_tick(entity: EntityId, facts: FollowFacts) -> (tick: FollowTick)
    ensures
        tick.mode == if facts.in_view {
            BotMode::Following(entity)
        } else {
            BotMode::Idle
        },
        tick.actions@ == follow_actions(entity, facts),
{
    let mut actions: Vec<Action> = Vec::new();
    if !facts.in_view {
        return FollowTick { mode: BotMode::Idle, actions };
    }
    if !facts.calculating_path && (!facts.arrived || facts.executing_path) {
        actions.push(
            Action::Goto {
                place: Place::Entity(entity),
                radius_halves: 6,
                opts: collect_pathfinder_opts(),
            },
        );
    }
    FollowTick { mode: BotMode::Following(entity), actions }
}

/// What the bot says when it has run out of targets.
pub open spec fn exhausted_message(collected: u32, requested: u32, name: Seq<char>) -> Seq<char> {
    "I only collected "@ + decimal(collected as int) + "/"@ + decimal(requested as int) + " "@
        + name + " before running out of targets."@
}

/// What the bot says when it has run out of targets.
pub fn report_exhausted(collected: u32, requested: u32, name: &str) -> (message: String)
    ensures
        message@ == exhausted_message(collected, requested, name@),
{
    let mut message = "I only collected ".to_owned();
    append_decimal(&mut message, collected as u64);
    message.append("/");
    append_decimal(&mut message, requested as u64);
    message.append(" ");
    message.append(name);
    message.append(" before running out of targets.");
    message
}

/// What the bot says of a collection that is over.
pub open spec fn collect_message(outcome: CollectTickOutcome) -> Option<Seq<char>> {
    match outcome {
        CollectTickOutcome::Continue(_) => None,
        CollectTickOutcome::Done { collected, name } => Some(
            "Collected "@ + decimal(collected as int) + " "@ + name@ + "."@,
        ),
        CollectTickOutcome::ExhaustedTargets { collected, requested, name } => Some(
            exhausted_message(collected, requested, name@),
        ),
    }
}

/// The mode after one step, and what the bot says.
#[derive(Debug)]
pub struct ModeReport {
    pub mode: BotMode,
    pub chat: Option<String>,
}

/// What the bot does after one step of a collection, and what it says: it goes on collecting, or
/// reports and is idle.
pub fn collect_tick(outcome: CollectTickOutcome) -> (report: ModeReport)
    ensures
        report.mode == match outcome {
            CollectTickOutcome::Continue(job) => BotMode::Collecting(job),
            _ => BotMode::Idle,
        },
        report.chat is Some <==> collect_message(outcome) is Some,
        report.chat matches Some(text) ==> Some(text@) == collect_message(outcome),
{
    match outcome {
        CollectTickOutcome::Continue(job) => ModeReport {
            mode: BotMode::Collecting(job),
            chat: None,
        },
        CollectTickOutcome::Done { collected, name } => {
            let mut chat = "Collected ".to_owned();
            append_decimal(&mut chat, collected as u64);
            chat.append(" ");
            chat.append(name.as_str());
            chat.append(".");
            ModeReport { mode: BotMode::Idle, chat: Some(chat) }
        },
        CollectTickOutcome::ExhaustedTargets { collected, requested, name } => {
            let chat = report_exhausted(collected, requested, name.as_str());
            ModeReport { mode: BotMode::Idle, chat: Some(chat) }
        },
    }
}

/// A bot that was at work and whose health went down drops it for a fight, which begins with
/// taking up a weapon at the health and the tick of that moment and holds the work just as it was.
/// Without a wound, and in a fight already, nothing is dropped. Health is given by the bits of
/// numbers that are not negative.
pub proof fn wounds_start_fights(
    mode: BotMode,
    previous_health: Measure,
    current_health: Measure,
    now: u64,
)
    requires
        previous_health.bits <= 0x7FF0_0000_0000_0000,
        current_health.bits <= 0x7FF0_0000_0000_0000,
    ensures
        current_health.bits < previous_health.bits && !(mode is Combat) ==> (tick_start(
            mode,
            previous_health,
            current_health,
            now,
        ) matches TickStart::Interrupted(BotMode::Combat(job)) && *job.previous_mode == mode
            && job.phase is Equipping && job.health_at_entry == current_health
            && job.started_at_tick == now),
        current_health.bits >= previous_health.bits || mode is Combat ==> tick_start(
            mode,
            previous_health,
            current_health,
            now,
        ) == TickStart::Run(mode),
{
}

/// A bot that follows a player in view sets out for the player, to within three blocks and with
/// one try of one second, unless a path is being calculated, or it has arrived and stands still.
pub proof fn followers_keep_up(entity: EntityId, facts: FollowFacts)
    ensures
        follow_actions(entity, facts).len() <= 1,
        facts.in_view && !facts.calculating_path && !facts.arrived ==> follow_actions(
            entity,
            facts,
        ).len() == 1,
        facts.in_view && !facts.calculating_path && facts.executing_path ==> follow_actions(
            entity,
            facts,
        ).len() == 1,
        !facts.in_view || facts.calculating_path || (facts.arrived && !facts.executing_path)
            ==> follow_actions(entity, facts).len() == 0,
        follow_actions(entity, facts).len() == 1 ==> (follow_actions(entity, facts)[0] matches
            Action::Goto { place, radius_halves, opts } && place == Place::Entity(entity)
            && radius_halves == 6 && !opts.retry_on_no_path && opts.timeout_secs == 1),
{
}

/// What is said of a collection that is over names how much was collected, and of what; where
/// there was not enough, also how much was asked for. Nothing is said of one that goes on.
pub proof fn reports_give_the_numbers(
    collected: u32,
    requested: u32,
    name: String,
    job: CollectJob,
)
    ensures
        collect_message(CollectTickOutcome::Continue(job)) is None,
        collect_message(CollectTickOutcome::Done { collected, name }) == Some(
            "Collected "@ + decimal(collected as int) + " "@ + name@ + "."@,
        ),
        collect_message(CollectTickOutcome::ExhaustedTargets { collected, requested, name }) == Some(
            "I only collected "@ + decimal(collected as int) + "/"@ + decimal(requested as int)
                + " "@ + name@ + " before running out of targets."@,
        ),
{
}

} // verus!
