//! Fighting off hostile mobs, and going back to what was interrupted.

use crate::actions::{one_try, Action, PathfinderOpts, Place};
use crate::equip::{is_weapon_plan, Hand, ToolEquipPlan};
use crate::geometry::EntityId;
use crate::measure::{Measure, FOUR, SIXTEEN, ZERO};
use crate::mode::BotMode;
use crate::order::{
    better_of, first_least, first_least_exists, first_least_is_unique, held_index, held_rank,
    is_first_least, Rank,
};
use vstd::prelude::*;

verus! {

/// After this many ticks a fight is given up: 30 seconds at 20 ticks a second.
pub const COMBAT_TIMEOUT_TICKS: u64 = 600;

/// What a bot that fights is doing.
#[derive(Clone, Copy, Debug, PartialEq, Eq, Structural)]
pub enum CombatPhase {
    /// Getting the best weapon into the hand.
    Equipping,
    /// Looking for hostile mobs.
    Scanning,
    /// Moving toward a mob.
    Approaching(EntityId),
    /// Striking at a mob.
    Attacking(EntityId),
}

/// A fight under way.
#[derive(Debug)]
pub struct CombatJob {
    /// What the bot was doing when the fight began, and does again when it ends.
    pub previous_mode: Box<BotMode>,
    pub phase: CombatPhase,
    pub health_at_entry: Measure,
    pub started_at_tick: u64,
}

/// A hostile mob and how far it is from the bot's eyes.
#[derive(Clone, Copy, Debug, PartialEq, Eq, Structural)]
pub struct Hostile {
    pub entity: EntityId,
    pub distance: Measure,
}

/// The mobs in range, ranked by their distance.
pub open spec fn hostile_ranks(hostiles: Seq<Hostile>, max_range: Measure) -> Seq<Option<Rank>> {
    Seq::new(
        hostiles.len(),
        |i: int|
            if hostiles[i].distance.at_most_spec(max_range) {
                Some(Rank { major: hostiles[i].distance.place() as i128, minor: 0, last: 0 })
            } else {
                None
            },
    )
}

/// The nearest mob in range, the first of several.
pub open spec fn nearest_hostile(hostiles: Seq<Hostile>, max_range: Measure) -> Option<Hostile> {
    match first_least(hostile_ranks(hostiles, max_range)) {
        Some(i) => Some(hostiles[i]),
        None => None,
    }
}

/// The nearest mob in range, the first of several.
pub fn find_nearest_hostile(hostiles: &Vec<Hostile>, max_range: Measure) -> (nearest: Option<
    Hostile,
>)
    ensures
        nearest == nearest_hostile(hostiles@, max_range),
{
    let ghost ranks = hostile_ranks(hostiles@, max_range);
    let mut best: Option<(u128, Rank)> = None;
    let mut i: usize = 0;
    while i < hostiles.len()
        invariant
            i <= hostiles@.len(),
            ranks == hostile_ranks(hostiles@, max_range),
            best matches Some((k, _)) ==> k < i,
            is_first_least(ranks, i as int, held_index(best)),
            held_rank(ranks, best),
        decreases hostiles@.len() - i,
    {
        let distance = hostiles[i].distance;
        let rank: Option<Rank> = if distance.at_most(max_range) {
            match distance.number() {
                Some(place) => Some(Rank { major: place as i128, minor: 0, last: 0 }),
                None => None,
            }
        } else {
            None
        };
        assert(ranks[i as int] == rank);
        best = better_of(best, i as u128, rank);
        i = i + 1;
    }
    proof {
        first_least_is_unique(ranks, held_index(best));
    }
    match best {
        None => None,
        Some((k, _)) => Some(hostiles[k as usize]),
    }
}

/// A mob that is found is in range and no mob in range is nearer; none is found only where none
/// is in range.
pub proof fn nearest_hostile_is_nearest(hostiles: Seq<Hostile>, max_range: Measure, i: int)
    requires
        0 <= i < hostiles.len(),
    ensures
        match nearest_hostile(hostiles, max_range) {
            None => !hostiles[i].distance.at_most_spec(max_range),
            Some(mob) => {
                &&& hostiles.contains(mob)
                &&& mob.distance.at_most_spec(max_range)
                &&& !hostiles[i].distance.less_spec(mob.distance)
            },
        },
{
    let ranks = hostile_ranks(hostiles, max_range);
    first_least_exists(ranks);
    let _ = ranks[i];
}

/// Whether health went down. From nothing, as after a respawn, it does not go down.
pub open spec fn lost_health(previous: Measure, current: Measure) -> bool {
    (Measure { bits: ZERO }).less_spec(previous) && current.less_spec(previous)
}

/// Whether health went down.
pub fn detected_health_drop(previous: Measure, current: Measure) -> (r: bool)
    ensures
        r == lost_health(previous, current),
{
    (Measure { bits: ZERO }).less(previous) && current.less(previous)
}

/// What the bot knows of a fight as a step begins.
#[derive(Debug)]
pub struct CombatFacts {
    pub now: u64,
    pub hand: Hand,
    pub hostiles: Vec<Hostile>,
    /// How far the mob of the phase is from the bot's eyes; `None` where it is gone.
    pub target_distance: Option<Measure>,
    /// Whether the mob of the phase is dead, though it may still be there.
    pub target_dead: bool,
    pub calculating_path: bool,
    pub attack_cooldown: bool,
}

/// The ticks from one time to another, on a counter that begins again after its last number.
pub open spec fn elapsed(started: u64, now: u64) -> int {
    if now >= started {
        now - started
    } else {
        now - started + 0x1_0000_0000_0000_0000
    }
}

/// A mob within four blocks can be struck.
pub open spec fn in_reach(distance: Measure) -> bool {
    distance.at_most_spec(Measure { bits: FOUR })
}

/// A mob more than four blocks away has to be approached again.
pub open spec fn out_of_reach(distance: Measure) -> bool {
    (Measure { bits: FOUR }).less_spec(distance)
}

/// How far the mob of the phase is; `None` where it is gone or dead.
pub open spec fn live_distance(facts: CombatFacts) -> Option<Measure> {
    if facts.target_dead {
        None
    } else {
        facts.target_distance
    }
}

/// What the bot does after a step of a fight.
pub open spec fn combat_mode(job: CombatJob, facts: CombatFacts) -> BotMode {
    if elapsed(job.started_at_tick, facts.now) > COMBAT_TIMEOUT_TICKS {
        *job.previous_mode
    } else {
        match job.phase {
            CombatPhase::Equipping => BotMode::Combat(
                CombatJob { phase: CombatPhase::Scanning, ..job },
            ),
            CombatPhase::Scanning => match nearest_hostile(
                facts.hostiles@,
                Measure { bits: SIXTEEN },
            ) {
                Some(mob) => BotMode::Combat(
                    CombatJob { phase: CombatPhase::Approaching(mob.entity), ..job },
                ),
                None => *job.previous_mode,
            },
            CombatPhase::Approaching(mob) => BotMode::Combat(
                match live_distance(facts) {
                    None => CombatJob { phase: CombatPhase::Scanning, ..job },
                    Some(distance) => if in_reach(distance) {
                        CombatJob { phase: CombatPhase::Attacking(mob), ..job }
                    } else {
                        job
                    },
                },
            ),
            CombatPhase::Attacking(mob) => BotMode::Combat(
                match live_distance(facts) {
                    None => CombatJob { phase: CombatPhase::Scanning, ..job },
                    Some(distance) => if out_of_reach(distance) {
                        CombatJob { phase: CombatPhase::Approaching(mob), ..job }
                    } else {
                        job
                    },
                },
            ),
        }
    }
}

/// What the bot does in a step of a fight, besides getting a weapon into the hand.
pub open spec fn combat_actions(job: CombatJob, facts: CombatFacts) -> Seq<Action> {
    if elapsed(job.started_at_tick, facts.now) > COMBAT_TIMEOUT_TICKS {
        seq![]
    } else {
        match (job.phase, live_distance(facts)) {
            (CombatPhase::Approaching(mob), Some(distance)) => if in_reach(distance)
                || facts.calculating_path {
                seq![Action::LookAt(Place::Entity(mob))]
            } else {
                seq![
                    Action::LookAt(Place::Entity(mob)),
                    Action::Goto {
                        place: Place::Entity(mob),
                        radius_halves: 7,
                        opts: one_try(2),
                    },
                ]
            },
            (CombatPhase::Attacking(mob), Some(distance)) => if out_of_reach(distance)
                || facts.attack_cooldown {
                seq![Action::LookAt(Place::Entity(mob))]
            } else {
                seq![Action::LookAt(Place::Entity(mob)), Action::Attack(mob)]
            },
            _ => seq![],
        }
    }
}

/// `plan` is the way to get a weapon into the hand, in the phase for it; else there is none.
pub open spec fn is_combat_equip(
    job: CombatJob,
    facts: CombatFacts,
    plan: Option<ToolEquipPlan>,
) -> bool {
    if elapsed(job.started_at_tick, facts.now) <= COMBAT_TIMEOUT_TICKS && job.phase
        == CombatPhase::Equipping {
        facts.hand.is_best_weapon_plan(plan)
    } else {
        plan is None
    }
}

/// One step of a fight: what the bot does after it, what it does in it, and which weapon it takes
/// up.
#[derive(Debug)]
pub struct CombatTick {
    pub mode: BotMode,
    pub actions: Vec<Action>,
    pub equip: Option<ToolEquipPlan>,
}

/// One step of a fight.
pub fn combat_tick(job: CombatJob, facts: &CombatFacts) -> (tick: CombatTick)
    requires
        facts.hand.fits(),
    ensures
        tick.mode == combat_mode(job, *facts),
        tick.actions@ == combat_actions(job, *facts),
        is_combat_equip(job, *facts, tick.equip),
{
    let mut actions: Vec<Action> = Vec::new();
    let mut equip: Option<ToolEquipPlan> = None;
    if facts.now.wrapping_sub(job.started_at_tick) > COMBAT_TIMEOUT_TICKS {
        return CombatTick { mode: *job.previous_mode, actions, equip };
    }
    let target_distance = if facts.target_dead {
        None
    } else {
        facts.target_distance
    };
    let mode = match job.phase {
        CombatPhase::Equipping => {
            equip = facts.hand.plan_weapon();
            BotMode::Combat(CombatJob { phase: CombatPhase::Scanning, ..job })
        },
        CombatPhase::Scanning => {
            match find_nearest_hostile(&facts.hostiles, Measure { bits: SIXTEEN }) {
                Some(mob) => BotMode::Combat(
                    CombatJob { phase: CombatPhase::Approaching(mob.entity), ..job },
                ),
                None => *job.previous_mode,
            }
        },
        CombatPhase::Approaching(mob) => {
            match target_distance {
                None => BotMode::Combat(CombatJob { phase: CombatPhase::Scanning, ..job }),
                Some(distance) => {
                    actions.push(Action::LookAt(Place::Entity(mob)));
                    if distance.at_most(Measure { bits: FOUR }) {
                        BotMode::Combat(CombatJob { phase: CombatPhase::Attacking(mob), ..job })
                    } else {
                        if !facts.calculating_path {
                            actions.push(
                                Action::Goto {
                                    place: Place::Entity(mob),
                                    radius_halves: 7,
                                    opts: PathfinderOpts {
                                        retry_on_no_path: false,
                                        timeout_secs: 2,
                                    },
                                },
                            );
                        }
                        BotMode::Combat(job)
                    }
                },
            }
        },
        CombatPhase::Attacking(mob) => {
            match target_distance {
                None => BotMode::Combat(CombatJob { phase: CombatPhase::Scanning, ..job }),
                Some(distance) => {
                    actions.push(Action::LookAt(Place::Entity(mob)));
                    if (Measure { bits: FOUR }).less(distance) {
                        BotMode::Combat(CombatJob { phase: CombatPhase::Approaching(mob), ..job })
                    } else {
                        if !facts.attack_cooldown {
                            actions.push(Action::Attack(mob));
                        }
                        BotMode::Combat(job)
                    }
                },
            }
        },
    };
    CombatTick { mode, actions, equip }
}

/// What the bot does after some steps of a fight, one for each of the facts, or up to the step
/// that ends it.
pub open spec fn mode_after_fighting(job: CombatJob, facts: Seq<CombatFacts>) -> BotMode
    decreases facts.len(),
{
    if facts.len() == 0 {
        BotMode::Combat(job)
    } else {
        match combat_step(job, facts[0]) {
            Some(next) => mode_after_fighting(next, facts.skip(1)),
            None => *job.previous_mode,
        }
    }
}

/// The fight after a step; `None` where the step ends it.
pub open spec fn combat_step(job: CombatJob, facts: CombatFacts) -> Option<CombatJob> {
    let over = elapsed(job.started_at_tick, facts.now) > COMBAT_TIMEOUT_TICKS || (job.phase
        == CombatPhase::Scanning && nearest_hostile(facts.hostiles@, Measure { bits: SIXTEEN })
        is None);
    match combat_mode(job, facts) {
        BotMode::Combat(next) if !over => Some(next),
        _ => None,
    }
}

/// A step that ends a fight restores the interrupted mode as it was; any other step changes the
/// phase of the fight and nothing else of it.
pub proof fn combat_step_keeps_the_interrupted_mode(job: CombatJob, facts: CombatFacts)
    ensures
        match combat_step(job, facts) {
            Some(next) => {
                &&& combat_mode(job, facts) == BotMode::Combat(next)
                &&& next == CombatJob { phase: next.phase, ..job }
            },
            None => combat_mode(job, facts) == *job.previous_mode,
        },
{
}

/// However a fight goes, the bot is still in it, with what it interrupted kept unchanged, or it
/// does again just what it did before.
pub proof fn fighting_restores_the_interrupted_mode(job: CombatJob, facts: Seq<CombatFacts>)
    ensures
        mode_after_fighting(job, facts) == *job.previous_mode || (mode_after_fighting(
            job,
            facts,
        ) matches BotMode::Combat(later) && later == CombatJob { phase: later.phase, ..job }),
    decreases facts.len(),
{
    if facts.len() > 0 {
        combat_step_keeps_the_interrupted_mode(job, facts[0]);
        if let Some(next) = combat_step(job, facts[0]) {
            fighting_restores_the_interrupted_mode(next, facts.skip(1));
        }
    }
}

/// A fight that has gone on for more than the allowed time ends at its next step.
pub proof fn long_fights_end(job: CombatJob, facts: CombatFacts)
    requires
        elapsed(job.started_at_tick, facts.now) > COMBAT_TIMEOUT_TICKS,
    ensures
        combat_mode(job, facts) == *job.previous_mode,
        combat_actions(job, facts) == Seq::<Action>::empty(),
{
}

/// A mob that is dead is left at once, for another look around; nothing is done to it.
pub proof fn dead_mobs_are_left(job: CombatJob, facts: CombatFacts)
    requires
        elapsed(job.started_at_tick, facts.now) <= COMBAT_TIMEOUT_TICKS,
        job.phase is Approaching || job.phase is Attacking,
        facts.target_dead,
    ensures
        combat_mode(job, facts) == BotMode::Combat(
            CombatJob { phase: CombatPhase::Scanning, ..job },
        ),
        combat_actions(job, facts) == Seq::<Action>::empty(),
{
}

/// The bot strikes only at the live mob that it attacks, within reach and after its cooldown.
pub proof fn strikes_are_in_reach(job: CombatJob, facts: CombatFacts, mob: EntityId)
    requires
        combat_actions(job, facts).contains(Action::Attack(mob)),
    ensures
        job.phase == CombatPhase::Attacking(mob),
        facts.target_distance matches Some(d) && !out_of_reach(d),
        !facts.target_dead,
        !facts.attack_cooldown,
{
}

/// A fight that began at most 600 ticks ago, on a counter that does not begin again meanwhile, has
/// not timed out; one that began longer ago has.
pub proof fn fights_last_thirty_seconds(started: u64, now: u64)
    requires
        started <= now,
    ensures
        elapsed(started, now) == now - started,
        elapsed(started, now) > COMBAT_TIMEOUT_TICKS <==> now > started + 600,
{
}

/// Over the end of the counter ticks are counted on.
pub proof fn ticks_are_counted_over_the_end(started: u64, now: u64)
    requires
        now < started,
    ensures
        elapsed(started, now) - (u64::MAX - started) == now + 1,
{
}

/// The bot strikes whenever it can: in a fight that has not timed out, a live mob that it attacks,
/// that is at most four blocks away and for which it does not have to wait, is looked at and
/// struck, and the bot goes on attacking it.
pub proof fn mobs_in_reach_are_struck(
    job: CombatJob,
    facts: CombatFacts,
    mob: EntityId,
    distance: Measure,
)
    requires
        job.started_at_tick <= facts.now <= job.started_at_tick + 600,
        job.phase == CombatPhase::Attacking(mob),
        facts.target_distance == Some(distance),
        distance.bits <= 0x4010_0000_0000_0000,
        !facts.target_dead,
        !facts.attack_cooldown,
    ensures
        combat_actions(job, facts).len() == 2,
        combat_actions(job, facts)[0] == Action::LookAt(Place::Entity(mob)),
        combat_actions(job, facts)[1] == Action::Attack(mob),
        combat_mode(job, facts) == BotMode::Combat(job),
{
}

/// While it has to wait before the next stroke, the bot keeps its eyes on the mob in reach.
pub proof fn the_bot_waits_for_its_stroke(
    job: CombatJob,
    facts: CombatFacts,
    mob: EntityId,
    distance: Measure,
)
    requires
        job.started_at_tick <= facts.now <= job.started_at_tick + 600,
        job.phase == CombatPhase::Attacking(mob),
        facts.target_distance == Some(distance),
        distance.bits <= 0x4010_0000_0000_0000,
        !facts.target_dead,
        facts.attack_cooldown,
    ensures
        combat_actions(job, facts).len() == 1,
        combat_actions(job, facts)[0] == Action::LookAt(Place::Entity(mob)),
        combat_mode(job, facts) == BotMode::Combat(job),
{
}

/// A mob that is approached and comes within four blocks is attacked from the next step on.
pub proof fn mobs_in_reach_are_attacked(
    job: CombatJob,
    facts: CombatFacts,
    mob: EntityId,
    distance: Measure,
)
    requires
        job.started_at_tick <= facts.now <= job.started_at_tick + 600,
        job.phase == CombatPhase::Approaching(mob),
        facts.target_distance == Some(distance),
        distance.bits <= 0x4010_0000_0000_0000,
        !facts.target_dead,
    ensures
        combat_actions(job, facts).len() == 1,
        combat_actions(job, facts)[0] == Action::LookAt(Place::Entity(mob)),
        combat_mode(job, facts) matches BotMode::Combat(next) && next.phase
            == CombatPhase::Attacking(mob) && next.previous_mode == job.previous_mode
            && next.health_at_entry == job.health_at_entry && next.started_at_tick
            == job.started_at_tick,
{
}

/// A live mob that is more than four blocks away is looked at and, while it is approached and no
/// path is being calculated, gone to within three and a half blocks, with one try of two seconds.
/// One that was attacked is approached again.
pub proof fn mobs_out_of_reach_are_approached(
    job: CombatJob,
    facts: CombatFacts,
    mob: EntityId,
    distance: Measure,
)
    requires
        job.started_at_tick <= facts.now <= job.started_at_tick + 600,
        job.phase == CombatPhase::Approaching(mob) || job.phase == CombatPhase::Attacking(mob),
        facts.target_distance == Some(distance),
        0x4010_0000_0000_0000 < distance.bits <= 0x7FF0_0000_0000_0000,
        !facts.target_dead,
    ensures
        combat_actions(job, facts).len() > 0,
        combat_actions(job, facts)[0] == Action::LookAt(Place::Entity(mob)),
        combat_actions(job, facts).len() == 2 <==> job.phase == CombatPhase::Approaching(mob)
            && !facts.calculating_path,
        combat_actions(job, facts).len() <= 2,
        combat_actions(job, facts).len() == 2 ==> (combat_actions(job, facts)[1] matches Action::Goto {
            place,
            radius_halves,
            opts,
        } && place == Place::Entity(mob) && radius_halves == 7 && !opts.retry_on_no_path
            && opts.timeout_secs == 2),
        combat_mode(job, facts) matches BotMode::Combat(next) && next.phase
            == CombatPhase::Approaching(mob) && next.previous_mode == job.previous_mode
            && next.health_at_entry == job.health_at_entry && next.started_at_tick
            == job.started_at_tick,
{
}

/// A mob that is gone is left as a dead one is: the bot looks around again and does nothing else.
pub proof fn lost_mobs_are_left(job: CombatJob, facts: CombatFacts)
    requires
        job.started_at_tick <= facts.now <= job.started_at_tick + 600,
        job.phase is Approaching || job.phase is Attacking,
        facts.target_distance is None || facts.target_dead,
    ensures
        combat_mode(job, facts) matches BotMode::Combat(next) && next.phase
            == CombatPhase::Scanning && next.previous_mode == job.previous_mode
            && next.health_at_entry == job.health_at_entry && next.started_at_tick
            == job.started_at_tick,
        combat_actions(job, facts).len() == 0,
{
}

/// A bot that looks around and sees a mob within sixteen blocks approaches one that is within
/// sixteen blocks and not farther away; without such a mob it takes up its work again. It does
/// nothing else meanwhile.
pub proof fn mobs_in_range_are_engaged(job: CombatJob, facts: CombatFacts, i: int)
    requires
        job.started_at_tick <= facts.now <= job.started_at_tick + 600,
        job.phase is Scanning,
        forall|j: int|
            0 <= j < facts.hostiles@.len() ==> (#[trigger] facts.hostiles@[j]).distance.bits
                <= 0x7FF0_0000_0000_0000,
    ensures
        combat_actions(job, facts).len() == 0,
        (forall|j: int|
            0 <= j < facts.hostiles@.len() ==> (#[trigger] facts.hostiles@[j]).distance.bits
                > 0x4030_0000_0000_0000) ==> combat_mode(job, facts) == *job.previous_mode,
        0 <= i < facts.hostiles@.len() && facts.hostiles@[i].distance.bits <= 0x4030_0000_0000_0000
            ==> (combat_mode(job, facts) matches BotMode::Combat(next) && next.previous_mode
            == job.previous_mode && next.health_at_entry == job.health_at_entry
            && next.started_at_tick == job.started_at_tick && exists|k: int|
            {
                &&& 0 <= k < facts.hostiles@.len()
                &&& next.phase == CombatPhase::Approaching(
                    (#[trigger] facts.hostiles@[k]).entity,
                )
                &&& facts.hostiles@[k].distance.bits <= facts.hostiles@[i].distance.bits
                &&& facts.hostiles@[k].distance.bits == facts.hostiles@[i].distance.bits ==> k <= i
            }),
{
    let ranks = hostile_ranks(facts.hostiles@, Measure { bits: SIXTEEN });
    first_least_exists(ranks);
    if let Some(k) = first_least(ranks) {
        assert(ranks[k] is Some);
        let _ = facts.hostiles@[k];
    }
    if 0 <= i < facts.hostiles@.len() && facts.hostiles@[i].distance.bits <= 0x4030_0000_0000_0000 {
        assert(ranks[i] is Some);
        let k = first_least(ranks)->0;
        assert(facts.hostiles@[k].distance.bits <= facts.hostiles@[i].distance.bits);
    }
}

/// A bot that takes up its weapon looks around from the next step on, and does nothing else; the
/// plan that it carries out is the one for the best weapon.
pub proof fn weapons_are_taken_up_before_looking_around(
    job: CombatJob,
    facts: CombatFacts,
    plan: Option<ToolEquipPlan>,
)
    requires
        job.started_at_tick <= facts.now <= job.started_at_tick + 600,
        is_combat_equip(job, facts, plan),
    ensures
        job.phase is Equipping ==> {
            &&& combat_mode(job, facts) matches BotMode::Combat(next) && next.phase
                == CombatPhase::Scanning && next.previous_mode == job.previous_mode
                && next.health_at_entry == job.health_at_entry && next.started_at_tick
                == job.started_at_tick
            &&& combat_actions(job, facts).len() == 0
            &&& is_weapon_plan(facts.hand.slots@, facts.hand.hotbar, facts.hand.selected, plan)
        },
        !(job.phase is Equipping) ==> plan is None,
{
}

/// Health goes down where there was some and there is less now; both are given by the bits of
/// numbers that are not negative.
pub proof fn wounds_are_noticed(previous: Measure, current: Measure)
    requires
        previous.bits <= 0x7FF0_0000_0000_0000,
        current.bits <= 0x7FF0_0000_0000_0000,
    ensures
        lost_health(previous, current) <==> current.bits < previous.bits,
{
}

} // verus!
