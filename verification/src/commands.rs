//! What the commands do: where the bot goes, what it collects and builds, and what it answers.

use crate::actions::Action;
use crate::building::{queue_build, BuildJob, BuildPhase};
use crate::collect::{
    checked_inventory_count, collected_so_far, current_inventory_count, inventory_count,
    CollectJob,
};
use crate::counts::{matching_total, stack_amounts, ItemStack};
use crate::geometry::{BlockPos, EntityId};
use crate::kinds::{
    overworld_log_blocks, overworld_log_items, BlockKind, ItemKind,
};
use crate::mode::BotMode;
use crate::targets::{CollectPhase, CollectTarget as StateCollectTarget};
use crate::text::{append_decimal, append_signed, decimal, same_text, signed_decimal};
use vstd::prelude::*;
use vstd::string::*;

verus! {

/// What to collect, by the names of the blocks to mine and of the items that count.
#[derive(Clone, Debug, PartialEq, Eq)]
pub struct CollectTarget {
    pub name: String,
    pub source_blocks: Vec<String>,
    pub counted_items: Vec<String>,
}

/// A collection that is asked for.
#[derive(Clone, Debug, PartialEq, Eq)]
pub struct CollectRequest {
    pub target: CollectTarget,
    pub count: u32,
}

/// Why something cannot be collected.
#[derive(Clone, Debug, PartialEq, Eq)]
pub enum CollectError {
    UnknownTarget(String),
    InvalidCount(i32),
}

/// The texts of a list.
pub open spec fn texts(list: Seq<String>) -> Seq<Seq<char>> {
    Seq::new(list.len(), |i: int| list[i]@)
}

/// The names of the logs that count as wood.
pub open spec fn wood_names() -> Seq<Seq<char>> {
    seq![
        "oak_log"@,
        "spruce_log"@,
        "birch_log"@,
        "jungle_log"@,
        "acacia_log"@,
        "dark_oak_log"@,
        "mangrove_log"@,
        "cherry_log"@,
        "pale_oak_log"@,
    ]
}

/// The names of the logs that count as wood.
pub fn wood_source_blocks() -> (names: Vec<String>)
    ensures
        texts(names@) == wood_names(),
{
    let names = vec![
        "oak_log".to_owned(),
        "spruce_log".to_owned(),
        "birch_log".to_owned(),
        "jungle_log".to_owned(),
        "acacia_log".to_owned(),
        "dark_oak_log".to_owned(),
        "mangrove_log".to_owned(),
        "cherry_log".to_owned(),
        "pale_oak_log".to_owned(),
    ];
    assert(texts(names@) =~= wood_names());
    names
}

/// The names of the blocks to mine and of the items that count for a target: wood stands for all
/// logs, cobblestone comes from stone, and any other name, where it is both a block's and an
/// item's, stands for itself.
pub open spec fn resolved(
    target: Seq<char>,
    block: Option<BlockKind>,
    item: Option<ItemKind>,
) -> Option<(Seq<Seq<char>>, Seq<Seq<char>>)> {
    if target == "wood"@ {
        Some((wood_names(), wood_names()))
    } else if target == "cobblestone"@ {
        Some((seq!["stone"@], seq!["cobblestone"@]))
    } else if target == "oak_log"@ || (block is Some && item is Some) {
        Some((seq![target], seq![target]))
    } else {
        None
    }
}

/// A list of one name.
fn one_name(name: &str) -> (names: Vec<String>)
    ensures
        texts(names@) == seq![name@],
{
    let names = vec![name.to_owned()];
    assert(texts(names@) =~= seq![name@]);
    names
}

/// What a name stands for. `block` and `item` are what the registries of blocks and items know
/// under the name.
pub fn resolve_collect_target(
    target: &str,
    block: Option<BlockKind>,
    item: Option<ItemKind>,
) -> (result: Option<CollectTarget>)
    ensures
        result is Some <==> resolved(target@, block, item) is Some,
        result matches Some(t) ==> t.name@ == target@ && resolved(target@, block, item) == Some(
            (texts(t.source_blocks@), texts(t.counted_items@)),
        ),
{
    if same_text(target, "wood") {
        return Some(
            CollectTarget {
                name: target.to_owned(),
                source_blocks: wood_source_blocks(),
                counted_items: wood_source_blocks(),
            },
        );
    }
    if same_text(target, "cobblestone") {
        return Some(
            CollectTarget {
                name: target.to_owned(),
                source_blocks: one_name("stone"),
                counted_items: one_name("cobblestone"),
            },
        );
    }
    if same_text(target, "oak_log") || (block.is_some() && item.is_some()) {
        return Some(
            CollectTarget {
                name: target.to_owned(),
                source_blocks: one_name(target),
                counted_items: one_name(target),
            },
        );
    }
    None
}

/// The count that is asked for, one where none is given.
pub open spec fn count_or_one(count: Option<i32>) -> i32 {
    match count {
        Some(n) => n,
        None => 1,
    }
}

/// The collection that is asked for: of a known target, and of at least one item.
pub fn parse_collect_args(
    target: &str,
    count: Option<i32>,
    block: Option<BlockKind>,
    item: Option<ItemKind>,
) -> (request: Result<CollectRequest, CollectError>)
    ensures
        match request {
            Ok(r) => r.count == count_or_one(count) && r.target.name@ == target@ && resolved(
                target@,
                block,
                item,
            ) == Some((texts(r.target.source_blocks@), texts(r.target.counted_items@))),
            Err(CollectError::UnknownTarget(name)) => resolved(target@, block, item) is None
                && name@ == target@,
            Err(CollectError::InvalidCount(n)) => resolved(target@, block, item) is Some && n
                == count_or_one(count) && n <= 0,
        },
        request is Ok <==> resolved(target@, block, item) is Some && count_or_one(count) > 0,
{
    match resolve_collect_target(target, block, item) {
        None => Err(CollectError::UnknownTarget(target.to_owned())),
        Some(resolved_target) => {
            let n: i32 = match count {
                Some(n) => n,
                None => 1,
            };
            if n <= 0 {
                return Err(CollectError::InvalidCount(n));
            }
            Ok(CollectRequest { target: resolved_target, count: n as u32 })
        },
    }
}

/// `state` is what the bot collects for a target of this name.
pub open spec fn is_state_target(
    name: Seq<char>,
    block: Option<BlockKind>,
    item: Option<ItemKind>,
    state: StateCollectTarget,
) -> bool {
    if name == "wood"@ {
        state.is(name, overworld_log_blocks(), overworld_log_items(), true)
    } else if name == "oak_log"@ {
        state.is(name, seq![BlockKind::OakLog], seq![ItemKind::OakLog], false)
    } else if name == "cobblestone"@ {
        state.is(name, seq![BlockKind::Stone], seq![ItemKind::Cobblestone], false)
    } else {
        block is Some && item is Some && state.is(name, seq![block->0], seq![item->0], false)
    }
}

/// What the bot collects for a target that is known.
pub fn to_state_collect_target(
    target: &CollectTarget,
    block: Option<BlockKind>,
    item: Option<ItemKind>,
) -> (state: StateCollectTarget)
    requires
        resolved(target.name@, block, item) is Some,
    ensures
        is_state_target(target.name@, block, item, state),
{
    let name = target.name.as_str();
    if same_text(name, "wood") {
        StateCollectTarget::wood()
    } else if same_text(name, "oak_log") {
        StateCollectTarget::oak_log()
    } else if same_text(name, "cobblestone") {
        StateCollectTarget::cobblestone()
    } else {
        match (block, item) {
            (Some(b), Some(i)) => StateCollectTarget::exact(name, b, i),
            _ => StateCollectTarget::oak_log(),
        }
    }
}

/// What a command comes to: the bot's new mode where it changes, what the bot does, what it
/// answers, and 1 where the command succeeded, else 0.
#[derive(Debug)]
pub struct CommandOutcome {
    pub mode: Option<BotMode>,
    pub actions: Vec<Action>,
    pub reply: String,
    pub result: i32,
}

/// A command that changes nothing but is answered.
pub open spec fn is_refused(outcome: CommandOutcome, reply: Seq<char>) -> bool {
    outcome.mode is None && outcome.actions@.len() == 0 && outcome.reply@ == reply && outcome.result
        == 0
}

fn refused(reply: String) -> (outcome: CommandOutcome)
    ensures
        is_refused(outcome, reply@),
{
    CommandOutcome { mode: None, actions: Vec::new(), reply, result: 0 }
}

fn stopped() -> (actions: Vec<Action>)
    ensures
        actions@ == seq![Action::StopPathfinding],
{
    let actions = vec![Action::StopPathfinding];
    assert(actions@ =~= seq![Action::StopPathfinding]);
    actions
}

/// `come`: the bot follows the player who asked, where it can see the player.
pub fn execute_come(player: Option<EntityId>) -> (outcome: CommandOutcome)
    ensures
        match player {
            Some(entity) => {
                &&& outcome.mode == Some(BotMode::Following(entity))
                &&& outcome.actions@.len() == 0
                &&& outcome.reply@ == "On my way!"@
                &&& outcome.result == 1
            },
            None => is_refused(outcome, "I can't see you!"@),
        },
{
    match player {
        Some(entity) => CommandOutcome {
            mode: Some(BotMode::Following(entity)),
            actions: Vec::new(),
            reply: "On my way!".to_owned(),
            result: 1,
        },
        None => refused("I can't see you!".to_owned()),
    }
}

/// `stop`: the bot is idle and stays where it is.
pub fn execute_stop() -> (outcome: CommandOutcome)
    ensures
        outcome.mode == Some(BotMode::Idle),
        outcome.actions@ == seq![Action::StopPathfinding],
        outcome.reply@ == "Stopping."@,
        outcome.result == 1,
{
    CommandOutcome {
        mode: Some(BotMode::Idle),
        actions: stopped(),
        reply: "Stopping.".to_owned(),
        result: 1,
    }
}

/// `build`: the bot stops and begins to build where it stands.
pub fn execute_build(
    id: u64,
    description: String,
    origin: BlockPos,
    chests: Vec<BlockPos>,
) -> (outcome: CommandOutcome)
    ensures
        outcome.mode == Some(
            BotMode::Building(
                BuildJob {
                    id,
                    description,
                    origin,
                    phase: BuildPhase::ScanningChests { chests, spawned: false },
                },
            ),
        ),
        outcome.actions@ == seq![Action::StopPathfinding],
        outcome.reply@ == "Building: "@ + description@ + ". Scanning nearby chests..."@,
        outcome.result == 1,
{
    let reply = "Building: ".to_owned().concat(description.as_str()).concat(
        ". Scanning nearby chests...",
    );
    CommandOutcome {
        mode: Some(queue_build(id, description, origin, chests)),
        actions: stopped(),
        reply,
        result: 1,
    }
}

/// What a bot collects after `collect`: nothing yet, counted from what it carries, with a way
/// back to where it stands.
pub open spec fn is_new_collection(
    name: Seq<char>,
    count: int,
    block: Option<BlockKind>,
    item: Option<ItemKind>,
    inventory: Seq<ItemStack>,
    bot_block: BlockPos,
    job: CollectJob,
) -> bool {
    &&& is_state_target(name, block, item, job.target)
    &&& job.requested_count == count
    &&& job.baseline_count == inventory_count(job.target, inventory)
    &&& job.phase == CollectPhase::Searching
    &&& job.active_block_target is None
    &&& job.active_stance_target is None
    &&& job.last_mined_block is None
    &&& job.return_anchor == bot_block
}

/// The items that a known target counts.
pub open spec fn counted_for(
    name: Seq<char>,
    item: Option<ItemKind>,
) -> Seq<ItemKind> {
    if name == "wood"@ {
        overworld_log_items()
    } else if name == "oak_log"@ {
        seq![ItemKind::OakLog]
    } else if name == "cobblestone"@ {
        seq![ItemKind::Cobblestone]
    } else {
        seq![item->0]
    }
}

/// What the bot carries of a target, where it is known, is such that a `u32` holds it.
pub open spec fn carried_fits(
    name: Seq<char>,
    block: Option<BlockKind>,
    item: Option<ItemKind>,
    inventory: Seq<ItemStack>,
) -> bool {
    resolved(name, block, item) is Some ==> matching_total(
        counted_for(name, item),
        stack_amounts(inventory),
    ) <= u32::MAX
}

/// Whether what the bot carries of a target, where it is known, is such that a `u32` holds it.
pub fn carried_in_range(
    target: &str,
    block: Option<BlockKind>,
    item: Option<ItemKind>,
    inventory: &Vec<ItemStack>,
) -> (r: bool)
    ensures
        r == carried_fits(target@, block, item, inventory@),
{
    match resolve_collect_target(target, block, item) {
        None => true,
        Some(resolved_target) => {
            let state = to_state_collect_target(&resolved_target, block, item);
            checked_inventory_count(&state, inventory).is_some()
        },
    }
}

/// `collect`: the bot stops and begins to collect, or answers why it does not.
pub fn execute_collect(
    target: &str,
    count: Option<i32>,
    block: Option<BlockKind>,
    item: Option<ItemKind>,
    inventory: &Vec<ItemStack>,
    bot_block: BlockPos,
) -> (outcome: CommandOutcome)
    requires
        carried_fits(target@, block, item, inventory@),
    ensures
        if resolved(target@, block, item) is None {
            is_refused(outcome, "I don't know how to collect "@ + target@ + "."@)
        } else if count_or_one(count) <= 0 {
            is_refused(
                outcome,
                "Count must be positive, got "@ + signed_decimal(count_or_one(count) as int) + "."@,
            )
        } else {
            &&& outcome.mode matches Some(BotMode::Collecting(job)) && is_new_collection(
                target@,
                count_or_one(count) as int,
                block,
                item,
                inventory@,
                bot_block,
                job,
            )
            &&& outcome.actions@ == seq![Action::StopPathfinding]
            &&& outcome.reply@ == "Collecting "@ + target@ + " x"@ + decimal(
                count_or_one(count) as int,
            ) + "."@
            &&& outcome.result == 1
        },
{
    match parse_collect_args(target, count, block, item) {
        Ok(request) => {
            let state = to_state_collect_target(&request.target, block, item);
            let baseline_count: u32 = current_inventory_count(&state, inventory);
            let job = CollectJob {
                baseline_count,
                ..CollectJob::new(state, request.count, bot_block)
            };
            let mut reply = "Collecting ".to_owned();
            reply.append(request.target.name.as_str());
            reply.append(" x");
            append_decimal(&mut reply, request.count as u64);
            reply.append(".");
            CommandOutcome {
                mode: Some(BotMode::Collecting(job)),
                actions: stopped(),
                reply,
                result: 1,
            }
        },
        Err(CollectError::UnknownTarget(name)) => refused(
            "I don't know how to collect ".to_owned().concat(name.as_str()).concat("."),
        ),
        Err(CollectError::InvalidCount(n)) => {
            let mut reply = "Count must be positive, got ".to_owned();
            append_signed(&mut reply, n as i64);
            reply.append(".");
            refused(reply)
        },
    }
}

/// A target that is known has as many names of blocks and items as the bot has kinds of blocks
/// and items to look for, and at least one of each.
pub proof fn known_targets_have_sources(
    name: Seq<char>,
    block: Option<BlockKind>,
    item: Option<ItemKind>,
    state: StateCollectTarget,
)
    requires
        resolved(name, block, item) is Some,
        is_state_target(name, block, item, state),
    ensures
        state.name@ == name,
        state.source_blocks@.len() == (resolved(name, block, item)->0).0.len(),
        state.counted_items@.len() == (resolved(name, block, item)->0).1.len(),
        state.source_blocks@.len() > 0,
        state.counted_items@.len() > 0,
        state.prefer_near_last_mined <==> name == "wood"@,
{
    reveal_strlit("wood");
    reveal_strlit("oak_log");
    reveal_strlit("cobblestone");
}

/// What a name stands for. Wood is all logs, mined one tree at a time; cobblestone is mined from
/// stone; oak logs are themselves. Any other name stands for its own block and item, where it is
/// the name of both, and for nothing else.
pub proof fn names_stand_for_their_blocks(
    name: Seq<char>,
    block: Option<BlockKind>,
    item: Option<ItemKind>,
    state: StateCollectTarget,
)
    requires
        resolved(name, block, item) is Some,
        is_state_target(name, block, item, state),
    ensures
        state.name@ == name,
        state.counted_items@ == counted_for(name, item),
        name == "wood"@ ==> state.source_blocks@ == overworld_log_blocks() && state.counted_items@
            == overworld_log_items() && state.prefer_near_last_mined,
        name == "cobblestone"@ ==> state.source_blocks@ == seq![BlockKind::Stone]
            && state.counted_items@ == seq![ItemKind::Cobblestone] && !state.prefer_near_last_mined,
        name == "oak_log"@ ==> state.source_blocks@ == seq![BlockKind::OakLog]
            && state.counted_items@ == seq![ItemKind::OakLog] && !state.prefer_near_last_mined,
        name != "wood"@ && name != "cobblestone"@ && name != "oak_log"@ ==> {
            &&& block is Some && item is Some
            &&& state.source_blocks@ == seq![block->0]
            &&& state.counted_items@ == seq![item->0]
            &&& !state.prefer_near_last_mined
        },
{
    reveal_strlit("wood");
    reveal_strlit("oak_log");
    reveal_strlit("cobblestone");
    assert("wood"@.len() == 4 && "oak_log"@.len() == 7 && "cobblestone"@.len() == 11);
}

/// A name is known where it is one of the three that are, or where there are a block and an item of
/// that name. Its own name is then that of the block and the item, but for wood, which has those of
/// all logs, and cobblestone, whose block is stone.
pub proof fn known_names_are_resolved(
    name: Seq<char>,
    block: Option<BlockKind>,
    item: Option<ItemKind>,
)
    ensures
        resolved(name, block, item) is Some <==> name == "wood"@ || name == "cobblestone"@ || name
            == "oak_log"@ || (block is Some && item is Some),
        resolved(name, block, item) matches Some((sources, items)) ==> {
            &&& name != "wood"@ && name != "cobblestone"@ ==> sources == seq![name] && items
                == seq![name]
            &&& name == "cobblestone"@ ==> sources == seq!["stone"@] && items == seq![name]
            &&& name == "wood"@ ==> sources == items && sources == wood_names()
        },
        wood_names() == seq![
            "oak_log"@,
            "spruce_log"@,
            "birch_log"@,
            "jungle_log"@,
            "acacia_log"@,
            "dark_oak_log"@,
            "mangrove_log"@,
            "cherry_log"@,
            "pale_oak_log"@,
        ],
        count_or_one(None) == 1,
        forall|n: i32| #[trigger] count_or_one(Some(n)) == n,
{
    reveal_strlit("wood");
    reveal_strlit("oak_log");
    reveal_strlit("cobblestone");
    assert("wood"@.len() == 4 && "oak_log"@.len() == 7 && "cobblestone"@.len() == 11);
}

/// A new collection counts from what the bot carries of what it collects: it has collected nothing
/// yet, wants as much as was asked for, searches, and its way back leads to where the bot stands.
pub proof fn new_collections_start_from_nothing(
    name: Seq<char>,
    count: int,
    block: Option<BlockKind>,
    item: Option<ItemKind>,
    inventory: Seq<ItemStack>,
    bot_block: BlockPos,
    job: CollectJob,
)
    requires
        is_new_collection(name, count, block, item, inventory, bot_block, job),
    ensures
        job.requested_count == count,
        collected_so_far(job, inventory) == 0,
        job.baseline_count == inventory_count(job.target, inventory),
        job.phase is Searching,
        job.active_block_target is None,
        job.active_stance_target is None,
        job.last_mined_block is None,
        job.return_anchor == bot_block,
        is_state_target(name, block, item, job.target),
{
}

/// A command that is refused neither changes what the bot does nor moves it: it is only answered.
pub proof fn refusals_change_nothing(outcome: CommandOutcome, reply: Seq<char>)
    requires
        is_refused(outcome, reply),
    ensures
        outcome.mode is None,
        outcome.actions@ == Seq::<Action>::empty(),
        outcome.reply@ == reply,
        outcome.result == 0,
{
}

/// What the bot carries fits where what it carries of the items that count for the target does, and
/// always where the target is unknown.
pub proof fn what_is_carried_is_counted(
    name: Seq<char>,
    block: Option<BlockKind>,
    item: Option<ItemKind>,
    inventory: Seq<ItemStack>,
    state: StateCollectTarget,
)
    ensures
        resolved(name, block, item) is None ==> carried_fits(name, block, item, inventory),
        resolved(name, block, item) is Some && is_state_target(name, block, item, state) ==> (
        carried_fits(name, block, item, inventory) <==> inventory_count(state, inventory)
            <= u32::MAX),
{
    if resolved(name, block, item) is Some && is_state_target(name, block, item, state) {
        names_stand_for_their_blocks(name, block, item, state);
    }
}

} // verus!
