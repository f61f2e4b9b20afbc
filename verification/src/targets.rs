//! What to collect, where to find it, and which block to take next.

use crate::counts::{count_in_list, kind_amounts, matching_total};
use crate::geometry::{distance_sq, lemma_distance_fits, wide_distance_sq, BlockPos};
use crate::kinds::{
    block_prefers_pickaxe, is_overworld_log, logs_drop_themselves, overworld_log_blocks,
    overworld_log_drops, overworld_log_items, overworld_logs, rock_takes_a_pickaxe, BlockKind,
    ItemKind, PreferredTool,
};
use crate::order::{
    before, better_of, first_least, first_least_exists, first_least_is_unique, held_index,
    held_rank, is_first_least, is_stable_order, stable_order, stably_before, Rank,
};
use vstd::prelude::*;
use vstd::string::*;

verus! {

/// What to collect: the blocks to mine for it and the items that count.
#[derive(Clone, Debug, PartialEq, Eq)]
pub struct CollectTarget {
    pub name: String,
    pub source_blocks: Vec<BlockKind>,
    pub counted_items: Vec<ItemKind>,
    pub prefer_near_last_mined: bool,
}

impl CollectTarget {
    /// A target with these parts.
    pub open spec fn is(
        self,
        name: Seq<char>,
        source_blocks: Seq<BlockKind>,
        counted_items: Seq<ItemKind>,
        prefer_near_last_mined: bool,
    ) -> bool {
        &&& self.name@ == name
        &&& self.source_blocks@ == source_blocks
        &&& self.counted_items@ == counted_items
        &&& self.prefer_near_last_mined == prefer_near_last_mined
    }

    /// Any log of the overworld, one tree at a time.
    pub fn wood() -> (target: CollectTarget)
        ensures
            target.is("wood"@, overworld_log_blocks(), overworld_log_items(), true),
    {
        CollectTarget {
            name: "wood".to_owned(),
            source_blocks: overworld_logs(),
            counted_items: overworld_log_drops(),
            prefer_near_last_mined: true,
        }
    }

    /// Logs of oak.
    pub fn oak_log() -> (target: CollectTarget)
        ensures
            target.is("oak_log"@, seq![BlockKind::OakLog], seq![ItemKind::OakLog], false),
    {
        CollectTarget::exact("oak_log", BlockKind::OakLog, ItemKind::OakLog)
    }

    /// Cobblestone, which stone drops.
    pub fn cobblestone() -> (target: CollectTarget)
        ensures
            target.is("cobblestone"@, seq![BlockKind::Stone], seq![ItemKind::Cobblestone], false),
    {
        CollectTarget::exact("cobblestone", BlockKind::Stone, ItemKind::Cobblestone)
    }

    /// One kind of block and the item that it drops.
    pub fn exact(name: &str, source_block: BlockKind, counted_item: ItemKind) -> (target:
        CollectTarget)
        ensures
            target.is(name@, seq![source_block], seq![counted_item], false),
    {
        let source_blocks = vec![source_block];
        let counted_items = vec![counted_item];
        assert(source_blocks@ =~= seq![source_block]);
        assert(counted_items@ =~= seq![counted_item]);
        CollectTarget {
            name: name.to_owned(),
            source_blocks,
            counted_items,
            prefer_near_last_mined: false,
        }
    }
}

/// The tool for a target: an axe where all its blocks are logs, a pickaxe where all are stone or
/// ore, else none.
pub open spec fn preferred_tool(source_blocks: Seq<BlockKind>) -> Option<PreferredTool> {
    if forall|i: int|
        0 <= i < source_blocks.len() ==> overworld_log_blocks().contains(
            #[trigger] source_blocks[i],
        ) {
        Some(PreferredTool::Axe)
    } else if forall|i: int|
        0 <= i < source_blocks.len() ==> block_prefers_pickaxe(#[trigger] source_blocks[i]) {
        Some(PreferredTool::Pickaxe)
    } else {
        None
    }
}

/// The tool to mine a target with.
pub fn preferred_tool_for_collect_target(target: &CollectTarget) -> (tool: Option<PreferredTool>)
    ensures
        tool == preferred_tool(target.source_blocks@),
{
    let blocks = &target.source_blocks;
    let mut all_logs: bool = true;
    let mut all_rock: bool = true;
    let mut i: usize = 0;
    while i < blocks.len()
        invariant
            i <= blocks@.len(),
            all_logs == forall|j: int|
                0 <= j < i ==> overworld_log_blocks().contains(#[trigger] blocks@[j]),
            all_rock == forall|j: int| 0 <= j < i ==> block_prefers_pickaxe(#[trigger] blocks@[j]),
        decreases blocks@.len() - i,
    {
        all_logs = is_overworld_log(blocks[i]) && all_logs;
        all_rock = block_prefers_pickaxe(blocks[i]) && all_rock;
        i = i + 1;
    }
    if all_logs {
        Some(PreferredTool::Axe)
    } else if all_rock {
        Some(PreferredTool::Pickaxe)
    } else {
        None
    }
}

/// What a bot that collects is doing.
#[derive(Clone, Copy, Debug, PartialEq, Eq, Structural)]
pub enum CollectPhase {
    Searching,
    MovingToBlock(BlockPos),
    Mining(BlockPos),
    Looting,
}

/// The phase after a search: on the way to the block that was found, or still searching.
pub fn next_collect_phase_after_search(target: Option<BlockPos>) -> (phase: CollectPhase)
    ensures
        phase == match target {
            Some(block) => CollectPhase::MovingToBlock(block),
            None => CollectPhase::Searching,
        },
{
    match target {
        Some(block) => CollectPhase::MovingToBlock(block),
        None => CollectPhase::Searching,
    }
}

/// How far a collection has come.
#[derive(Clone, Copy, Debug, PartialEq, Eq, Structural)]
pub struct CollectProgress {
    pub baseline: u32,
    pub current: u32,
    pub collected: u32,
}

/// What has been gained since the start, and zero where there is less than at the start.
pub open spec fn gained(current: int, baseline: int) -> int {
    if current > baseline {
        current - baseline
    } else {
        0
    }
}

/// How many of the counted items stand in a list of counts.
pub fn count_matching_items(target: &CollectTarget, slots: &[(ItemKind, u32)]) -> (sum: u32)
    requires
        matching_total(target.counted_items@, kind_amounts(slots@)) <= u32::MAX,
    ensures
        sum == matching_total(target.counted_items@, kind_amounts(slots@)),
{
    count_in_list(&target.counted_items, slots)
}

/// The progress from the counts at the start to the counts now.
pub fn collect_progress_from_counts(
    target: &CollectTarget,
    baseline: &[(ItemKind, u32)],
    current: &[(ItemKind, u32)],
) -> (progress: CollectProgress)
    requires
        matching_total(target.counted_items@, kind_amounts(baseline@)) <= u32::MAX,
        matching_total(target.counted_items@, kind_amounts(current@)) <= u32::MAX,
    ensures
        progress.baseline == matching_total(target.counted_items@, kind_amounts(baseline@)),
        progress.current == matching_total(target.counted_items@, kind_amounts(current@)),
        progress.collected == gained(progress.current as int, progress.baseline as int),
{
    let baseline_count: u32 = count_matching_items(target, baseline);
    let current_count: u32 = count_matching_items(target, current);
    CollectProgress {
        baseline: baseline_count,
        current: current_count,
        collected: current_count.saturating_sub(baseline_count),
    }
}

/// Whether a candidate lies within three blocks of the block mined last, where that is preferred.
pub open spec fn is_near_last(c: BlockPos, last_mined: Option<BlockPos>, prefer: bool) -> bool {
    prefer && (last_mined matches Some(last) && distance_sq(c, last) <= 9)
}

/// Candidates near the block mined last come first, by their distance to it. The others follow,
/// by their distance to the bot and then to the anchor, where there is one.
pub open spec fn candidate_rank(
    c: BlockPos,
    bot_pos: BlockPos,
    anchor: Option<BlockPos>,
    last_mined: Option<BlockPos>,
    prefer: bool,
) -> Rank {
    if is_near_last(c, last_mined, prefer) {
        Rank { major: 0, minor: distance_sq(c, last_mined->0) as i128, last: 0 }
    } else {
        Rank {
            major: 1,
            minor: distance_sq(c, bot_pos) as i128,
            last: match anchor {
                Some(a) => distance_sq(c, a) as i128,
                None => 0,
            },
        }
    }
}

fn rank_candidate(
    c: BlockPos,
    bot_pos: BlockPos,
    anchor: Option<BlockPos>,
    last_mined: Option<BlockPos>,
    prefer: bool,
) -> (rank: Rank)
    ensures
        rank == candidate_rank(c, bot_pos, anchor, last_mined, prefer),
{
    if prefer {
        match last_mined {
            Some(last) => {
                let d: i128 = wide_distance_sq(c, last);
                if d <= 9 {
                    return Rank { major: 0, minor: d, last: 0 };
                }
            },
            None => {},
        }
    }
    Rank {
        major: 1,
        minor: wide_distance_sq(c, bot_pos),
        last: match anchor {
            Some(a) => wide_distance_sq(c, a),
            None => 0,
        },
    }
}

/// The ranks of the candidates that may be taken, `None` in the places of the others.
pub open spec fn candidate_ranks(
    candidates: Seq<BlockPos>,
    bot_pos: BlockPos,
    anchor: Option<BlockPos>,
    last_mined: Option<BlockPos>,
    prefer: bool,
    allowed: spec_fn(BlockPos) -> bool,
) -> Seq<Option<Rank>> {
    Seq::new(
        candidates.len(),
        |i: int|
            if allowed(candidates[i]) {
                Some(candidate_rank(candidates[i], bot_pos, anchor, last_mined, prefer))
            } else {
                None
            },
    )
}

/// The candidate to take next, whatever its surroundings.
pub open spec fn next_block(
    candidates: Seq<BlockPos>,
    bot_pos: BlockPos,
    last_mined: Option<BlockPos>,
    prefer: bool,
) -> Option<BlockPos> {
    match first_least(
        candidate_ranks(candidates, bot_pos, None, last_mined, prefer, |c: BlockPos| true),
    ) {
        Some(i) => Some(candidates[i]),
        None => None,
    }
}

/// The candidate to take next: the one nearest to the block mined last, where one within three
/// blocks of it is preferred and there is one; else the one nearest to the bot.
pub fn choose_next_collect_block(
    candidates: &[BlockPos],
    bot_pos: BlockPos,
    last_mined: Option<BlockPos>,
    prefer_near_last_mined: bool,
) -> (chosen: Option<BlockPos>)
    ensures
        chosen == next_block(candidates@, bot_pos, last_mined, prefer_near_last_mined),
{
    let ghost ranks = candidate_ranks(
        candidates@,
        bot_pos,
        None,
        last_mined,
        prefer_near_last_mined,
        |c: BlockPos| true,
    );
    let mut best: Option<(u128, Rank)> = None;
    let mut i: usize = 0;
    while i < candidates.len()
        invariant
            i <= candidates@.len(),
            ranks == candidate_ranks(
                candidates@,
                bot_pos,
                None,
                last_mined,
                prefer_near_last_mined,
                |c: BlockPos| true,
            ),
            best matches Some((k, _)) ==> k < i,
            is_first_least(ranks, i as int, held_index(best)),
            held_rank(ranks, best),
        decreases candidates@.len() - i,
    {
        let rank = rank_candidate(
            candidates[i],
            bot_pos,
            None,
            last_mined,
            prefer_near_last_mined,
        );
        best = better_of(best, i as u128, Some(rank));
        i = i + 1;
    }
    proof {
        first_least_is_unique(ranks, held_index(best));
    }
    match best {
        None => None,
        Some((k, _)) => Some(candidates[k as usize]),
    }
}

/// Every answer of `safe_stance_for` is the one that `stances` gives.
pub open spec fn reports_stances<F: Fn(BlockPos) -> Option<BlockPos>>(
    safe_stance_for: F,
    stances: spec_fn(BlockPos) -> Option<BlockPos>,
) -> bool {
    forall|pos: BlockPos, answer: Option<BlockPos>|
        #[trigger] call_ensures(safe_stance_for, (pos,), answer) ==> answer == stances(pos)
}

/// The candidate to take next among those with a safe stance, with that stance.
pub open spec fn next_safe_block(
    candidates: Seq<BlockPos>,
    bot_pos: BlockPos,
    anchor: BlockPos,
    last_mined: Option<BlockPos>,
    prefer: bool,
    stances: spec_fn(BlockPos) -> Option<BlockPos>,
) -> Option<(BlockPos, BlockPos)> {
    match first_least(
        candidate_ranks(
            candidates,
            bot_pos,
            Some(anchor),
            last_mined,
            prefer,
            |c: BlockPos| stances(c) is Some,
        ),
    ) {
        Some(i) => Some((candidates[i], stances(candidates[i])->0)),
        None => None,
    }
}

/// The ranks of all candidates.
pub open spec fn ranks_of(
    candidates: Seq<BlockPos>,
    bot_pos: BlockPos,
    anchor: BlockPos,
    last_mined: Option<BlockPos>,
    prefer: bool,
) -> Seq<Rank> {
    Seq::new(
        candidates.len(),
        |i: int| candidate_rank(candidates[i], bot_pos, Some(anchor), last_mined, prefer),
    )
}

/// `chosen` is what came of asking for stances from the first candidate in order on: the first
/// that a stance was given for, with this stance. None was given for those before it, and for
/// none at all where nothing is chosen.
pub open spec fn is_first_answered<F: Fn(BlockPos) -> Option<BlockPos>>(
    candidates: Seq<BlockPos>,
    ranks: Seq<Rank>,
    safe_stance_for: F,
    chosen: Option<(BlockPos, BlockPos)>,
) -> bool {
    match chosen {
        None => forall|i: int|
            0 <= i < candidates.len() ==> call_ensures(
                safe_stance_for,
                (#[trigger] candidates[i],),
                None,
            ),
        Some((block, stance)) => exists|i: int|
            {
                &&& 0 <= i < candidates.len()
                &&& #[trigger] candidates[i] == block
                &&& call_ensures(safe_stance_for, (block,), Some(stance))
                &&& forall|j: int|
                    0 <= j < candidates.len() && stably_before(ranks, j, i) ==> call_ensures(
                        safe_stance_for,
                        (#[trigger] candidates[j],),
                        None,
                    )
            },
    }
}

/// The candidate to take next and the stance to take it from. Candidates without a safe stance
/// are passed over.
pub fn choose_safe_collect_target<F: Fn(BlockPos) -> Option<BlockPos>>(
    candidates: &[BlockPos],
    bot_pos: BlockPos,
    anchor: BlockPos,
    last_mined: Option<BlockPos>,
    prefer_near_last_mined: bool,
    safe_stance_for: F,
) -> (chosen: Option<(BlockPos, BlockPos)>)
    requires
        forall|i: int|
            0 <= i < candidates@.len() ==> call_requires(
                safe_stance_for,
                (#[trigger] candidates@[i],),
            ),
    ensures
        forall|stances: spec_fn(BlockPos) -> Option<BlockPos>| #[trigger]
            reports_stances(safe_stance_for, stances) ==> chosen == next_safe_block(
                candidates@,
                bot_pos,
                anchor,
                last_mined,
                prefer_near_last_mined,
                stances,
            ),
        is_first_answered(
            candidates@,
            ranks_of(candidates@, bot_pos, anchor, last_mined, prefer_near_last_mined),
            safe_stance_for,
            chosen,
        ),
{
    let mut ranks: Vec<Rank> = Vec::new();
    let mut i: usize = 0;
    while i < candidates.len()
        invariant
            i <= candidates@.len(),
            ranks@.len() == i,
            forall|j: int|
                0 <= j < i ==> (#[trigger] ranks@[j]) == candidate_rank(
                    candidates@[j],
                    bot_pos,
                    Some(anchor),
                    last_mined,
                    prefer_near_last_mined,
                ),
        decreases candidates@.len() - i,
    {
        ranks.push(
            rank_candidate(
                candidates[i],
                bot_pos,
                Some(anchor),
                last_mined,
                prefer_near_last_mined,
            ),
        );
        i = i + 1;
    }
    let order = stable_order(&ranks);
    let mut k: usize = 0;
    while k < order.len()
        invariant
            k <= order@.len(),
            ranks@.len() == candidates@.len(),
            is_stable_order(ranks@, order@),
            forall|j: int|
                0 <= j < ranks@.len() ==> (#[trigger] ranks@[j]) == candidate_rank(
                    candidates@[j],
                    bot_pos,
                    Some(anchor),
                    last_mined,
                    prefer_near_last_mined,
                ),
            forall|i: int|
                0 <= i < candidates@.len() ==> call_requires(
                    safe_stance_for,
                    (#[trigger] candidates@[i],),
                ),
            forall|stances: spec_fn(BlockPos) -> Option<BlockPos>| #[trigger]
                reports_stances(safe_stance_for, stances) ==> forall|j: int|
                    0 <= j < k ==> stances(candidates@[#[trigger] order@[j] as int]) is None,
            forall|j: int|
                0 <= j < k ==> call_ensures(
                    safe_stance_for,
                    (candidates@[#[trigger] order@[j] as int],),
                    None,
                ),
        decreases order@.len() - k,
    {
        let candidate = candidates[order[k]];
        match safe_stance_for(candidate) {
            Some(stance) => {
                proof {
                    assert forall|stances: spec_fn(BlockPos) -> Option<BlockPos>| #[trigger]
                        reports_stances(safe_stance_for, stances) implies Some((candidate, stance))
                        == next_safe_block(
                        candidates@,
                        bot_pos,
                        anchor,
                        last_mined,
                        prefer_near_last_mined,
                        stances,
                    ) by {
                        lemma_first_in_order(
                            candidates@,
                            bot_pos,
                            anchor,
                            last_mined,
                            prefer_near_last_mined,
                            stances,
                            ranks@,
                            order@,
                            k as int,
                        );
                    }
                }
                proof {
                    let all = ranks_of(
                        candidates@,
                        bot_pos,
                        anchor,
                        last_mined,
                        prefer_near_last_mined,
                    );
                    assert(all =~= ranks@);
                    let i = order@[k as int] as int;
                    assert forall|j: int|
                        0 <= j < candidates@.len() && stably_before(all, j, i) implies call_ensures(
                        safe_stance_for,
                        (#[trigger] candidates@[j],),
                        None,
                    ) by {
                        assert(order@.contains(j as usize));
                        let m = choose|m: int| 0 <= m < order@.len() && order@[m] == j as usize;
                        if m > k {
                            assert(stably_before(ranks@, order@[k as int] as int, order@[m] as int));
                        }
                    }
                    assert(candidates@[i] == candidate);
                }
                return Some((candidate, stance));
            },
            None => {},
        }
        k = k + 1;
    }
    proof {
        assert forall|stances: spec_fn(BlockPos) -> Option<BlockPos>| #[trigger]
            reports_stances(safe_stance_for, stances) implies next_safe_block(
            candidates@,
            bot_pos,
            anchor,
            last_mined,
            prefer_near_last_mined,
            stances,
        ) is None by {
            let allowed = candidate_ranks(
                candidates@,
                bot_pos,
                Some(anchor),
                last_mined,
                prefer_near_last_mined,
                |c: BlockPos| stances(c) is Some,
            );
            assert forall|j: int| 0 <= j < allowed.len() implies (#[trigger] allowed[j]) is None by {
                assert(order@.contains(j as usize));
                let m = choose|m: int| 0 <= m < order@.len() && order@[m] == j as usize;
                assert(stances(candidates@[order@[m] as int]) is None);
            }
            first_least_is_unique(allowed, None);
        }
        assert forall|i: int| 0 <= i < candidates@.len() implies call_ensures(
            safe_stance_for,
            (#[trigger] candidates@[i],),
            None,
        ) by {
            assert(order@.contains(i as usize));
            let m = choose|m: int| 0 <= m < order@.len() && order@[m] == i as usize;
            assert(order@[m] as int == i);
        }
    }
    None
}

/// The first position in stable order that is allowed is the first of the least allowed ones.
proof fn lemma_first_in_order(
    candidates: Seq<BlockPos>,
    bot_pos: BlockPos,
    anchor: BlockPos,
    last_mined: Option<BlockPos>,
    prefer: bool,
    stances: spec_fn(BlockPos) -> Option<BlockPos>,
    ranks: Seq<Rank>,
    order: Seq<usize>,
    k: int,
)
    requires
        ranks.len() == candidates.len(),
        ranks.len() <= usize::MAX,
        is_stable_order(ranks, order),
        0 <= k < order.len(),
        forall|j: int|
            0 <= j < ranks.len() ==> (#[trigger] ranks[j]) == candidate_rank(
                candidates[j],
                bot_pos,
                Some(anchor),
                last_mined,
                prefer,
            ),
        forall|j: int| 0 <= j < k ==> stances(candidates[#[trigger] order[j] as int]) is None,
        stances(candidates[order[k] as int]) is Some,
    ensures
        next_safe_block(candidates, bot_pos, anchor, last_mined, prefer, stances) == Some(
            (candidates[order[k] as int], stances(candidates[order[k] as int])->0),
        ),
{
    let allowed = candidate_ranks(
        candidates,
        bot_pos,
        Some(anchor),
        last_mined,
        prefer,
        |c: BlockPos| stances(c) is Some,
    );
    let best = order[k] as int;
    assert(ranks[best] == allowed[best]->0);
    assert forall|j: int| 0 <= j < allowed.len() && (#[trigger] allowed[j]) is Some implies !before(
        allowed[j]->0,
        allowed[best]->0,
    ) && (j < best ==> before(allowed[best]->0, allowed[j]->0)) by {
        assert(order.contains(j as usize));
        let m = choose|m: int| 0 <= m < order.len() && order[m] == j as usize;
        assert(ranks[j] == allowed[j]->0);
        if m < k {
            assert(stances(candidates[order[m] as int]) is None);
        } else if m > k {
            assert(stably_before(ranks, order[k] as int, order[m] as int));
        }
    }
    first_least_is_unique(allowed, Some(best));
}

/// A chosen target is one of the candidates, its stance is the one found for it, and no candidate
/// with a stance ranks before it; none is chosen only where no candidate has a stance.
pub proof fn chosen_target_is_first_with_a_stance(
    candidates: Seq<BlockPos>,
    bot_pos: BlockPos,
    anchor: BlockPos,
    last_mined: Option<BlockPos>,
    prefer: bool,
    stances: spec_fn(BlockPos) -> Option<BlockPos>,
    i: int,
)
    requires
        0 <= i < candidates.len(),
    ensures
        match next_safe_block(candidates, bot_pos, anchor, last_mined, prefer, stances) {
            None => stances(candidates[i]) is None,
            Some((chosen, stance)) => {
                &&& candidates.contains(chosen)
                &&& stances(chosen) == Some(stance)
                &&& stances(candidates[i]) is Some ==> !before(
                    candidate_rank(candidates[i], bot_pos, Some(anchor), last_mined, prefer),
                    candidate_rank(chosen, bot_pos, Some(anchor), last_mined, prefer),
                )
            },
        },
{
    let ranks = candidate_ranks(
        candidates,
        bot_pos,
        Some(anchor),
        last_mined,
        prefer,
        |c: BlockPos| stances(c) is Some,
    );
    first_least_exists(ranks);
    let _ = ranks[i];
}

/// Where blocks near the one mined last are preferred, and one of them has a safe stance, such a
/// block is chosen, and none with a stance lies nearer to the one mined last.
pub proof fn nearby_blocks_come_first(
    candidates: Seq<BlockPos>,
    bot_pos: BlockPos,
    anchor: BlockPos,
    last: BlockPos,
    stances: spec_fn(BlockPos) -> Option<BlockPos>,
    i: int,
)
    requires
        0 <= i < candidates.len(),
        distance_sq(candidates[i], last) <= 9,
        stances(candidates[i]) is Some,
    ensures
        next_safe_block(candidates, bot_pos, anchor, Some(last), true, stances) matches Some(
            (chosen, _),
        ) && distance_sq(chosen, last) <= distance_sq(candidates[i], last),
{
    chosen_target_is_first_with_a_stance(
        candidates,
        bot_pos,
        anchor,
        Some(last),
        true,
        stances,
        i,
    );
    let (chosen, _) = next_safe_block(candidates, bot_pos, anchor, Some(last), true, stances)->0;
    lemma_distance_fits(candidates[i], last);
    lemma_distance_fits(chosen, last);
}

/// There is a next block wherever there are candidates, and without a preference none is nearer
/// to the bot.
pub proof fn next_block_is_nearest(
    candidates: Seq<BlockPos>,
    bot_pos: BlockPos,
    last_mined: Option<BlockPos>,
    i: int,
)
    requires
        0 <= i < candidates.len(),
    ensures
        next_block(candidates, bot_pos, last_mined, false) matches Some(chosen)
            && candidates.contains(chosen) && distance_sq(chosen, bot_pos) <= distance_sq(
            candidates[i],
            bot_pos,
        ),
{
    let ranks = candidate_ranks(
        candidates,
        bot_pos,
        None,
        last_mined,
        false,
        |c: BlockPos| true,
    );
    first_least_exists(ranks);
    let _ = ranks[i];
    lemma_distance_fits(candidates[i], bot_pos);
    if let Some(k) = first_least(ranks) {
        lemma_distance_fits(candidates[k], bot_pos);
    }
}

/// The order of columns: by x, then by z.
pub open spec fn column_before(a: BlockPos, b: BlockPos) -> bool {
    a.x < b.x || (a.x == b.x && a.z < b.z)
}

/// Two blocks stand in one column.
pub open spec fn same_column(a: BlockPos, b: BlockPos) -> bool {
    a.x == b.x && a.z == b.z
}

/// Some block of `blocks` stands in the column of `c`.
pub open spec fn has_column(blocks: Seq<BlockPos>, c: BlockPos) -> bool {
    exists|k: int| 0 <= k < blocks.len() && #[trigger] same_column(c, blocks[k])
}

/// No block of `candidates` stands below `c` in its column.
pub open spec fn is_lowest_in_column(candidates: Seq<BlockPos>, c: BlockPos) -> bool {
    forall|i: int|
        0 <= i < candidates.len() && #[trigger] same_column(candidates[i], c) ==> c.y
            <= candidates[i].y
}

/// `lowest` holds the lowest candidate of each column, in the order of the columns.
pub open spec fn is_lowest_by_column(candidates: Seq<BlockPos>, lowest: Seq<BlockPos>) -> bool {
    &&& forall|i: int, j: int|
        0 <= i < j < lowest.len() ==> #[trigger] column_before(lowest[i], lowest[j])
    &&& forall|k: int| 0 <= k < lowest.len() ==> #[trigger] candidates.contains(lowest[k])
    &&& forall|k: int|
        0 <= k < lowest.len() ==> #[trigger] is_lowest_in_column(candidates, lowest[k])
    &&& forall|i: int| 0 <= i < candidates.len() ==> #[trigger] has_column(lowest, candidates[i])
}

/// The candidates as the search takes them: where columns collapse, only the lowest block of each
/// column, in the order of the columns; else all as they are.
pub open spec fn is_normalized(
    candidates: Seq<BlockPos>,
    collapse_vertical_columns: bool,
    normalized: Seq<BlockPos>,
) -> bool {
    if collapse_vertical_columns {
        is_lowest_by_column(candidates, normalized)
    } else {
        normalized == candidates
    }
}

/// The candidates as the search takes them.
pub open spec fn normalized(
    candidates: Seq<BlockPos>,
    collapse_vertical_columns: bool,
) -> Seq<BlockPos> {
    choose|n: Seq<BlockPos>| is_normalized(candidates, collapse_vertical_columns, n)
}

/// The candidates as the search takes them.
pub fn normalize_collect_candidates(
    candidates: &[BlockPos],
    collapse_vertical_columns: bool,
) -> (result: Vec<BlockPos>)
    ensures
        is_normalized(candidates@, collapse_vertical_columns, result@),
        result@ == normalized(candidates@, collapse_vertical_columns),
{
    if !collapse_vertical_columns {
        let mut all: Vec<BlockPos> = Vec::new();
        let mut i: usize = 0;
        while i < candidates.len()
            invariant
                i <= candidates@.len(),
                all@ == candidates@.take(i as int),
            decreases candidates@.len() - i,
        {
            all.push(candidates[i]);
            i = i + 1;
        }
        assert(all@ =~= candidates@);
        assert(is_normalized(candidates@, false, all@));
        return all;
    }
    let mut ranks: Vec<Rank> = Vec::new();
    let mut i: usize = 0;
    while i < candidates.len()
        invariant
            i <= candidates@.len(),
            ranks@.len() == i,
            forall|j: int| 0 <= j < i ==> (#[trigger] ranks@[j]) == column_rank(candidates@[j]),
        decreases candidates@.len() - i,
    {
        let c = candidates[i];
        ranks.push(Rank { major: c.x as i128, minor: c.z as i128, last: c.y as i128 });
        i = i + 1;
    }
    let order = stable_order(&ranks);
    let mut lowest: Vec<BlockPos> = Vec::new();
    let mut k: usize = 0;
    while k < order.len()
        invariant
            k <= order@.len(),
            ranks@.len() == candidates@.len(),
            forall|j: int|
                0 <= j < ranks@.len() ==> (#[trigger] ranks@[j]) == column_rank(candidates@[j]),
            is_stable_order(ranks@, order@),
            lowest@.len() > 0 <==> k > 0,
            k > 0 ==> same_column(lowest@.last(), candidates@[order@[k - 1] as int]),
            forall|i: int, j: int|
                0 <= i < j < lowest@.len() ==> #[trigger] column_before(lowest@[i], lowest@[j]),
            forall|m: int| 0 <= m < lowest@.len() ==> #[trigger] candidates@.contains(lowest@[m]),
            forall|m: int|
                0 <= m < lowest@.len() ==> #[trigger] is_lowest_in_column(candidates@, lowest@[m]),
            forall|j: int|
                0 <= j < k ==> has_column(lowest@, candidates@[#[trigger] order@[j] as int]),
        decreases order@.len() - k,
    {
        let c = candidates[order[k]];
        let ghost previous = lowest@;
        let new_column: bool = if lowest.len() == 0 {
            true
        } else {
            let last = lowest[lowest.len() - 1];
            last.x != c.x || last.z != c.z
        };
        proof {
            assert(ranks@[order@[k as int] as int] == column_rank(c));
        }
        if new_column {
            lowest.push(c);
            proof {
                lemma_new_column(candidates@, ranks@, order@, previous, k as int);
                assert(lowest@ == previous.push(c));
            }
        } else {
            assert(same_column(c, lowest@[lowest@.len() - 1]));
        }
        k = k + 1;
    }
    proof {
        assert forall|i: int| 0 <= i < candidates@.len() implies #[trigger] has_column(
            lowest@,
            candidates@[i],
        ) by {
            assert(order@.contains(i as usize));
            let j = choose|j: int| 0 <= j < order@.len() && order@[j] == i as usize;
            assert(has_column(lowest@, candidates@[order@[j] as int]));
        }
        assert(is_normalized(candidates@, true, lowest@));
        lowest_by_column_is_unique(candidates@, lowest@, normalized(candidates@, true));
    }
    lowest
}

/// A block that opens a new column extends the list of the lowest blocks.
proof fn lemma_new_column(
    candidates: Seq<BlockPos>,
    ranks: Seq<Rank>,
    order: Seq<usize>,
    lowest: Seq<BlockPos>,
    k: int,
)
    requires
        ranks.len() == candidates.len(),
        ranks.len() <= usize::MAX,
        0 <= k < order.len(),
        forall|j: int|
            0 <= j < ranks.len() ==> (#[trigger] ranks[j]) == column_rank(candidates[j]),
        is_stable_order(ranks, order),
        lowest.len() > 0 <==> k > 0,
        k > 0 ==> same_column(lowest.last(), candidates[order[k - 1] as int]),
        k > 0 ==> !same_column(lowest.last(), candidates[order[k] as int]),
        forall|i: int, j: int|
            0 <= i < j < lowest.len() ==> #[trigger] column_before(lowest[i], lowest[j]),
        forall|m: int| 0 <= m < lowest.len() ==> #[trigger] candidates.contains(lowest[m]),
        forall|m: int|
            0 <= m < lowest.len() ==> #[trigger] is_lowest_in_column(candidates, lowest[m]),
        forall|j: int| 0 <= j < k ==> has_column(lowest, candidates[#[trigger] order[j] as int]),
    ensures
        ({
            let longer = lowest.push(candidates[order[k] as int]);
            &&& forall|i: int, j: int|
                0 <= i < j < longer.len() ==> #[trigger] column_before(longer[i], longer[j])
            &&& forall|m: int| 0 <= m < longer.len() ==> #[trigger] candidates.contains(longer[m])
            &&& forall|m: int|
                0 <= m < longer.len() ==> #[trigger] is_lowest_in_column(candidates, longer[m])
            &&& forall|j: int|
                0 <= j < k + 1 ==> has_column(longer, candidates[#[trigger] order[j] as int])
        }),
{
    let c = candidates[order[k] as int];
    let longer = lowest.push(c);
    assert(ranks[order[k] as int] == column_rank(c));
    if k > 0 {
        let d = candidates[order[k - 1] as int];
        assert(stably_before(ranks, order[k - 1] as int, order[k] as int));
        assert(ranks[order[k - 1] as int] == column_rank(d));
        assert(column_before(lowest.last(), c));
    }
    assert forall|i: int, j: int| 0 <= i < j < longer.len() implies #[trigger] column_before(
        longer[i],
        longer[j],
    ) by {
        if j < lowest.len() {
            assert(column_before(lowest[i], lowest[j]));
        } else if i < lowest.len() - 1 {
            assert(column_before(lowest[i], lowest[lowest.len() - 1]));
        }
    }
    assert forall|m: int| 0 <= m < longer.len() implies #[trigger] candidates.contains(
        longer[m],
    ) by {
        if m < lowest.len() {
            assert(candidates.contains(lowest[m]));
        }
    }
    assert(is_lowest_in_column(candidates, c)) by {
        assert forall|i: int| 0 <= i < candidates.len() && #[trigger] same_column(
            candidates[i],
            c,
        ) implies c.y <= candidates[i].y by {
            assert(order.contains(i as usize));
            let j = choose|j: int| 0 <= j < order.len() && order[j] == i as usize;
            assert(ranks[order[j] as int] == column_rank(candidates[i]));
            if j < k {
                assert(has_column(lowest, candidates[order[j] as int]));
                let n = choose|n: int|
                    0 <= n < lowest.len() && #[trigger] same_column(candidates[i], lowest[n]);
                assert(column_before(longer[n], longer[lowest.len() as int]));
            } else if j > k {
                assert(stably_before(ranks, order[k] as int, order[j] as int));
            }
        }
    }
    assert forall|m: int| 0 <= m < longer.len() implies #[trigger] is_lowest_in_column(
        candidates,
        longer[m],
    ) by {
        if m < lowest.len() {
            assert(is_lowest_in_column(candidates, lowest[m]));
        }
    }
    assert forall|j: int| 0 <= j < k + 1 implies has_column(
        longer,
        candidates[#[trigger] order[j] as int],
    ) by {
        let e = candidates[order[j] as int];
        if j < k {
            assert(has_column(lowest, e));
            let n = choose|n: int| 0 <= n < lowest.len() && #[trigger] same_column(e, lowest[n]);
            assert(same_column(e, longer[n]));
        } else {
            assert(same_column(e, longer[lowest.len() as int]));
        }
    }
}

/// Blocks by column, and by height within a column.
spec fn column_rank(c: BlockPos) -> Rank {
    Rank { major: c.x as i128, minor: c.z as i128, last: c.y as i128 }
}

/// There is only one list of the lowest blocks.
pub proof fn lowest_by_column_is_unique(
    candidates: Seq<BlockPos>,
    a: Seq<BlockPos>,
    b: Seq<BlockPos>,
)
    requires
        is_lowest_by_column(candidates, a),
        is_lowest_by_column(candidates, b),
    ensures
        a == b,
{
    lemma_same_prefix(candidates, a, b, a.len() as int);
    lemma_same_prefix(candidates, b, a, b.len() as int);
    assert(a =~= b);
}

/// Each block of one list stands at the same place in the other.
proof fn lemma_same_prefix(
    candidates: Seq<BlockPos>,
    a: Seq<BlockPos>,
    b: Seq<BlockPos>,
    n: int,
)
    requires
        is_lowest_by_column(candidates, a),
        is_lowest_by_column(candidates, b),
        0 <= n <= a.len(),
    ensures
        n <= b.len(),
        forall|i: int| 0 <= i < n ==> a[i] == b[i],
    decreases n,
{
    if n > 0 {
        lemma_same_prefix(candidates, a, b, n - 1);
        let k = lemma_listed(candidates, a, b, n - 1);
        if k < n - 1 {
            assert(column_before(a[k], a[n - 1]));
        } else if k > n - 1 {
            let m = lemma_listed(candidates, b, a, n - 1);
            assert(column_before(b[n - 1], b[k]));
            if m < n - 1 {
                assert(column_before(b[m], b[n - 1]));
            } else if m > n - 1 {
                assert(column_before(a[n - 1], a[m]));
            }
        }
    }
}

/// The place in `b` of the block at place `i` of `a`.
proof fn lemma_listed(
    candidates: Seq<BlockPos>,
    a: Seq<BlockPos>,
    b: Seq<BlockPos>,
    i: int,
) -> (k: int)
    requires
        is_lowest_by_column(candidates, a),
        is_lowest_by_column(candidates, b),
        0 <= i < a.len(),
    ensures
        0 <= k < b.len(),
        b[k] == a[i],
{
    assert(candidates.contains(a[i]));
    assert(is_lowest_in_column(candidates, a[i]));
    let c = choose|c: int| 0 <= c < candidates.len() && candidates[c] == a[i];
    assert(has_column(b, candidates[c]));
    let k = choose|k: int| 0 <= k < b.len() && #[trigger] same_column(candidates[c], b[k]);
    assert(candidates.contains(b[k]));
    assert(is_lowest_in_column(candidates, b[k]));
    let d = choose|d: int| 0 <= d < candidates.len() && candidates[d] == b[k];
    assert(same_column(candidates[d], a[i]));
    assert(same_column(candidates[c], b[k]));
    k
}

/// Collapsing columns that are collapsed already changes nothing.
pub proof fn normalizing_is_idempotent(
    candidates: Seq<BlockPos>,
    collapse_vertical_columns: bool,
    once: Seq<BlockPos>,
    twice: Seq<BlockPos>,
)
    requires
        is_normalized(candidates, collapse_vertical_columns, once),
        is_normalized(once, collapse_vertical_columns, twice),
    ensures
        twice == once,
{
    if collapse_vertical_columns {
        assert forall|k: int| 0 <= k < once.len() implies #[trigger] is_lowest_in_column(
            once,
            once[k],
        ) by {
            assert forall|i: int| 0 <= i < once.len() && #[trigger] same_column(
                once[i],
                once[k],
            ) implies once[k].y <= once[i].y by {
                if i < k {
                    assert(column_before(once[i], once[k]));
                }
                if k < i {
                    assert(column_before(once[k], once[i]));
                }
            }
        }
        assert forall|i: int| 0 <= i < once.len() implies #[trigger] has_column(once, once[i]) by {
            assert(same_column(once[i], once[i]));
        }
        lowest_by_column_is_unique(once, once, twice);
    }
}

/// Whether a block is one of those to mine for a target.
pub open spec fn is_source_block(target: CollectTarget, block: Option<BlockKind>) -> bool {
    block matches Some(kind) && target.source_blocks@.contains(kind)
}

/// Whether the block found at a place is one of those to mine for a target.
pub fn block_is_collect_target(target: &CollectTarget, block: Option<BlockKind>) -> (r: bool)
    ensures
        r == is_source_block(*target, block),
{
    match block {
        None => false,
        Some(kind) => {
            let blocks = &target.source_blocks;
            let mut i: usize = 0;
            while i < blocks.len()
                invariant
                    i <= blocks@.len(),
                    blocks@ == target.source_blocks@,
                    block == Some(kind),
                    forall|j: int| 0 <= j < i ==> blocks@[j] != kind,
                decreases blocks@.len() - i,
            {
                if blocks[i] == kind {
                    assert(blocks@[i as int] == kind);
                    return true;
                }
                i = i + 1;
            }
            false
        },
    }
}

/// Every answer of `find_blocks` is the one that `found` gives.
pub open spec fn reports_found<F: Fn(BlockKind) -> Vec<BlockPos>>(
    find_blocks: F,
    found: spec_fn(BlockKind) -> Seq<BlockPos>,
) -> bool {
    forall|kind: BlockKind, answer: Vec<BlockPos>|
        #[trigger] call_ensures(find_blocks, (kind,), answer) ==> answer@ == found(kind)
}

/// `pos` is among the blocks that `find_blocks` gives for some kind.
pub open spec fn was_found<F: Fn(BlockKind) -> Vec<BlockPos>>(find_blocks: F, pos: BlockPos) -> bool {
    exists|kind: BlockKind, answer: Vec<BlockPos>|
        #[trigger] call_ensures(find_blocks, (kind,), answer) && answer@.contains(pos)
}

/// The blocks of the first kind, then those of the second, and so on.
pub open spec fn found_in_turn(
    kinds: Seq<BlockKind>,
    found: spec_fn(BlockKind) -> Seq<BlockPos>,
) -> Seq<BlockPos>
    decreases kinds.len(),
{
    if kinds.len() == 0 {
        Seq::empty()
    } else {
        found_in_turn(kinds.drop_last(), found) + found(kinds.last())
    }
}

/// `list` is what `find_blocks` gave for a kind.
pub open spec fn was_listed<F: Fn(BlockKind) -> Vec<BlockPos>>(
    find_blocks: F,
    kind: BlockKind,
    list: Seq<BlockPos>,
) -> bool {
    exists|answer: Vec<BlockPos>|
        #[trigger] call_ensures(find_blocks, (kind,), answer) && answer@ == list
}

/// `lists` are what `find_blocks` gave for the kinds, one for each.
pub open spec fn were_listed<F: Fn(BlockKind) -> Vec<BlockPos>>(
    find_blocks: F,
    kinds: Seq<BlockKind>,
    lists: Seq<Seq<BlockPos>>,
) -> bool {
    &&& lists.len() == kinds.len()
    &&& forall|i: int|
        0 <= i < kinds.len() ==> was_listed(find_blocks, kinds[i], #[trigger] lists[i])
}

/// The blocks of the first list, then those of the second, and so on.
pub open spec fn joined(lists: Seq<Seq<BlockPos>>) -> Seq<BlockPos>
    decreases lists.len(),
{
    if lists.len() == 0 {
        Seq::empty()
    } else {
        joined(lists.drop_last()) + lists.last()
    }
}

/// The blocks to mine for a target, as far as they are found, ready for the search.
pub fn find_collect_candidates<F: Fn(BlockKind) -> Vec<BlockPos>>(
    target: &CollectTarget,
    find_blocks: &F,
) -> (candidates: Vec<BlockPos>)
    requires
        forall|kind: BlockKind| call_requires(*find_blocks, (kind,)),
    ensures
        forall|found: spec_fn(BlockKind) -> Seq<BlockPos>| #[trigger]
            reports_found(*find_blocks, found) ==> candidates@ == normalized(
                found_in_turn(target.source_blocks@, found),
                target.prefer_near_last_mined,
            ),
        exists|lists: Seq<Seq<BlockPos>>| #[trigger]
            were_listed(*find_blocks, target.source_blocks@, lists) && candidates@ == normalized(
                joined(lists),
                target.prefer_near_last_mined,
            ),
        forall|i: int|
            0 <= i < candidates@.len() ==> was_found(*find_blocks, #[trigger] candidates@[i]),
{
    let kinds = &target.source_blocks;
    let mut all: Vec<BlockPos> = Vec::new();
    let ghost mut lists: Seq<Seq<BlockPos>> = Seq::empty();
    let mut i: usize = 0;
    while i < kinds.len()
        invariant
            i <= kinds@.len(),
            forall|kind: BlockKind| call_requires(*find_blocks, (kind,)),
            forall|found: spec_fn(BlockKind) -> Seq<BlockPos>| #[trigger]
                reports_found(*find_blocks, found) ==> all@ == found_in_turn(
                    kinds@.take(i as int),
                    found,
                ),
            were_listed(*find_blocks, kinds@.take(i as int), lists),
            all@ == joined(lists),
            forall|j: int| 0 <= j < all@.len() ==> was_found(*find_blocks, #[trigger] all@[j]),
        decreases kinds@.len() - i,
    {
        let mut more = find_blocks(kinds[i]);
        let ghost previous = all@;
        let ghost added = more@;
        assert(kinds@.take(i + 1).drop_last() =~= kinds@.take(i as int));
        assert forall|j: int| 0 <= j < added.len() implies was_found(
            *find_blocks,
            #[trigger] added[j],
        ) by {
            assert(call_ensures(*find_blocks, (kinds@[i as int],), more));
            assert(more@.contains(added[j]));
        }
        proof {
            assert(was_listed(*find_blocks, kinds@[i as int], added));
            assert(lists.push(added).drop_last() =~= lists);
            lists = lists.push(added);
        }
        all.append(&mut more);
        assert forall|j: int| 0 <= j < all@.len() implies was_found(
            *find_blocks,
            #[trigger] all@[j],
        ) by {
            if j < previous.len() {
                assert(all@[j] == previous[j]);
            } else {
                assert(all@[j] == added[j - previous.len()]);
            }
        }
        i = i + 1;
    }
    assert(kinds@.take(i as int) =~= kinds@);
    let candidates = normalize_collect_candidates(all.as_slice(), target.prefer_near_last_mined);
    assert forall|j: int| 0 <= j < candidates@.len() implies was_found(
        *find_blocks,
        #[trigger] candidates@[j],
    ) by {
        assert(all@.contains(candidates@[j]));
    }
    candidates
}

/// Without a preference for the block mined last, or where no candidate with a stance lies within
/// three blocks of it, the chosen block is the nearest to the bot of those with a stance; of
/// several it is the nearest to the anchor, and of those the one that comes first.
pub proof fn chosen_blocks_are_nearest_to_the_bot(
    candidates: Seq<BlockPos>,
    bot_pos: BlockPos,
    anchor: BlockPos,
    last_mined: Option<BlockPos>,
    prefer: bool,
    stances: spec_fn(BlockPos) -> Option<BlockPos>,
    i: int,
)
    requires
        0 <= i < candidates.len(),
        stances(candidates[i]) is Some,
        !prefer || last_mined is None || forall|j: int|
            0 <= j < candidates.len() && stances(#[trigger] candidates[j]) is Some ==> distance_sq(
                candidates[j],
                last_mined->0,
            ) > 9,
    ensures
        next_safe_block(candidates, bot_pos, anchor, last_mined, prefer, stances) matches Some(
            (chosen, stance),
        ) && {
            &&& stances(chosen) == Some(stance)
            &&& distance_sq(chosen, bot_pos) <= distance_sq(candidates[i], bot_pos)
            &&& distance_sq(chosen, bot_pos) == distance_sq(candidates[i], bot_pos) ==> distance_sq(
                chosen,
                anchor,
            ) <= distance_sq(candidates[i], anchor)
            &&& exists|k: int|
                {
                    &&& 0 <= k < candidates.len()
                    &&& #[trigger] candidates[k] == chosen
                    &&& distance_sq(chosen, bot_pos) == distance_sq(candidates[i], bot_pos)
                        && distance_sq(chosen, anchor) == distance_sq(candidates[i], anchor)
                        ==> k <= i
                }
        },
{
    let ranks = candidate_ranks(
        candidates,
        bot_pos,
        Some(anchor),
        last_mined,
        prefer,
        |c: BlockPos| stances(c) is Some,
    );
    first_least_exists(ranks);
    assert(ranks[i] is Some);
    let k = first_least(ranks)->0;
    assert(ranks[k] is Some);
    let chosen = candidates[k];
    lemma_distance_fits(candidates[i], bot_pos);
    lemma_distance_fits(candidates[i], anchor);
    lemma_distance_fits(chosen, bot_pos);
    lemma_distance_fits(chosen, anchor);
}

/// Where blocks near the one mined last are preferred and one of them, with a stance, lies within
/// three blocks of it, the chosen one does too and is the nearest to it of those with a stance; of
/// several it is the one that comes first.
pub proof fn blocks_near_the_last_one_come_first(
    candidates: Seq<BlockPos>,
    bot_pos: BlockPos,
    anchor: BlockPos,
    last: BlockPos,
    stances: spec_fn(BlockPos) -> Option<BlockPos>,
    i: int,
)
    requires
        0 <= i < candidates.len(),
        stances(candidates[i]) is Some,
        distance_sq(candidates[i], last) <= 9,
    ensures
        next_safe_block(candidates, bot_pos, anchor, Some(last), true, stances) matches Some(
            (chosen, stance),
        ) && {
            &&& stances(chosen) == Some(stance)
            &&& distance_sq(chosen, last) <= distance_sq(candidates[i], last)
            &&& exists|k: int|
                {
                    &&& 0 <= k < candidates.len()
                    &&& #[trigger] candidates[k] == chosen
                    &&& distance_sq(chosen, last) == distance_sq(candidates[i], last) ==> k <= i
                }
        },
{
    let ranks = candidate_ranks(
        candidates,
        bot_pos,
        Some(anchor),
        Some(last),
        true,
        |c: BlockPos| stances(c) is Some,
    );
    first_least_exists(ranks);
    assert(ranks[i] is Some);
    let k = first_least(ranks)->0;
    assert(ranks[k] is Some);
    let chosen = candidates[k];
    lemma_distance_fits(candidates[i], last);
    lemma_distance_fits(chosen, last);
    lemma_distance_fits(chosen, bot_pos);
}

/// Where no candidate has a stance nothing is chosen, and what is chosen is a candidate with the
/// stance that was found for it.
pub proof fn chosen_blocks_have_their_stance(
    candidates: Seq<BlockPos>,
    bot_pos: BlockPos,
    anchor: BlockPos,
    last_mined: Option<BlockPos>,
    prefer: bool,
    stances: spec_fn(BlockPos) -> Option<BlockPos>,
)
    ensures
        match next_safe_block(candidates, bot_pos, anchor, last_mined, prefer, stances) {
            None => forall|i: int|
                0 <= i < candidates.len() ==> stances(#[trigger] candidates[i]) is None,
            Some((chosen, stance)) => candidates.contains(chosen) && stances(chosen) == Some(stance),
        },
{
    let ranks = candidate_ranks(
        candidates,
        bot_pos,
        Some(anchor),
        last_mined,
        prefer,
        |c: BlockPos| stances(c) is Some,
    );
    first_least_exists(ranks);
    if first_least(ranks) is None {
        assert forall|i: int| 0 <= i < candidates.len() implies stances(
            #[trigger] candidates[i],
        ) is None by {
            assert(ranks[i] is None);
        }
    } else {
        assert(ranks[first_least(ranks)->0] is Some);
    }
}

/// Whatever their surroundings, candidates within three blocks of the one mined last come first
/// where they are preferred, the nearest to it before the others; else the nearest to the bot is
/// taken. Of several equally near the first is taken.
pub proof fn next_blocks_are_near(
    candidates: Seq<BlockPos>,
    bot_pos: BlockPos,
    last_mined: Option<BlockPos>,
    prefer: bool,
    i: int,
)
    requires
        0 <= i < candidates.len(),
    ensures
        next_block(candidates, bot_pos, last_mined, prefer) matches Some(chosen) && {
            &&& candidates.contains(chosen)
            &&& prefer && last_mined is Some && distance_sq(candidates[i], last_mined->0) <= 9
                ==> distance_sq(chosen, last_mined->0) <= distance_sq(candidates[i], last_mined->0)
            &&& !prefer || last_mined is None || distance_sq(chosen, last_mined->0) > 9
                ==> distance_sq(chosen, bot_pos) <= distance_sq(candidates[i], bot_pos)
            &&& candidates[i] != chosen && distance_sq(chosen, bot_pos) == distance_sq(
                candidates[i],
                bot_pos,
            ) && (!prefer || last_mined is None) ==> exists|k: int|
                0 <= k < i && #[trigger] candidates[k] == chosen
        },
        next_block(Seq::empty(), bot_pos, last_mined, prefer) is None,
{
    let none = Seq::<BlockPos>::empty();
    first_least_exists(
        candidate_ranks(none, bot_pos, None, last_mined, prefer, |c: BlockPos| true),
    );
    let ranks = candidate_ranks(
        candidates,
        bot_pos,
        None,
        last_mined,
        prefer,
        |c: BlockPos| true,
    );
    first_least_exists(ranks);
    assert(ranks[i] is Some);
    let k = first_least(ranks)->0;
    assert(ranks[k] is Some);
    let chosen = candidates[k];
    lemma_distance_fits(candidates[i], bot_pos);
    lemma_distance_fits(chosen, bot_pos);
    if let Some(last) = last_mined {
        lemma_distance_fits(candidates[i], last);
        lemma_distance_fits(chosen, last);
    }
}

/// Where columns collapse, the list holds candidates only, for every candidate one in the same
/// column that is not higher, and never two of one column; they are ordered by x and then by z.
/// Where they do not, the list is that of the candidates.
pub proof fn columns_collapse_to_their_lowest(
    candidates: Seq<BlockPos>,
    list: Seq<BlockPos>,
    i: int,
    j: int,
    k: int,
)
    requires
        is_normalized(candidates, true, list),
    ensures
        0 <= i < list.len() ==> candidates.contains(list[i]),
        0 <= i < j < list.len() ==> list[i].x < list[j].x || (list[i].x == list[j].x && list[i].z
            < list[j].z),
        0 <= k < candidates.len() ==> exists|m: int|
            {
                &&& 0 <= m < list.len()
                &&& (#[trigger] list[m]).x == candidates[k].x
                &&& list[m].z == candidates[k].z
                &&& list[m].y <= candidates[k].y
            },
        is_normalized(candidates, false, list) <==> list == candidates,
{
    if 0 <= i < j < list.len() {
        assert(column_before(list[i], list[j]));
    }
    if 0 <= k < candidates.len() {
        assert(has_column(list, candidates[k]));
        let m = choose|m: int| 0 <= m < list.len() && #[trigger] same_column(candidates[k], list[m]);
        assert(is_lowest_in_column(candidates, list[m]));
        assert(same_column(candidates[k], list[m]));
    }
}

/// What one more kind adds to the blocks that are found: all of its own, at the end.
pub proof fn every_kind_is_looked_for(
    kinds: Seq<BlockKind>,
    kind: BlockKind,
    found: spec_fn(BlockKind) -> Seq<BlockPos>,
    lists: Seq<Seq<BlockPos>>,
    list: Seq<BlockPos>,
)
    ensures
        found_in_turn(Seq::empty(), found) == Seq::<BlockPos>::empty(),
        found_in_turn(kinds.push(kind), found) == found_in_turn(kinds, found) + found(kind),
        joined(Seq::empty()) == Seq::<BlockPos>::empty(),
        joined(lists.push(list)) == joined(lists) + list,
{
    assert(kinds.push(kind).drop_last() =~= kinds);
    assert(lists.push(list).drop_last() =~= lists);
}

/// An axe is the tool where every block is a log, a pickaxe where every block is stone or ore; one
/// block that is neither leaves no tool, and so does a log beside a rock.
pub proof fn the_tool_suits_every_block(blocks: Seq<BlockKind>, i: int)
    ensures
        preferred_tool(blocks) != Some(PreferredTool::Sword),
        0 <= i < blocks.len() ==> match preferred_tool(blocks) {
            Some(PreferredTool::Axe) => overworld_log_blocks().contains(blocks[i]),
            Some(PreferredTool::Pickaxe) => block_prefers_pickaxe(blocks[i]),
            _ => true,
        },
        (forall|j: int|
            0 <= j < blocks.len() ==> overworld_log_blocks().contains(#[trigger] blocks[j]))
            ==> preferred_tool(blocks) == Some(PreferredTool::Axe),
        blocks.len() > 0 && (forall|j: int|
            0 <= j < blocks.len() ==> block_prefers_pickaxe(#[trigger] blocks[j]))
            ==> preferred_tool(blocks) == Some(PreferredTool::Pickaxe),
{
    if blocks.len() > 0 {
        let first = blocks[0];
        logs_drop_themselves(first);
        rock_takes_a_pickaxe(first);
    }
}

/// What has been gained makes up the difference to the start, and is nothing where there is less
/// than at the start. A block is to be mined where it is known and among those of the target.
pub proof fn gains_make_up_the_difference(
    current: int,
    baseline: int,
    target: CollectTarget,
    kind: BlockKind,
)
    ensures
        current >= baseline ==> baseline + gained(current, baseline) == current,
        current <= baseline ==> gained(current, baseline) == 0,
        !is_source_block(target, None),
        is_source_block(target, Some(kind)) <==> exists|i: int|
            0 <= i < target.source_blocks@.len() && #[trigger] target.source_blocks@[i] == kind,
{
}

/// Answers report what is found, and which stances there are, just where each of them is right.
pub proof fn right_answers_are_reported<
    F: Fn(BlockKind) -> Vec<BlockPos>,
    S: Fn(BlockPos) -> Option<BlockPos>,
>(
    find_blocks: F,
    found: spec_fn(BlockKind) -> Seq<BlockPos>,
    safe_stance_for: S,
    stances: spec_fn(BlockPos) -> Option<BlockPos>,
)
    ensures
        (forall|kind: BlockKind, answer: Vec<BlockPos>|
            call_ensures(find_blocks, (kind,), answer) ==> answer@ == found(kind))
            <==> reports_found(find_blocks, found),
        (forall|pos: BlockPos, answer: Option<BlockPos>|
            call_ensures(safe_stance_for, (pos,), answer) ==> answer == stances(pos))
            <==> reports_stances(safe_stance_for, stances),
{
}

/// A block is found just where it is among those of one of the kinds.
pub proof fn found_blocks_are_of_the_kinds(
    kinds: Seq<BlockKind>,
    found: spec_fn(BlockKind) -> Seq<BlockPos>,
    block: BlockPos,
)
    ensures
        found_in_turn(kinds, found).contains(block) <==> exists|i: int|
            0 <= i < kinds.len() && found(#[trigger] kinds[i]).contains(block),
    decreases kinds.len(),
{
    if kinds.len() > 0 {
        let front = kinds.drop_last();
        let last = kinds.last();
        found_blocks_are_of_the_kinds(front, found, block);
        let rest = found_in_turn(front, found);
        let all = found_in_turn(kinds, found);
        if all.contains(block) {
            let j = choose|j: int| 0 <= j < all.len() && all[j] == block;
            if j < rest.len() {
                assert(rest[j] == block);
                let i = choose|i: int|
                    0 <= i < front.len() && found(#[trigger] front[i]).contains(block);
                assert(kinds[i] == front[i]);
            } else {
                assert(found(last)[j - rest.len()] == block);
                assert(kinds[kinds.len() - 1] == last);
            }
        }
        if exists|i: int| 0 <= i < kinds.len() && found(#[trigger] kinds[i]).contains(block) {
            let i = choose|i: int|
                0 <= i < kinds.len() && found(#[trigger] kinds[i]).contains(block);
            if i < front.len() {
                assert(front[i] == kinds[i]);
                let j = choose|j: int| 0 <= j < rest.len() && rest[j] == block;
                assert(all[j] == block);
            } else {
                let own = found(last);
                let j = choose|j: int| 0 <= j < own.len() && own[j] == block;
                assert(all[rest.len() + j] == block);
            }
        }
    }
}

} // verus!
