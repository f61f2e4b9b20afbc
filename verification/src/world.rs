//! The world as the bot sees it, and the safe places in it.

use crate::geometry::BlockPos;
use crate::kinds::{is_passable, is_passable_block, BlockKind};
use crate::stance::{
    answers_of, best_stance, best_support, choose_placement_support_block,
    choose_safe_action_stance, is_told_stance, is_told_support, neighbour, reports,
    stance_search_fits, support_search_fits, told_free,
};
use vstd::prelude::*;

verus! {

/// Every answer of `block_at` is the one that `world` gives.
pub open spec fn reports_blocks<B: Fn(BlockPos) -> Option<BlockKind>>(
    block_at: B,
    world: spec_fn(BlockPos) -> Option<BlockKind>,
) -> bool {
    forall|pos: BlockPos, answer: Option<BlockKind>|
        #[trigger] call_ensures(block_at, (pos,), answer) ==> answer == world(pos)
}

/// Where the blocks of a world can be walked through.
pub open spec fn passable_in(world: spec_fn(BlockPos) -> Option<BlockKind>) -> spec_fn(
    BlockPos,
) -> bool {
    |pos: BlockPos| is_passable(world(pos))
}

/// What the bot may have been told of the blocks that can be walked through, by the answers that
/// `block_at` may give.
pub open spec fn told_by<B: Fn(BlockPos) -> Option<BlockKind>>(block_at: B) -> spec_fn(
    BlockPos,
    bool,
) -> bool {
    |pos: BlockPos, r: bool|
        exists|kind: Option<BlockKind>|
            #[trigger] call_ensures(block_at, (pos,), kind) && r == is_passable(kind)
}

/// What holds by fewer answers holds by more.
proof fn lemma_more_answers(
    fewer: spec_fn(BlockPos, bool) -> bool,
    more: spec_fn(BlockPos, bool) -> bool,
    target: BlockPos,
    anchor: BlockPos,
    y_offsets: Seq<i32>,
    stance: BlockPos,
)
    requires
        forall|pos: BlockPos, r: bool| #[trigger] fewer(pos, r) ==> more(pos, r),
        is_told_stance(fewer, target, anchor, y_offsets, stance),
    ensures
        is_told_stance(more, target, anchor, y_offsets, stance),
{
    let d = choose|d: int|
        0 <= d < 4 && #[trigger] neighbour(stance, d) != target && told_free(
            fewer,
            neighbour(stance, d),
        );
    assert(told_free(more, neighbour(stance, d)));
}

/// The safest place in the world beside `target` from which to act on it.
pub fn choose_world_safe_action_stance<B: Fn(BlockPos) -> Option<BlockKind>>(
    target: BlockPos,
    anchor: BlockPos,
    y_offsets: &[i32],
    block_at: &B,
) -> (stance: Option<BlockPos>)
    requires
        stance_search_fits(target, anchor, y_offsets@),
        forall|p: BlockPos| call_requires(*block_at, (p,)),
    ensures
        forall|world: spec_fn(BlockPos) -> Option<BlockKind>| #[trigger]
            reports_blocks(*block_at, world) ==> stance == best_stance(
                passable_in(world),
                target,
                anchor,
                y_offsets@,
            ),
        stance matches Some(s) ==> is_told_stance(
            told_by(*block_at),
            target,
            anchor,
            y_offsets@,
            s,
        ),
{
    let passable_at = |pos: BlockPos| -> (r: bool)
        ensures
            exists|kind: Option<BlockKind>|
                #[trigger] call_ensures(*block_at, (pos,), kind) && r == is_passable(kind),
        { is_passable_block(block_at(pos)) };
    proof {
        assert forall|world: spec_fn(BlockPos) -> Option<BlockKind>| #[trigger]
            reports_blocks(*block_at, world) implies reports(passable_at, passable_in(world)) by {}
    }
    let stance = choose_safe_action_stance(target, anchor, y_offsets, passable_at);
    proof {
        if let Some(s) = stance {
            lemma_more_answers(
                answers_of(passable_at),
                told_by(*block_at),
                target,
                anchor,
                y_offsets@,
                s,
            );
        }
    }
    stance
}

/// The solid block of the world to place a block at `target` against.
pub fn choose_world_support_block<B: Fn(BlockPos) -> Option<BlockKind>>(
    target: BlockPos,
    stance: BlockPos,
    block_at: &B,
) -> (support: Option<BlockPos>)
    requires
        support_search_fits(target),
        forall|p: BlockPos| call_requires(*block_at, (p,)),
    ensures
        forall|world: spec_fn(BlockPos) -> Option<BlockKind>| #[trigger]
            reports_blocks(*block_at, world) ==> support == best_support(
                passable_in(world),
                target,
                stance,
            ),
        support matches Some(s) ==> is_told_support(told_by(*block_at), target, s),
{
    let passable_at = |pos: BlockPos| -> (r: bool)
        ensures
            exists|kind: Option<BlockKind>|
                #[trigger] call_ensures(*block_at, (pos,), kind) && r == is_passable(kind),
        { is_passable_block(block_at(pos)) };
    proof {
        assert forall|world: spec_fn(BlockPos) -> Option<BlockKind>| #[trigger]
            reports_blocks(*block_at, world) implies reports(passable_at, passable_in(world)) by {}
    }
    choose_placement_support_block(target, stance, passable_at)
}

/// A place can be walked through in a world just where its block can; answers report a world just
/// where each of them is the block of that world.
pub proof fn worlds_are_known_by_their_blocks<B: Fn(BlockPos) -> Option<BlockKind>>(
    block_at: B,
    world: spec_fn(BlockPos) -> Option<BlockKind>,
    pos: BlockPos,
)
    ensures
        passable_in(world)(pos) <==> (world(pos) matches Some(kind) ==> kind is Air || kind
            is CaveAir || kind is VoidAir),
        (forall|p: BlockPos, answer: Option<BlockKind>|
            call_ensures(block_at, (p,), answer) ==> answer == world(p)) <==> reports_blocks(
            block_at,
            world,
        ),
{
}

} // verus!
