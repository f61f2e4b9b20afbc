//! Where to stand while acting on a block, and what to place a block against.

use crate::geometry::{distance_sq, lemma_distance_fits, wide_distance_sq, BlockPos, HalfPoint};
use crate::measure::{Measure, ONE_AND_A_HALF};
use crate::order::{
    better_of, first_least, first_least_exists, first_least_is_unique, held_index, held_rank,
    is_first_least, Rank,
};
use vstd::prelude::*;

verus! {

/// Every answer of `is_passable` is the one that `passable` gives.
pub open spec fn reports<F: Fn(BlockPos) -> bool>(
    is_passable: F,
    passable: spec_fn(BlockPos) -> bool,
) -> bool {
    forall|pos: BlockPos, answer: bool|
        #[trigger] call_ensures(is_passable, (pos,), answer) ==> answer == passable(pos)
}

/// The block `dx`, `dy` and `dz` away from `pos`.
pub open spec fn offset(pos: BlockPos, dx: int, dy: int, dz: int) -> BlockPos {
    BlockPos { x: (pos.x + dx) as i32, y: (pos.y + dy) as i32, z: (pos.z + dz) as i32 }
}

/// The step along the x axis of the cardinal direction `d`: east, west, south, north.
pub open spec fn cardinal_dx(d: int) -> int {
    if d == 0 {
        1
    } else if d == 1 {
        -1
    } else {
        0
    }
}

/// The step along the z axis of the cardinal direction `d`.
pub open spec fn cardinal_dz(d: int) -> int {
    if d == 2 {
        1
    } else if d == 3 {
        -1
    } else {
        0
    }
}

/// The neighbour of `pos` on the same level in direction `d`.
pub open spec fn neighbour(pos: BlockPos, d: int) -> BlockPos {
    offset(pos, cardinal_dx(d), 0, cardinal_dz(d))
}

/// The bot fits at `pos`: room for its feet and its head, and solid ground below.
pub open spec fn can_occupy(passable: spec_fn(BlockPos) -> bool, pos: BlockPos) -> bool {
    passable(pos) && passable(offset(pos, 0, 1, 0)) && !passable(offset(pos, 0, -1, 0))
}

/// From `stance` there is a step to a place where the bot fits and that is not `target`.
pub open spec fn can_escape(
    passable: spec_fn(BlockPos) -> bool,
    stance: BlockPos,
    target: BlockPos,
) -> bool {
    exists|d: int|
        0 <= d < 4 && #[trigger] neighbour(stance, d) != target && can_occupy(
            passable,
            neighbour(stance, d),
        )
}

/// The answers that `is_passable` may give: `answers(pos, r)` where `r` may be the one for `pos`.
pub open spec fn answers_of<F: Fn(BlockPos) -> bool>(is_passable: F) -> spec_fn(
    BlockPos,
    bool,
) -> bool {
    |pos: BlockPos, answer: bool| call_ensures(is_passable, (pos,), answer)
}

/// The bot was told that it fits at `pos`.
pub open spec fn told_free(answers: spec_fn(BlockPos, bool) -> bool, pos: BlockPos) -> bool {
    answers(pos, true) && answers(offset(pos, 0, 1, 0), true) && answers(
        offset(pos, 0, -1, 0),
        false,
    )
}

/// The bot was told that from `stance` there is a step to a place where it fits and that is not
/// `target`.
pub open spec fn told_of_escape(
    answers: spec_fn(BlockPos, bool) -> bool,
    stance: BlockPos,
    target: BlockPos,
) -> bool {
    exists|d: int|
        0 <= d < 4 && #[trigger] neighbour(stance, d) != target && told_free(
            answers,
            neighbour(stance, d),
        )
}

/// The neighbour of `pos` in direction `d`.
fn step_to(pos: BlockPos, d: usize) -> (next: BlockPos)
    requires
        d < 4,
        i32::MIN < pos.x < i32::MAX,
        i32::MIN < pos.z < i32::MAX,
    ensures
        next == neighbour(pos, d as int),
{
    if d == 0 {
        BlockPos { x: pos.x + 1, ..pos }
    } else if d == 1 {
        BlockPos { x: pos.x - 1, ..pos }
    } else if d == 2 {
        BlockPos { z: pos.z + 1, ..pos }
    } else {
        BlockPos { z: pos.z - 1, ..pos }
    }
}

/// Whether the bot fits at `pos`.
pub fn can_occupy_block<F: Fn(BlockPos) -> bool>(pos: BlockPos, is_passable: &F) -> (fits: bool)
    requires
        i32::MIN < pos.y < i32::MAX,
        forall|p: BlockPos| call_requires(*is_passable, (p,)),
    ensures
        forall|passable: spec_fn(BlockPos) -> bool| #[trigger]
            reports(*is_passable, passable) ==> fits == can_occupy(passable, pos),
        fits ==> told_free(answers_of(*is_passable), pos),
{
    is_passable(pos) && is_passable(BlockPos::new(pos.x, pos.y + 1, pos.z)) && !is_passable(
        BlockPos::new(pos.x, pos.y - 1, pos.z),
    )
}

/// Whether the bot can step off `stance` without walking into `target`.
pub fn has_escape_step<F: Fn(BlockPos) -> bool>(
    stance: BlockPos,
    target: BlockPos,
    is_passable: &F,
) -> (escapes: bool)
    requires
        i32::MIN < stance.x < i32::MAX,
        i32::MIN < stance.y < i32::MAX,
        i32::MIN < stance.z < i32::MAX,
        forall|p: BlockPos| call_requires(*is_passable, (p,)),
    ensures
        forall|passable: spec_fn(BlockPos) -> bool| #[trigger]
            reports(*is_passable, passable) ==> escapes == can_escape(passable, stance, target),
        escapes ==> told_of_escape(answers_of(*is_passable), stance, target),
{
    let mut d: usize = 0;
    while d < 4
        invariant
            d <= 4,
            i32::MIN < stance.x < i32::MAX,
            i32::MIN < stance.y < i32::MAX,
            i32::MIN < stance.z < i32::MAX,
            forall|p: BlockPos| call_requires(*is_passable, (p,)),
            forall|passable: spec_fn(BlockPos) -> bool, e: int| #[trigger]
                reports(*is_passable, passable) && 0 <= e < d && #[trigger] neighbour(stance, e)
                    != target ==> !can_occupy(passable, neighbour(stance, e)),
        decreases 4 - d,
    {
        let next = step_to(stance, d);
        if next != target && can_occupy_block(next, is_passable) {
            assert(neighbour(stance, d as int) != target);
            return true;
        }
        d = d + 1;
    }
    false
}

/// The `k`-th place considered for a stance: the four neighbours of `target` at the first height
/// offset, then those at the second, and so on.
pub open spec fn stance_candidate(target: BlockPos, y_offsets: Seq<i32>, k: int) -> BlockPos {
    offset(target, cardinal_dx(k % 4), y_offsets[k / 4] as int, cardinal_dz(k % 4))
}

/// A stance is safe where it lies at most one block below the anchor, the bot fits there, and it
/// can step away without entering the target.
pub open spec fn is_safe_stance(
    passable: spec_fn(BlockPos) -> bool,
    target: BlockPos,
    anchor: BlockPos,
    stance: BlockPos,
) -> bool {
    stance.y >= anchor.y - 1 && can_occupy(passable, stance) && can_escape(
        passable,
        stance,
        target,
    )
}

/// `stance` is one of the places considered, and the bot was told that it is safe.
pub open spec fn is_told_stance(
    answers: spec_fn(BlockPos, bool) -> bool,
    target: BlockPos,
    anchor: BlockPos,
    y_offsets: Seq<i32>,
    stance: BlockPos,
) -> bool {
    &&& exists|k: int|
        0 <= k < 4 * y_offsets.len() && stance == #[trigger] stance_candidate(target, y_offsets, k)
    &&& stance.y >= anchor.y - 1
    &&& told_free(answers, stance)
    &&& told_of_escape(answers, stance, target)
}

/// A stance ranks by its distance to the anchor, then by its distance to the target.
pub open spec fn stance_rank(target: BlockPos, anchor: BlockPos, stance: BlockPos) -> Rank {
    Rank {
        major: distance_sq(stance, anchor) as i128,
        minor: distance_sq(stance, target) as i128,
        last: 0,
    }
}

/// The ranks of the safe candidates, `None` in the places of the others.
pub open spec fn stance_ranks(
    passable: spec_fn(BlockPos) -> bool,
    target: BlockPos,
    anchor: BlockPos,
    y_offsets: Seq<i32>,
) -> Seq<Option<Rank>> {
    Seq::new(
        4 * y_offsets.len(),
        |k: int|
            {
                let stance = stance_candidate(target, y_offsets, k);
                if is_safe_stance(passable, target, anchor, stance) {
                    Some(stance_rank(target, anchor, stance))
                } else {
                    None
                }
            },
    )
}

/// The safe candidate nearest to the anchor, ties going to the one nearest to the target and
/// then to the one considered first.
pub open spec fn best_stance(
    passable: spec_fn(BlockPos) -> bool,
    target: BlockPos,
    anchor: BlockPos,
    y_offsets: Seq<i32>,
) -> Option<BlockPos> {
    match first_least(stance_ranks(passable, target, anchor, y_offsets)) {
        Some(k) => Some(stance_candidate(target, y_offsets, k)),
        None => None,
    }
}

/// Every block that the search for a stance may ask about lies within the coordinates that an
/// `i32` holds.
pub open spec fn stance_search_fits(
    target: BlockPos,
    anchor: BlockPos,
    y_offsets: Seq<i32>,
) -> bool {
    &&& i32::MIN < anchor.y
    &&& y_offsets.len() > 0 ==> i32::MIN < target.x < i32::MAX && i32::MIN < target.z < i32::MAX
    &&& forall|i: int|
        0 <= i < y_offsets.len() ==> {
            &&& i32::MIN <= target.y + #[trigger] y_offsets[i] <= i32::MAX
            &&& target.y + y_offsets[i] >= anchor.y - 1 ==> {
                &&& i32::MIN + 2 <= target.x <= i32::MAX - 2
                &&& i32::MIN < target.y + y_offsets[i] < i32::MAX
                &&& i32::MIN + 2 <= target.z <= i32::MAX - 2
            }
        }
}

/// Whether every block that the search for a stance may ask about has coordinates that an `i32`
/// holds.
pub fn stance_search_in_range(target: BlockPos, anchor: BlockPos, y_offsets: &[i32]) -> (r: bool)
    ensures
        r == stance_search_fits(target, anchor, y_offsets@),
{
    if anchor.y == i32::MIN {
        return false;
    }
    if y_offsets.len() > 0 && !(i32::MIN < target.x && target.x < i32::MAX && i32::MIN < target.z
        && target.z < i32::MAX) {
        return false;
    }
    let has_room: bool = i32::MIN + 2 <= target.x && target.x <= i32::MAX - 2 && i32::MIN + 2
        <= target.z && target.z <= i32::MAX - 2;
    let mut i: usize = 0;
    while i < y_offsets.len()
        invariant
            i <= y_offsets@.len(),
            i32::MIN < anchor.y,
            has_room == (i32::MIN + 2 <= target.x <= i32::MAX - 2 && i32::MIN + 2 <= target.z
                <= i32::MAX - 2),
            forall|j: int|
                0 <= j < i ==> {
                    &&& i32::MIN <= target.y + #[trigger] y_offsets[j] <= i32::MAX
                    &&& target.y + y_offsets[j] >= anchor.y - 1 ==> has_room && i32::MIN < target.y
                        + y_offsets[j] < i32::MAX
                },
        decreases y_offsets@.len() - i,
    {
        let y: i64 = target.y as i64 + y_offsets[i] as i64;
        let considered: bool = y >= anchor.y as i64 - 1;
        if y < i32::MIN as i64 || y > i32::MAX as i64 || (considered && (!has_room || y
            == i32::MIN as i64 || y == i32::MAX as i64)) {
            assert(y == target.y + y_offsets@[i as int]);
            return false;
        }
        i = i + 1;
    }
    true
}

/// The safest place beside `target` from which to act on it: of the neighbours of `target` at the
/// given height offsets, the best that is safe.
pub fn choose_safe_action_stance<F: Fn(BlockPos) -> bool>(
    target: BlockPos,
    anchor: BlockPos,
    y_offsets: &[i32],
    is_passable: F,
) -> (stance: Option<BlockPos>)
    requires
        stance_search_fits(target, anchor, y_offsets@),
        forall|p: BlockPos| call_requires(is_passable, (p,)),
    ensures
        forall|passable: spec_fn(BlockPos) -> bool| #[trigger]
            reports(is_passable, passable) ==> stance == best_stance(
                passable,
                target,
                anchor,
                y_offsets@,
            ),
        stance matches Some(s) ==> is_told_stance(
            answers_of(is_passable),
            target,
            anchor,
            y_offsets@,
            s,
        ),
{
    let min_safe_y: i32 = anchor.y - 1;
    let mut best: Option<(u128, Rank)> = None;
    let mut i: usize = 0;
    while i < y_offsets.len()
        invariant
            i <= y_offsets@.len(),
            min_safe_y == anchor.y - 1,
            stance_search_fits(target, anchor, y_offsets@),
            forall|p: BlockPos| call_requires(is_passable, (p,)),
            best matches Some((k, _)) ==> k < 4 * i && is_told_stance(
                answers_of(is_passable),
                target,
                anchor,
                y_offsets@,
                stance_candidate(target, y_offsets@, k as int),
            ),
            forall|passable: spec_fn(BlockPos) -> bool| #[trigger]
                reports(is_passable, passable) ==> {
                    let ranks = stance_ranks(passable, target, anchor, y_offsets@);
                    is_first_least(ranks, 4 * i, held_index(best)) && held_rank(ranks, best)
                },
        decreases y_offsets@.len() - i,
    {
        let y: i32 = target.y + y_offsets[i];
        let mut d: usize = 0;
        while d < 4
            invariant
                i < y_offsets@.len(),
                d <= 4,
                y == target.y + y_offsets@[i as int],
                min_safe_y == anchor.y - 1,
                stance_search_fits(target, anchor, y_offsets@),
                forall|p: BlockPos| call_requires(is_passable, (p,)),
                best matches Some((k, _)) ==> k < 4 * i + d && is_told_stance(
                    answers_of(is_passable),
                    target,
                    anchor,
                    y_offsets@,
                    stance_candidate(target, y_offsets@, k as int),
                ),
                forall|passable: spec_fn(BlockPos) -> bool| #[trigger]
                    reports(is_passable, passable) ==> {
                        let ranks = stance_ranks(passable, target, anchor, y_offsets@);
                        is_first_least(ranks, 4 * i + d, held_index(best)) && held_rank(ranks, best)
                    },
            decreases 4 - d,
        {
            let candidate = step_to(BlockPos { y, ..target }, d);
            let k: u128 = 4 * (i as u128) + d as u128;
            assert(k as int % 4 == d && k as int / 4 == i as int);
            let rank: Option<Rank> = if candidate.y >= min_safe_y && can_occupy_block(
                candidate,
                &is_passable,
            ) && has_escape_step(candidate, target, &is_passable) {
                Some(
                    Rank {
                        major: wide_distance_sq(candidate, anchor),
                        minor: wide_distance_sq(candidate, target),
                        last: 0,
                    },
                )
            } else {
                None
            };
            assert(candidate == stance_candidate(target, y_offsets@, k as int));
            let ghost previous = best;
            best = better_of(best, k, rank);
            proof {
                assert forall|passable: spec_fn(BlockPos) -> bool| #[trigger]
                    reports(is_passable, passable) implies {
                    let ranks = stance_ranks(passable, target, anchor, y_offsets@);
                    is_first_least(ranks, 4 * i + d + 1, held_index(best)) && held_rank(ranks, best)
                } by {
                    let ranks = stance_ranks(passable, target, anchor, y_offsets@);
                    assert(ranks[k as int] == rank);
                    assert(is_first_least(ranks, k as int, held_index(previous)));
                }
            }
            d = d + 1;
        }
        i = i + 1;
    }
    proof {
        assert forall|passable: spec_fn(BlockPos) -> bool| #[trigger]
            reports(is_passable, passable) implies first_least(
            stance_ranks(passable, target, anchor, y_offsets@),
        ) == held_index(best) by {
            first_least_is_unique(
                stance_ranks(passable, target, anchor, y_offsets@),
                held_index(best),
            );
        }
    }
    match best {
        None => None,
        Some((k, _)) => {
            let y: i32 = target.y + y_offsets[(k / 4) as usize];
            Some(step_to(BlockPos { y, ..target }, (k % 4) as usize))
        },
    }
}

/// A block to place against: the stance itself, the block below the target, or one of its four
/// neighbours, in this order.
pub open spec fn support_candidate(target: BlockPos, stance: BlockPos, k: int) -> BlockPos {
    if k == 0 {
        stance
    } else if k == 1 {
        offset(target, 0, -1, 0)
    } else {
        neighbour(target, k - 2)
    }
}

/// Whether `pos` stands beside `target`, at the same height and one step away.
pub open spec fn is_beside(pos: BlockPos, target: BlockPos) -> bool {
    &&& pos.y == target.y
    &&& (pos.z == target.z && (pos.x == target.x + 1 || pos.x == target.x - 1)) || (pos.x
        == target.x && (pos.z == target.z + 1 || pos.z == target.z - 1))
}

/// A candidate supports the target where it is solid; the stance only where it stands beside the
/// target, and then not a second time as a neighbour.
pub open spec fn is_support(
    passable: spec_fn(BlockPos) -> bool,
    target: BlockPos,
    stance: BlockPos,
    k: int,
) -> bool {
    &&& !passable(support_candidate(target, stance, k))
    &&& k == 0 ==> is_beside(stance, target)
    &&& k >= 2 ==> support_candidate(target, stance, k) != stance
}

/// The ranks of the supports by their distance to the stance, `None` in the places of the others.
pub open spec fn support_ranks(
    passable: spec_fn(BlockPos) -> bool,
    target: BlockPos,
    stance: BlockPos,
) -> Seq<Option<Rank>> {
    Seq::new(
        6,
        |k: int|
            if is_support(passable, target, stance, k) {
                Some(
                    Rank {
                        major: distance_sq(support_candidate(target, stance, k), stance) as i128,
                        minor: 0,
                        last: 0,
                    },
                )
            } else {
                None
            },
    )
}

/// The support nearest to the stance, the first of several.
pub open spec fn best_support(
    passable: spec_fn(BlockPos) -> bool,
    target: BlockPos,
    stance: BlockPos,
) -> Option<BlockPos> {
    match first_least(support_ranks(passable, target, stance)) {
        Some(k) => Some(support_candidate(target, stance, k)),
        None => None,
    }
}

/// The bot was told that `support` is solid, and it touches the target below or at a side.
pub open spec fn is_told_support(
    answers: spec_fn(BlockPos, bool) -> bool,
    target: BlockPos,
    support: BlockPos,
) -> bool {
    answers(support, false) && (is_beside(support, target) || support == offset(target, 0, -1, 0))
}

/// The blocks that touch the target below and at its sides lie within the coordinates that an
/// `i32` holds.
pub open spec fn support_search_fits(target: BlockPos) -> bool {
    i32::MIN < target.x < i32::MAX && i32::MIN < target.y && i32::MIN < target.z < i32::MAX
}

/// Whether the blocks that touch the target below and at its sides have coordinates that an `i32`
/// holds.
pub fn support_search_in_range(target: BlockPos) -> (r: bool)
    ensures
        r == support_search_fits(target),
{
    i32::MIN < target.x && target.x < i32::MAX && i32::MIN < target.y && i32::MIN < target.z
        && target.z < i32::MAX
}

fn support_at(target: BlockPos, stance: BlockPos, k: usize) -> (candidate: BlockPos)
    requires
        support_search_fits(target),
        k < 6,
    ensures
        candidate == support_candidate(target, stance, k as int),
{
    if k == 0 {
        stance
    } else if k == 1 {
        BlockPos { y: target.y - 1, ..target }
    } else {
        step_to(target, k - 2)
    }
}

/// Whether `pos` stands beside `target`.
fn stands_beside(pos: BlockPos, target: BlockPos) -> (r: bool)
    ensures
        r == is_beside(pos, target),
{
    let dx: i64 = pos.x as i64 - target.x as i64;
    let dz: i64 = pos.z as i64 - target.z as i64;
    pos.y == target.y && ((dz == 0 && (dx == 1 || dx == -1)) || (dx == 0 && (dz == 1 || dz == -1)))
}

/// The solid block to place a block at `target` against, for a bot that stands at `stance`.
pub fn choose_placement_support_block<F: Fn(BlockPos) -> bool>(
    target: BlockPos,
    stance: BlockPos,
    is_passable: F,
) -> (support: Option<BlockPos>)
    requires
        support_search_fits(target),
        forall|p: BlockPos| call_requires(is_passable, (p,)),
    ensures
        forall|passable: spec_fn(BlockPos) -> bool| #[trigger]
            reports(is_passable, passable) ==> support == best_support(passable, target, stance),
        support matches Some(s) ==> is_told_support(answers_of(is_passable), target, s),
{
    let mut best: Option<(u128, Rank)> = None;
    let mut k: usize = 0;
    while k < 6
        invariant
            k <= 6,
            support_search_fits(target),
            forall|p: BlockPos| call_requires(is_passable, (p,)),
            best matches Some((i, _)) ==> i < k && is_told_support(
                answers_of(is_passable),
                target,
                support_candidate(target, stance, i as int),
            ),
            forall|passable: spec_fn(BlockPos) -> bool| #[trigger]
                reports(is_passable, passable) ==> {
                    let ranks = support_ranks(passable, target, stance);
                    is_first_least(ranks, k as int, held_index(best)) && held_rank(ranks, best)
                },
        decreases 6 - k,
    {
        let candidate = support_at(target, stance, k);
        let considered: bool = if k == 0 {
            stands_beside(stance, target)
        } else {
            k == 1 || candidate != stance
        };
        let rank: Option<Rank> = if considered && !is_passable(candidate) {
            Some(Rank { major: wide_distance_sq(candidate, stance), minor: 0, last: 0 })
        } else {
            None
        };
        let ghost previous = best;
        best = better_of(best, k as u128, rank);
        proof {
            assert forall|passable: spec_fn(BlockPos) -> bool| #[trigger]
                reports(is_passable, passable) implies {
                let ranks = support_ranks(passable, target, stance);
                is_first_least(ranks, k + 1, held_index(best)) && held_rank(ranks, best)
            } by {
                let ranks = support_ranks(passable, target, stance);
                assert(ranks[k as int] == rank);
                assert(is_first_least(ranks, k as int, held_index(previous)));
            }
        }
        k = k + 1;
    }
    proof {
        assert forall|passable: spec_fn(BlockPos) -> bool| #[trigger]
            reports(is_passable, passable) implies first_least(
            support_ranks(passable, target, stance),
        ) == held_index(best) by {
            first_least_is_unique(support_ranks(passable, target, stance), held_index(best));
        }
    }
    match best {
        None => None,
        Some((i, _)) => Some(support_at(target, stance, i as usize)),
    }
}

/// The bot must move before it places a block where it stands in the way of the block, or where
/// it is more than a block and a half away from the stance.
pub open spec fn must_navigate(
    bot_block_pos: BlockPos,
    target: BlockPos,
    distance_to_stance: Measure,
) -> bool {
    bot_block_pos == target || (Measure { bits: ONE_AND_A_HALF }).less_spec(distance_to_stance)
}

/// Whether the bot must navigate before it places a block at `target`.
pub fn needs_navigation_for_placement(
    bot_block_pos: BlockPos,
    target: BlockPos,
    _stance: BlockPos,
    distance_to_stance: Measure,
) -> (r: bool)
    ensures
        r == must_navigate(bot_block_pos, target, distance_to_stance),
{
    bot_block_pos == target || (Measure { bits: ONE_AND_A_HALF }).less(distance_to_stance)
}

/// The middle between the centres of two blocks: half the sum of their coordinates, plus one half.
pub open spec fn between_centers(support: BlockPos, target: BlockPos) -> HalfPoint {
    HalfPoint {
        x2: (support.x + target.x + 1) as i64,
        y2: (support.y + target.y + 1) as i64,
        z2: (support.z + target.z + 1) as i64,
    }
}

/// The point to look at in order to place a block at `target` against `support`: the middle
/// between the two centres.
pub fn placement_interaction_point(support: BlockPos, target: BlockPos) -> (point: HalfPoint)
    ensures
        point == between_centers(support, target),
        2 * point.x2 == support.center_spec().x2 + target.center_spec().x2,
        2 * point.y2 == support.center_spec().y2 + target.center_spec().y2,
        2 * point.z2 == support.center_spec().z2 + target.center_spec().z2,
{
    HalfPoint {
        x2: support.x as i64 + target.x as i64 + 1,
        y2: support.y as i64 + target.y as i64 + 1,
        z2: support.z as i64 + target.z as i64 + 1,
    }
}

/// A chosen stance is safe, stands one step from the target's column at one of the height
/// offsets, and no safe candidate is nearer to the anchor; none is chosen only where no candidate
/// is safe.
pub proof fn best_stance_is_safe_and_nearest(
    passable: spec_fn(BlockPos) -> bool,
    target: BlockPos,
    anchor: BlockPos,
    y_offsets: Seq<i32>,
    k: int,
)
    requires
        0 <= k < 4 * y_offsets.len(),
    ensures
        best_stance(passable, target, anchor, y_offsets) matches Some(stance) ==> {
            &&& is_safe_stance(passable, target, anchor, stance)
            &&& exists|j: int|
                0 <= j < 4 * y_offsets.len() && stance == #[trigger] stance_candidate(
                    target,
                    y_offsets,
                    j,
                )
            &&& is_safe_stance(passable, target, anchor, stance_candidate(target, y_offsets, k))
                ==> distance_sq(stance, anchor) <= distance_sq(
                stance_candidate(target, y_offsets, k),
                anchor,
            )
        },
        best_stance(passable, target, anchor, y_offsets) is None ==> !is_safe_stance(
            passable,
            target,
            anchor,
            stance_candidate(target, y_offsets, k),
        ),
{
    let ranks = stance_ranks(passable, target, anchor, y_offsets);
    first_least_exists(ranks);
    let _ = ranks[k];
    lemma_distance_fits(stance_candidate(target, y_offsets, k), anchor);
    if let Some(j) = first_least(ranks) {
        lemma_distance_fits(stance_candidate(target, y_offsets, j), anchor);
    }
}

/// A chosen stance stands clear of the target: one step beside its column, and with a step away
/// that does not lead into it.
pub proof fn best_stance_keeps_clear_of_the_target(
    passable: spec_fn(BlockPos) -> bool,
    target: BlockPos,
    anchor: BlockPos,
    y_offsets: Seq<i32>,
)
    requires
        stance_search_fits(target, anchor, y_offsets),
    ensures
        best_stance(passable, target, anchor, y_offsets) matches Some(stance) ==> {
            &&& stance != target
            &&& is_beside(BlockPos { y: target.y, ..stance }, target)
            &&& stance.y >= anchor.y - 1
            &&& exists|d: int|
                0 <= d < 4 && #[trigger] neighbour(stance, d) != target && can_occupy(
                    passable,
                    neighbour(stance, d),
                )
        },
{
    let ranks = stance_ranks(passable, target, anchor, y_offsets);
    first_least_exists(ranks);
    if let Some(k) = first_least(ranks) {
        assert(0 <= k % 4 < 4);
        assert(0 <= k / 4 < y_offsets.len());
        let _ = y_offsets[k / 4];
    }
}

/// A chosen support is solid and touches the target below or at a side; none is chosen only where
/// no block that touches the target there is solid.
pub proof fn best_support_is_solid_and_touches(
    passable: spec_fn(BlockPos) -> bool,
    target: BlockPos,
    stance: BlockPos,
    pos: BlockPos,
)
    requires
        support_search_fits(target),
    ensures
        best_support(passable, target, stance) matches Some(support) ==> !passable(support) && (
        is_beside(support, target) || support == offset(target, 0, -1, 0)),
        best_support(passable, target, stance) is None && (is_beside(pos, target) || pos == offset(
            target,
            0,
            -1,
            0,
        )) ==> passable(pos),
{
    let ranks = support_ranks(passable, target, stance);
    first_least_exists(ranks);
    if pos == stance {
        let _ = ranks[0];
    }
    if pos == offset(target, 0, -1, 0) {
        assert(ranks[1] is None || first_least(ranks) is Some);
    }
    assert(pos == neighbour(target, 0) ==> ranks[2] is None || first_least(ranks) is Some);
    assert(pos == neighbour(target, 1) ==> ranks[3] is None || first_least(ranks) is Some);
    assert(pos == neighbour(target, 2) ==> ranks[4] is None || first_least(ranks) is Some);
    assert(pos == neighbour(target, 3) ==> ranks[5] is None || first_least(ranks) is Some);
}

/// The bot fits at a place where the place itself and the one above can be walked through and the
/// one below cannot.
pub proof fn fitting_takes_room_and_ground(passable: spec_fn(BlockPos) -> bool, pos: BlockPos)
    requires
        i32::MIN < pos.y < i32::MAX,
    ensures
        can_occupy(passable, pos) <==> {
            &&& passable(pos)
            &&& passable(BlockPos { x: pos.x, y: (pos.y + 1) as i32, z: pos.z })
            &&& !passable(BlockPos { x: pos.x, y: (pos.y - 1) as i32, z: pos.z })
        },
{
}

/// `a` lies one step east, west, south or north of `b`, at whatever height.
pub open spec fn is_one_step_off(a: BlockPos, b: BlockPos) -> bool {
    (a.x == b.x && (a.z - b.z == 1 || b.z - a.z == 1)) || (a.z == b.z && (a.x - b.x == 1 || b.x - a.x
        == 1))
}

/// From a place there is a way off exactly where the bot fits at some place one step away on the
/// same level that is not the target.
pub proof fn a_way_off_is_one_step(
    passable: spec_fn(BlockPos) -> bool,
    stance: BlockPos,
    target: BlockPos,
    next: BlockPos,
)
    requires
        i32::MIN < stance.x < i32::MAX,
        i32::MIN < stance.z < i32::MAX,
    ensures
        is_one_step_off(next, stance) && next.y == stance.y && next != target && can_occupy(
            passable,
            next,
        ) ==> can_escape(passable, stance, target),
        can_escape(passable, stance, target) ==> exists|step: BlockPos|
            {
                &&& is_one_step_off(step, stance)
                &&& step.y == stance.y
                &&& step != target
                &&& #[trigger] can_occupy(passable, step)
            },
{
    if is_one_step_off(next, stance) && next.y == stance.y && next != target && can_occupy(
        passable,
        next,
    ) {
        let d: int = if next.x - stance.x == 1 {
            0
        } else if stance.x - next.x == 1 {
            1
        } else if next.z - stance.z == 1 {
            2
        } else {
            3
        };
        assert(neighbour(stance, d) == next);
    }
    if can_escape(passable, stance, target) {
        let d = choose|d: int|
            0 <= d < 4 && #[trigger] neighbour(stance, d) != target && can_occupy(
                passable,
                neighbour(stance, d),
            );
        assert(can_occupy(passable, neighbour(stance, d)));
    }
}

/// A stance that is chosen lies one step beside the target at one of the heights asked for, at
/// most one block below the anchor; the bot fits there and has a way off it.
pub proof fn chosen_stances_are_safe(
    passable: spec_fn(BlockPos) -> bool,
    target: BlockPos,
    anchor: BlockPos,
    y_offsets: Seq<i32>,
)
    requires
        stance_search_fits(target, anchor, y_offsets),
    ensures
        best_stance(passable, target, anchor, y_offsets) matches Some(stance) ==> {
            &&& is_one_step_off(stance, target)
            &&& exists|i: int|
                0 <= i < y_offsets.len() && stance.y - target.y == #[trigger] y_offsets[i]
            &&& stance.y >= anchor.y - 1
            &&& can_occupy(passable, stance)
            &&& can_escape(passable, stance, target)
        },
{
    let ranks = stance_ranks(passable, target, anchor, y_offsets);
    first_least_exists(ranks);
    if let Some(k) = first_least(ranks) {
        assert(0 <= k / 4 < y_offsets.len());
        assert(0 <= k % 4 < 4);
        let _ = y_offsets[k / 4];
    }
}

/// No safe place is passed over: where a place one step beside the target, at one of the heights
/// asked for and at most one block below the anchor, is one where the bot fits and has a way off,
/// a stance is chosen, and it is not farther from the anchor; of those equally near to the anchor
/// it is not farther from the target.
pub proof fn safe_stances_are_found(
    passable: spec_fn(BlockPos) -> bool,
    target: BlockPos,
    anchor: BlockPos,
    y_offsets: Seq<i32>,
    i: int,
    place: BlockPos,
)
    requires
        stance_search_fits(target, anchor, y_offsets),
        0 <= i < y_offsets.len(),
        is_one_step_off(place, target),
        place.y - target.y == y_offsets[i],
        place.y >= anchor.y - 1,
        can_occupy(passable, place),
        can_escape(passable, place, target),
    ensures
        best_stance(passable, target, anchor, y_offsets) matches Some(stance) && distance_sq(
            stance,
            anchor,
        ) <= distance_sq(place, anchor) && (distance_sq(stance, anchor) == distance_sq(
            place,
            anchor,
        ) ==> distance_sq(stance, target) <= distance_sq(place, target)),
{
    let d: int = if place.x - target.x == 1 {
        0
    } else if target.x - place.x == 1 {
        1
    } else if place.z - target.z == 1 {
        2
    } else {
        3
    };
    let k = 4 * i + d;
    assert(k % 4 == d && k / 4 == i);
    assert(stance_candidate(target, y_offsets, k) == place);
    let ranks = stance_ranks(passable, target, anchor, y_offsets);
    first_least_exists(ranks);
    assert(ranks[k] is Some);
    let best = first_least(ranks)->0;
    let stance = stance_candidate(target, y_offsets, best);
    lemma_distance_fits(place, anchor);
    lemma_distance_fits(place, target);
    lemma_distance_fits(stance, anchor);
    lemma_distance_fits(stance, target);
    assert(ranks[best] is Some);
}

/// No solid block is passed over: where the block below the target, or one that touches it at a
/// side, is solid, a support is chosen, it is solid and touches the target below or at a side, and
/// it is not farther from the stance.
pub proof fn solid_supports_are_found(
    passable: spec_fn(BlockPos) -> bool,
    target: BlockPos,
    stance: BlockPos,
    block: BlockPos,
)
    requires
        support_search_fits(target),
        !passable(block),
        (is_one_step_off(block, target) && block.y == target.y) || (block.x == target.x && block.z
            == target.z && target.y - block.y == 1),
    ensures
        best_support(passable, target, stance) matches Some(support) && {
            &&& !passable(support)
            &&& (is_one_step_off(support, target) && support.y == target.y) || (support.x == target.x
                && support.z == target.z && target.y - support.y == 1)
            &&& distance_sq(support, stance) <= distance_sq(block, stance)
        },
{
    let ranks = support_ranks(passable, target, stance);
    first_least_exists(ranks);
    let k: int = if block == stance && block.y == target.y {
        0
    } else if block.y != target.y {
        1
    } else if block.x - target.x == 1 {
        2
    } else if target.x - block.x == 1 {
        3
    } else if block.z - target.z == 1 {
        4
    } else {
        5
    };
    assert(support_candidate(target, stance, k) == block);
    assert(ranks[k] is Some);
    let best = first_least(ranks)->0;
    let support = support_candidate(target, stance, best);
    lemma_distance_fits(block, stance);
    lemma_distance_fits(support, stance);
    assert(ranks[best] is Some);
}

/// Without a solid block below the target or at a side of it there is no support.
pub proof fn supports_are_solid(
    passable: spec_fn(BlockPos) -> bool,
    target: BlockPos,
    stance: BlockPos,
)
    requires
        support_search_fits(target),
    ensures
        best_support(passable, target, stance) matches Some(support) ==> !passable(support) && ((
        is_one_step_off(support, target) && support.y == target.y) || (support.x == target.x
            && support.z == target.z && target.y - support.y == 1)),
{
    let ranks = support_ranks(passable, target, stance);
    first_least_exists(ranks);
    if let Some(k) = first_least(ranks) {
        assert(ranks[k] is Some);
    }
}

/// The bot has to move where it stands in the way, or is more than one and a half blocks from its
/// stance; a distance is given by the bits of a number that is not negative.
pub proof fn the_bot_moves_where_it_must(bot: BlockPos, target: BlockPos, distance: Measure)
    requires
        distance.bits <= 0x7FF0_0000_0000_0000,
    ensures
        must_navigate(bot, target, distance) <==> bot == target || distance.bits
            > 0x3FF8_0000_0000_0000,
{
}

/// The point to look at lies midway between the centres of the two blocks: as far from the one as
/// from the other, on every axis.
pub proof fn the_bot_looks_between_the_blocks(support: BlockPos, target: BlockPos)
    ensures
        between_centers(support, target).x2 - support.center_spec().x2 == target.center_spec().x2
            - between_centers(support, target).x2,
        between_centers(support, target).y2 - support.center_spec().y2 == target.center_spec().y2
            - between_centers(support, target).y2,
        between_centers(support, target).z2 - support.center_spec().z2 == target.center_spec().z2
            - between_centers(support, target).z2,
{
}

/// `pos` lies one step from `from` in one of the four directions, numbered in the order in which
/// they are tried: east, west, south, north.
pub open spec fn lies_in_direction(pos: BlockPos, from: BlockPos, d: int) -> bool {
    ||| d == 0 && pos.x - from.x == 1 && pos.z == from.z
    ||| d == 1 && from.x - pos.x == 1 && pos.z == from.z
    ||| d == 2 && pos.x == from.x && pos.z - from.z == 1
    ||| d == 3 && pos.x == from.x && from.z - pos.z == 1
}

/// Of safe places that are equally near to the anchor and to the target, the one at an earlier
/// height is chosen, and at one height the one in an earlier direction.
pub proof fn earlier_stances_win_ties(
    passable: spec_fn(BlockPos) -> bool,
    target: BlockPos,
    anchor: BlockPos,
    y_offsets: Seq<i32>,
    i: int,
    d: int,
    place: BlockPos,
    stance: BlockPos,
)
    requires
        stance_search_fits(target, anchor, y_offsets),
        best_stance(passable, target, anchor, y_offsets) == Some(stance),
        0 <= i < y_offsets.len(),
        lies_in_direction(place, target, d),
        place.y - target.y == y_offsets[i],
        place.y >= anchor.y - 1,
        can_occupy(passable, place),
        can_escape(passable, place, target),
        distance_sq(stance, anchor) == distance_sq(place, anchor),
        distance_sq(stance, target) == distance_sq(place, target),
    ensures
        exists|j: int, e: int|
            {
                &&& 0 <= j < y_offsets.len()
                &&& stance.y - target.y == #[trigger] y_offsets[j]
                &&& #[trigger] lies_in_direction(stance, target, e)
                &&& j < i || (j == i && e <= d)
            },
{
    let k = 4 * i + d;
    assert(k % 4 == d && k / 4 == i);
    assert(stance_candidate(target, y_offsets, k) == place);
    let ranks = stance_ranks(passable, target, anchor, y_offsets);
    first_least_exists(ranks);
    assert(ranks[k] is Some);
    let best = first_least(ranks)->0;
    assert(ranks[best] is Some);
    assert(best <= k);
    let j = best / 4;
    let e = best % 4;
    assert(0 <= j < y_offsets.len() && 0 <= e < 4);
    assert(stance.y - target.y == y_offsets[j]);
    assert(lies_in_direction(stance, target, e));
}

/// Answers report where the bot can walk just where each of them is right.
pub proof fn right_answers_are_reports<F: Fn(BlockPos) -> bool>(
    is_passable: F,
    passable: spec_fn(BlockPos) -> bool,
)
    ensures
        (forall|p: BlockPos, answer: bool|
            call_ensures(is_passable, (p,), answer) ==> answer == passable(p)) <==> reports(
            is_passable,
            passable,
        ),
{
}

/// Everywhere in a world of thirty million blocks each way there is room to look for a stance and
/// for a support.
pub proof fn ordinary_places_have_room(target: BlockPos, anchor: BlockPos, y_offsets: Seq<i32>)
    requires
        -30_000_000 <= target.x <= 30_000_000,
        -30_000_000 <= target.y <= 30_000_000,
        -30_000_000 <= target.z <= 30_000_000,
        -30_000_000 <= anchor.y <= 30_000_000,
        forall|i: int| 0 <= i < y_offsets.len() ==> -100 <= #[trigger] y_offsets[i] <= 100,
    ensures
        stance_search_fits(target, anchor, y_offsets),
        support_search_fits(target),
{
}

/// Of solid blocks that are equally near to the stance, the one below the target is chosen, and of
/// those at its sides the one in an earlier direction.
pub proof fn earlier_supports_win_ties(
    passable: spec_fn(BlockPos) -> bool,
    target: BlockPos,
    stance: BlockPos,
    block: BlockPos,
    support: BlockPos,
    d: int,
)
    requires
        support_search_fits(target),
        best_support(passable, target, stance) == Some(support),
        !passable(block),
        distance_sq(support, stance) == distance_sq(block, stance),
    ensures
        block.x == target.x && block.z == target.z && target.y - block.y == 1 ==> support == block,
        lies_in_direction(block, target, d) && block.y == target.y ==> (support.x == target.x
            && support.z == target.z && target.y - support.y == 1) || (support.y == target.y
            && exists|e: int| e <= d && #[trigger] lies_in_direction(support, target, e)),
{
    let ranks = support_ranks(passable, target, stance);
    let best = first_least(ranks)->0;
    first_least_exists(ranks);
    assert(ranks[best] is Some);
    lemma_distance_fits(support, stance);
    lemma_distance_fits(block, stance);
    if best == 0 {
        assert(support == stance);
        let (x, y, z) = (block.x - stance.x, block.y - stance.y, block.z - stance.z);
        assert(distance_sq(support, stance) == 0);
        assert(x == 0 && y == 0 && z == 0) by (nonlinear_arith)
            requires
                x * x + y * y + z * z == 0,
        ;
        assert(block == support);
    }
    if block.x == target.x && block.z == target.z && target.y - block.y == 1 {
        assert(support_candidate(target, stance, 1) == block);
        assert(ranks[1] is Some);
    }
    if lies_in_direction(block, target, d) && block.y == target.y {
        if best == 0 {
            assert(lies_in_direction(support, target, d));
        } else if block == stance {
            assert(support_candidate(target, stance, 0) == block);
            assert(ranks[0] is Some);
        } else {
            assert(support_candidate(target, stance, d + 2) == block);
            assert(ranks[d + 2] is Some);
            assert(best <= d + 2);
            if best >= 2 {
                assert(lies_in_direction(support, target, best - 2));
            }
        }
    }
}

} // verus!
