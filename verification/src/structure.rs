//! What to build: the blocks of a structure and the materials for them.

use crate::counts::{count_in, ItemCounts};
use crate::order::{is_stable_order, lemma_rearranging, stable_order, stably_before, Rank};
use std::collections::VecDeque;
use vstd::prelude::*;
use vstd::string::*;

verus! {

/// One block of a structure, at an offset from the structure's origin.
#[derive(Debug)]
pub struct BlockEntry {
    pub x: i32,
    pub y: i32,
    pub z: i32,
    pub block: String,
}

impl Clone for BlockEntry {
    fn clone(&self) -> (copy: BlockEntry)
        ensures
            copy == *self,
    {
        BlockEntry { x: self.x, y: self.y, z: self.z, block: self.block.clone() }
    }
}

/// A structure: its blocks, and how many of which block they take.
#[derive(Clone, Debug)]
pub struct Structure {
    pub blocks: Vec<BlockEntry>,
    pub materials: ItemCounts,
}

/// The texts and counts of a list of items.
pub open spec fn item_views(items: Seq<(String, u32)>) -> Seq<(Seq<char>, u32)> {
    Seq::new(items.len(), |i: int| (items[i].0@, items[i].1))
}

/// What the inventory lacks of the materials: of each material of which more is needed than
/// there is, the difference, in the order of the materials.
pub open spec fn missing_of(
    materials: Seq<(Seq<char>, u32)>,
    inventory: Map<Seq<char>, u32>,
) -> Seq<(Seq<char>, u32)>
    decreases materials.len(),
{
    if materials.len() == 0 {
        Seq::empty()
    } else {
        let rest = missing_of(materials.drop_last(), inventory);
        let (item, needed) = materials.last();
        if needed > count_in(inventory, item) {
            rest.push((item, (needed - count_in(inventory, item)) as u32))
        } else {
            rest
        }
    }
}

/// What the inventory lacks of the materials of a structure.
pub fn compute_missing(structure: &Structure, inventory: &ItemCounts) -> (missing: VecDeque<
    (String, u32),
>)
    ensures
        item_views(missing@) == missing_of(structure.materials.items(), inventory@),
{
    let materials = &structure.materials;
    let mut missing: VecDeque<(String, u32)> = VecDeque::new();
    let mut i: usize = 0;
    let n: usize = materials.len();
    assert(item_views(missing@) =~= missing_of(materials.items().take(0), inventory@));
    while i < n
        invariant
            i <= n,
            n == materials.items().len(),
            item_views(missing@) == missing_of(materials.items().take(i as int), inventory@),
        decreases n - i,
    {
        let item = materials.name_at(i);
        let needed: u32 = materials.count_at(i);
        let have: u32 = inventory.count_of(item.as_str());
        let ghost previous = missing@;
        assert(materials.items().take(i + 1).drop_last() =~= materials.items().take(i as int));
        if needed > have {
            missing.push_back((item.clone(), needed - have));
            assert(item_views(missing@) =~= item_views(previous).push(
                (item@, (needed - have) as u32),
            ));
        }
        i = i + 1;
    }
    assert(materials.items().take(i as int) =~= materials.items());
    missing
}

/// Nothing is missing exactly where there is enough of every material.
pub proof fn nothing_missing_iff_stocked(
    materials: Seq<(Seq<char>, u32)>,
    inventory: Map<Seq<char>, u32>,
)
    ensures
        missing_of(materials, inventory).len() == 0 <==> forall|i: int|
            0 <= i < materials.len() ==> (#[trigger] materials[i]).1 <= count_in(
                inventory,
                materials[i].0,
            ),
    decreases materials.len(),
{
    if materials.len() > 0 {
        let front = materials.drop_last();
        nothing_missing_iff_stocked(front, inventory);
        if missing_of(materials, inventory).len() == 0 {
            assert forall|i: int| 0 <= i < materials.len() implies (#[trigger] materials[i]).1
                <= count_in(inventory, materials[i].0) by {
                if i < front.len() {
                    assert(front[i] == materials[i]);
                }
            }
        } else {
            if missing_of(front, inventory).len() > 0 {
                let i = choose|i: int|
                    0 <= i < front.len() && !((#[trigger] front[i]).1 <= count_in(
                        inventory,
                        front[i].0,
                    ));
                assert(materials[i] == front[i]);
            } else {
                assert(materials[materials.len() - 1] == materials.last());
            }
        }
    }
}

/// Each material that is listed as missing is one of the materials, is needed, and is listed with
/// just the amount that would make up for it.
pub proof fn missing_amounts_are_exact(
    materials: Seq<(Seq<char>, u32)>,
    inventory: Map<Seq<char>, u32>,
    k: int,
)
    requires
        0 <= k < missing_of(materials, inventory).len(),
    ensures
        ({
            let (item, amount) = missing_of(materials, inventory)[k];
            &&& amount > 0
            &&& exists|i: int|
                0 <= i < materials.len() && (#[trigger] materials[i]).0 == item && materials[i].1
                    == count_in(inventory, item) + amount
        }),
    decreases materials.len(),
{
    let front = materials.drop_last();
    let (item, amount) = missing_of(materials, inventory)[k];
    if k < missing_of(front, inventory).len() {
        missing_amounts_are_exact(front, inventory, k);
        let i = choose|i: int|
            0 <= i < front.len() && (#[trigger] front[i]).0 == item && front[i].1 == count_in(
                inventory,
                item,
            ) + amount;
        assert(materials[i] == front[i]);
    } else {
        assert(materials[materials.len() - 1] == materials.last());
    }
}

/// Once an inventory has gained at least what was missing of each material and lost nothing,
/// nothing is missing any more.
pub proof fn gathering_what_is_missing_suffices(
    materials: Seq<(Seq<char>, u32)>,
    inventory: Map<Seq<char>, u32>,
    later: Map<Seq<char>, u32>,
)
    requires
        forall|item: Seq<char>| count_in(inventory, item) <= #[trigger] count_in(later, item),
        forall|k: int|
            0 <= k < missing_of(materials, inventory).len() ==> count_in(
                inventory,
                (#[trigger] missing_of(materials, inventory)[k]).0,
            ) + missing_of(materials, inventory)[k].1 <= count_in(
                later,
                missing_of(materials, inventory)[k].0,
            ),
    ensures
        missing_of(materials, later).len() == 0,
    decreases materials.len(),
{
    if materials.len() > 0 {
        let front = materials.drop_last();
        let missing = missing_of(materials, inventory);
        assert forall|k: int| 0 <= k < missing_of(front, inventory).len() implies count_in(
            inventory,
            (#[trigger] missing_of(front, inventory)[k]).0,
        ) + missing_of(front, inventory)[k].1 <= count_in(
            later,
            missing_of(front, inventory)[k].0,
        ) by {
            assert(missing[k] == missing_of(front, inventory)[k]);
        }
        gathering_what_is_missing_suffices(front, inventory, later);
        let (item, needed) = materials.last();
        if needed > count_in(inventory, item) {
            assert(missing[missing.len() - 1] == (item, (needed - count_in(inventory, item)) as u32));
        }
        assert(count_in(inventory, item) <= count_in(later, item));
    }
}

/// The heights of blocks, as ranks.
pub open spec fn height_ranks(blocks: Seq<BlockEntry>) -> Seq<Rank> {
    Seq::new(blocks.len(), |i: int| Rank { major: blocks[i].y as i128, minor: 0, last: 0 })
}

/// The blocks in the given order.
pub open spec fn in_order(blocks: Seq<BlockEntry>, order: Seq<usize>) -> Seq<BlockEntry> {
    Seq::new(order.len(), |k: int| blocks[order[k] as int])
}

/// `sorted` holds the same blocks from the lowest up, blocks of one height in the order in which
/// they stood.
pub open spec fn is_sorted_by_y(blocks: Seq<BlockEntry>, sorted: Seq<BlockEntry>) -> bool {
    exists|order: Seq<usize>| #[trigger]
        is_stable_order(height_ranks(blocks), order) && sorted == in_order(blocks, order)
}

/// Sorts blocks from the lowest up, blocks of one height staying in the order in which they stand.
pub fn sort_blocks_by_y(blocks: &mut [BlockEntry])
    ensures
        is_sorted_by_y(old(blocks)@, final(blocks)@),
{
    let mut ranks: Vec<Rank> = Vec::new();
    let mut i: usize = 0;
    while i < blocks.len()
        invariant
            i <= blocks@.len(),
            blocks@ == old(blocks)@,
            ranks@ == height_ranks(blocks@).take(i as int),
        decreases blocks@.len() - i,
    {
        ranks.push(Rank { major: blocks[i].y as i128, minor: 0, last: 0 });
        assert(ranks@ =~= height_ranks(blocks@).take(i + 1));
        i = i + 1;
    }
    assert(ranks@ =~= height_ranks(blocks@));
    let order = stable_order(&ranks);
    let mut sorted: Vec<BlockEntry> = Vec::new();
    let mut k: usize = 0;
    while k < order.len()
        invariant
            k <= order@.len(),
            blocks@ == old(blocks)@,
            is_stable_order(height_ranks(blocks@), order@),
            sorted@ == in_order(blocks@, order@).take(k as int),
        decreases order@.len() - k,
    {
        sorted.push(blocks[order[k]].clone());
        assert(sorted@ =~= in_order(blocks@, order@).take(k + 1));
        k = k + 1;
    }
    assert(sorted@ =~= in_order(blocks@, order@));
    let ghost wanted = sorted@;
    let mut n: usize = blocks.len();
    while n > 0
        invariant
            n <= blocks@.len(),
            blocks@.len() == wanted.len(),
            sorted@ == wanted.take(n as int),
            forall|j: int| n <= j < blocks@.len() ==> blocks@[j] == wanted[j],
        decreases n,
    {
        n = n - 1;
        match sorted.pop() {
            Some(block) => {
                blocks[n] = block;
            },
            None => {},
        }
        assert(sorted@ =~= wanted.take(n as int));
    }
    assert(blocks@ =~= wanted);
}

/// Sorted blocks ascend.
pub proof fn sorted_blocks_ascend(blocks: Seq<BlockEntry>, sorted: Seq<BlockEntry>, i: int, j: int)
    requires
        is_sorted_by_y(blocks, sorted),
        0 <= i < j < sorted.len(),
    ensures
        sorted[i].y <= sorted[j].y,
{
    let order = choose|order: Seq<usize>| #[trigger]
        is_stable_order(height_ranks(blocks), order) && sorted == in_order(blocks, order);
    assert(stably_before(height_ranks(blocks), order[i] as int, order[j] as int));
}

/// Sorting loses no block and adds none.
pub proof fn sorting_keeps_the_blocks(blocks: Seq<BlockEntry>, sorted: Seq<BlockEntry>)
    requires
        blocks.len() <= usize::MAX,
        is_sorted_by_y(blocks, sorted),
    ensures
        sorted.len() == blocks.len(),
        sorted.to_multiset() == blocks.to_multiset(),
{
    let ranks = height_ranks(blocks);
    let order = choose|order: Seq<usize>| #[trigger]
        is_stable_order(ranks, order) && sorted == in_order(blocks, order);
    let places = Seq::new(order.len(), |k: int| order[k] as int);
    assert forall|k: int, l: int| 0 <= k < l < places.len() implies #[trigger] places[k]
        != #[trigger] places[l] by {
        assert(stably_before(ranks, order[k] as int, order[l] as int));
    }
    assert forall|i: int| 0 <= i < blocks.len() implies #[trigger] places.contains(i) by {
        assert(order.contains(i as usize));
        let k = choose|k: int| 0 <= k < order.len() && order[k] == i as usize;
        assert(places[k] == i);
    }
    lemma_rearranging(blocks, places);
    assert(sorted =~= Seq::new(places.len(), |k: int| blocks[places[k]]));
}

/// What one more material adds to what is missing: itself with just what the inventory lacks of
/// it, at the end, and nothing where there is enough.
pub proof fn every_material_is_looked_at(
    materials: Seq<(Seq<char>, u32)>,
    inventory: Map<Seq<char>, u32>,
    item: Seq<char>,
    needed: u32,
)
    ensures
        missing_of(Seq::empty(), inventory) == Seq::<(Seq<char>, u32)>::empty(),
        ({
            let have = if inventory.dom().contains(item) {
                inventory[item]
            } else {
                0
            };
            let before = missing_of(materials, inventory);
            let after = missing_of(materials.push((item, needed)), inventory);
            &&& needed <= have ==> after == before
            &&& needed > have ==> {
                &&& after.len() == before.len() + 1
                &&& after.drop_last() == before
                &&& after.last().0 == item
                &&& have + after.last().1 == needed
            }
        }),
{
    assert(materials.push((item, needed)).drop_last() =~= materials);
    let after = missing_of(materials.push((item, needed)), inventory);
    if needed > count_in(inventory, item) {
        assert(after.drop_last() =~= missing_of(materials, inventory));
    }
}

/// Sorting rearranges the blocks: each stands in one new place, lower blocks come first, and
/// blocks of one height stay in the order in which they stood.
pub proof fn sorting_rearranges_by_height(blocks: Seq<BlockEntry>, sorted: Seq<BlockEntry>) -> (places:
    Seq<int>)
    requires
        blocks.len() <= usize::MAX,
        is_sorted_by_y(blocks, sorted),
    ensures
        places.len() == blocks.len(),
        sorted.len() == blocks.len(),
        forall|k: int|
            0 <= k < places.len() ==> 0 <= (#[trigger] places[k]) < blocks.len() && sorted[k]
                == blocks[places[k]],
        forall|k: int, l: int|
            0 <= k < l < places.len() ==> blocks[#[trigger] places[k]].y < blocks[#[trigger] places[l]].y
                || (blocks[places[k]].y == blocks[places[l]].y && places[k] < places[l]),
{
    let ranks = height_ranks(blocks);
    let order = choose|order: Seq<usize>| #[trigger]
        is_stable_order(ranks, order) && sorted == in_order(blocks, order);
    let places = Seq::new(order.len(), |k: int| order[k] as int);
    assert forall|k: int| 0 <= k < places.len() implies 0 <= (#[trigger] places[k]) < blocks.len()
        && sorted[k] == blocks[places[k]] by {
        assert(order[k] < ranks.len());
    }
    assert forall|k: int, l: int| 0 <= k < l < places.len() implies blocks[#[trigger] places[k]].y
        < blocks[#[trigger] places[l]].y || (blocks[places[k]].y == blocks[places[l]].y && places[k]
        < places[l]) by {
        assert(stably_before(ranks, order[k] as int, order[l] as int));
        assert(order[k] < ranks.len() && order[l] < ranks.len());
    }
    places
}

} // verus!
