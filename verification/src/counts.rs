//! How many of which item: stacks of items, and counts by item identifier.

use crate::kinds::ItemKind;
use crate::text::{has_char, same_text};
use vstd::prelude::*;
use vstd::string::*;

verus! {

/// A stack of items of one kind.
#[derive(Clone, Copy, Debug, PartialEq, Eq, Structural)]
pub struct ItemStack {
    pub kind: ItemKind,
    pub count: i32,
}

/// A stack of items by the text that names them.
#[derive(Clone, Debug, PartialEq, Eq)]
pub struct NamedStack {
    pub name: String,
    pub count: i32,
}

/// A count that is never negative: zero stands for what is below.
pub open spec fn amount(count: i32) -> int {
    if count > 0 {
        count as int
    } else {
        0
    }
}

/// A count that is never negative.
pub fn amount_of(count: i32) -> (n: u32)
    ensures
        n == amount(count),
{
    if count > 0 {
        count as u32
    } else {
        0
    }
}

/// The identifier that a name stands for: a name without a colon lives under `minecraft:`.
pub open spec fn identifier(name: Seq<char>) -> Seq<char> {
    if name.contains(':') {
        name
    } else {
        "minecraft:"@ + name
    }
}

/// The identifier that a name stands for.
pub fn item_identifier(name: &str) -> (id: String)
    ensures
        id@ == identifier(name@),
{
    if has_char(name, ':') {
        name.to_owned()
    } else {
        "minecraft:".to_owned().concat(name)
    }
}

/// Counts by item identifier, each identifier standing once, in the order in which they came.
#[derive(Debug)]
pub struct ItemCounts {
    entries: Vec<(String, u32)>,
}

/// No identifier stands twice.
pub open spec fn distinct_names(entries: Seq<(Seq<char>, u32)>) -> bool {
    forall|i: int, j: int|
        0 <= i < j < entries.len() ==> (#[trigger] entries[i]).0 != (#[trigger] entries[j]).0
}

/// The counts as a map from identifiers.
pub open spec fn as_map(entries: Seq<(Seq<char>, u32)>) -> Map<Seq<char>, u32> {
    Map::new(
        |name: Seq<char>| exists|i: int| 0 <= i < entries.len() && (#[trigger] entries[i]).0 == name,
        |name: Seq<char>|
            entries[choose|i: int| 0 <= i < entries.len() && (#[trigger] entries[i]).0 == name].1,
    )
}

/// The count that a map gives an identifier, zero where it does not hold it.
pub open spec fn count_in(counts: Map<Seq<char>, u32>, name: Seq<char>) -> u32 {
    if counts.dom().contains(name) {
        counts[name]
    } else {
        0
    }
}

/// The sum of all counts.
pub open spec fn total_count(entries: Seq<(Seq<char>, u32)>) -> int
    decreases entries.len(),
{
    if entries.len() == 0 {
        0
    } else {
        total_count(entries.drop_last()) + entries.last().1
    }
}

/// The map holds each entry.
pub proof fn lemma_map_holds_entry(entries: Seq<(Seq<char>, u32)>, i: int)
    requires
        distinct_names(entries),
        0 <= i < entries.len(),
    ensures
        as_map(entries).dom().contains(entries[i].0),
        as_map(entries)[entries[i].0] == entries[i].1,
{
    let name = entries[i].0;
    assert(exists|j: int| 0 <= j < entries.len() && (#[trigger] entries[j]).0 == name);
    let j = choose|j: int| 0 <= j < entries.len() && (#[trigger] entries[j]).0 == name;
    if j < i {
        assert(entries[j].0 != entries[i].0);
    }
    if i < j {
        assert(entries[i].0 != entries[j].0);
    }
}

/// A new identifier at the end of the entries is a new key of the map.
proof fn lemma_map_push(entries: Seq<(Seq<char>, u32)>, name: Seq<char>, count: u32)
    requires
        distinct_names(entries),
        forall|i: int| 0 <= i < entries.len() ==> (#[trigger] entries[i]).0 != name,
    ensures
        distinct_names(entries.push((name, count))),
        as_map(entries.push((name, count))) == as_map(entries).insert(name, count),
{
    let longer = entries.push((name, count));
    assert(distinct_names(longer));
    assert forall|n: Seq<char>| as_map(longer).dom().contains(n) == as_map(entries).insert(
        name,
        count,
    ).dom().contains(n) by {
        if n == name {
            assert(longer[entries.len() as int].0 == name);
        } else if as_map(entries).dom().contains(n) {
            let i = choose|i: int| 0 <= i < entries.len() && (#[trigger] entries[i]).0 == n;
            assert(longer[i].0 == n);
        } else if as_map(longer).dom().contains(n) {
            let i = choose|i: int| 0 <= i < longer.len() && (#[trigger] longer[i]).0 == n;
            assert(entries[i].0 == n);
        }
    }
    assert forall|n: Seq<char>| as_map(longer).dom().contains(n) implies as_map(longer)[n]
        == as_map(entries).insert(name, count)[n] by {
        let i = choose|i: int| 0 <= i < longer.len() && (#[trigger] longer[i]).0 == n;
        lemma_map_holds_entry(longer, i);
        if i < entries.len() {
            assert(entries[i].0 == n);
            lemma_map_holds_entry(entries, i);
        }
    }
    assert(as_map(longer) =~= as_map(entries).insert(name, count));
}

/// A new count at an entry is a new value of the map.
proof fn lemma_map_update(entries: Seq<(Seq<char>, u32)>, at: int, count: u32)
    requires
        distinct_names(entries),
        0 <= at < entries.len(),
    ensures
        distinct_names(entries.update(at, (entries[at].0, count))),
        as_map(entries.update(at, (entries[at].0, count))) == as_map(entries).insert(
            entries[at].0,
            count,
        ),
{
    let changed = entries.update(at, (entries[at].0, count));
    assert forall|i: int, j: int| 0 <= i < j < changed.len() implies (#[trigger] changed[i]).0 != (
    #[trigger] changed[j]).0 by {
        assert(entries[i].0 != entries[j].0);
    }
    let expected = as_map(entries).insert(entries[at].0, count);
    assert forall|n: Seq<char>|
        as_map(changed).dom().contains(n) == expected.dom().contains(n) by {
        if as_map(changed).dom().contains(n) {
            let i = choose|i: int| 0 <= i < changed.len() && (#[trigger] changed[i]).0 == n;
            assert(entries[i].0 == n);
        }
        if as_map(entries).dom().contains(n) {
            let i = choose|i: int| 0 <= i < entries.len() && (#[trigger] entries[i]).0 == n;
            assert(changed[i].0 == n);
        }
        if n == entries[at].0 {
            assert(changed[at].0 == n);
        }
    }
    assert forall|n: Seq<char>| as_map(changed).dom().contains(n) implies as_map(changed)[n]
        == expected[n] by {
        let i = choose|i: int| 0 <= i < changed.len() && (#[trigger] changed[i]).0 == n;
        lemma_map_holds_entry(changed, i);
        lemma_map_holds_entry(entries, i);
        if i != at {
            assert(entries[i].0 != entries[at].0) by {
                if i < at {
                    assert(entries[i].0 != entries[at].0);
                } else {
                    assert(entries[at].0 != entries[i].0);
                }
            }
        }
    }
    assert(as_map(changed) =~= expected);
}

/// The views of named counts.
pub open spec fn entry_views(entries: Seq<(String, u32)>) -> Seq<(Seq<char>, u32)> {
    Seq::new(entries.len(), |i: int| (entries[i].0@, entries[i].1))
}

impl View for ItemCounts {
    type V = Map<Seq<char>, u32>;

    open spec fn view(&self) -> Map<Seq<char>, u32> {
        as_map(self.items())
    }
}

impl Clone for ItemCounts {
    fn clone(&self) -> (copy: ItemCounts)
        ensures
            copy.items() == self.items(),
    {
        proof {
            use_type_invariant(self);
        }
        let mut entries: Vec<(String, u32)> = Vec::new();
        let mut i: usize = 0;
        while i < self.entries.len()
            invariant
                i <= self.entries@.len(),
                entries@.len() == i,
                forall|j: int| 0 <= j < i ==> (#[trigger] entries@[j]) == self.entries@[j],
            decreases self.entries@.len() - i,
        {
            entries.push((self.entries[i].0.clone(), self.entries[i].1));
            i = i + 1;
        }
        assert(entry_views(entries@) =~= entry_views(self.entries@));
        ItemCounts { entries }
    }
}

impl ItemCounts {
    /// The identifiers with their counts, in the order in which they came.
    pub closed spec fn items(self) -> Seq<(Seq<char>, u32)> {
        entry_views(self.entries@)
    }

    #[verifier::type_invariant]
    spec fn well_formed(self) -> bool {
        distinct_names(self.items())
    }

    /// No counts.
    pub fn new() -> (counts: ItemCounts)
        ensures
            counts.items() == Seq::<(Seq<char>, u32)>::empty(),
            counts@ == Map::<Seq<char>, u32>::empty(),
    {
        let counts = ItemCounts { entries: Vec::new() };
        assert(counts.items() =~= Seq::<(Seq<char>, u32)>::empty());
        assert(counts@ =~= Map::<Seq<char>, u32>::empty());
        counts
    }

    /// The number of identifiers, which all differ.
    pub fn len(&self) -> (n: usize)
        ensures
            n == self.items().len(),
            distinct_names(self.items()),
    {
        proof {
            use_type_invariant(self);
        }
        self.entries.len()
    }

    /// Whether there are no counts.
    pub fn is_empty(&self) -> (r: bool)
        ensures
            r == (self.items().len() == 0),
    {
        self.entries.len() == 0
    }

    /// The `i`-th identifier.
    pub fn name_at(&self, i: usize) -> (name: &String)
        requires
            i < self.items().len(),
        ensures
            name@ == self.items()[i as int].0,
    {
        &self.entries[i].0
    }

    /// The count of the `i`-th identifier.
    pub fn count_at(&self, i: usize) -> (count: u32)
        requires
            i < self.items().len(),
        ensures
            count == self.items()[i as int].1,
    {
        self.entries[i].1
    }

    /// The place of an identifier.
    fn position(&self, name: &str) -> (at: Option<usize>)
        ensures
            at matches Some(i) ==> i < self.items().len() && self.items()[i as int].0 == name@,
            at is None ==> forall|i: int|
                0 <= i < self.items().len() ==> (#[trigger] self.items()[i]).0 != name@,
    {
        let mut i: usize = 0;
        while i < self.entries.len()
            invariant
                i <= self.entries@.len(),
                forall|j: int| 0 <= j < i ==> (#[trigger] self.items()[j]).0 != name@,
            decreases self.entries@.len() - i,
        {
            if same_text(self.entries[i].0.as_str(), name) {
                return Some(i);
            }
            i = i + 1;
        }
        None
    }

    /// The count of an identifier, zero where it has none.
    pub fn count_of(&self, name: &str) -> (count: u32)
        ensures
            count == count_in(self@, name@),
    {
        proof {
            use_type_invariant(self);
        }
        match self.position(name) {
            Some(i) => {
                proof {
                    lemma_map_holds_entry(self.items(), i as int);
                }
                self.entries[i].1
            },
            None => 0,
        }
    }

    /// The counts with another count for one identifier.
    pub fn with_count(self, name: String, count: u32) -> (counts: ItemCounts)
        ensures
            counts@ == self@.insert(name@, count),
            self@.dom().contains(name@) ==> exists|i: int|
                0 <= i < self.items().len() && (#[trigger] self.items()[i]).0 == name@
                    && counts.items() == self.items().update(i, (name@, count)),
            !self@.dom().contains(name@) ==> counts.items() == self.items().push((name@, count)),
    {
        proof {
            use_type_invariant(&self);
        }
        let ghost before = self.items();
        let at = self.position(name.as_str());
        let mut entries: Vec<(String, u32)> = self.entries;
        match at {
            Some(i) => {
                proof {
                    lemma_map_update(before, i as int, count);
                    lemma_map_holds_entry(before, i as int);
                }
                entries.set(i, (name, count));
                assert(entry_views(entries@) =~= before.update(
                    i as int,
                    (before[i as int].0, count),
                ));
            },
            None => {
                proof {
                    lemma_map_push(before, name@, count);
                }
                let ghost text = name@;
                entries.push((name, count));
                assert(entry_views(entries@) =~= before.push((text, count)));
            },
        }
        ItemCounts { entries }
    }

    /// The counts with `more` added to one identifier; `None` where the sum is more than a `u32`
    /// holds.
    pub fn with_more(self, name: String, more: u32) -> (counts: Option<ItemCounts>)
        ensures
            counts is Some <==> count_in(self@, name@) + more <= u32::MAX,
            counts matches Some(c) ==> c@ == self@.insert(
                name@,
                (count_in(self@, name@) + more) as u32,
            ),
    {
        let count: u32 = self.count_of(name.as_str());
        match count.checked_add(more) {
            Some(sum) => Some(self.with_count(name, sum)),
            None => None,
        }
    }

    /// The sum of all counts; `None` where it is more than a `u32` holds.
    pub fn total(&self) -> (sum: Option<u32>)
        ensures
            sum is Some <==> total_count(self.items()) <= u32::MAX,
            sum matches Some(s) ==> s == total_count(self.items()),
    {
        let mut sum: u32 = 0;
        let mut i: usize = 0;
        while i < self.entries.len()
            invariant
                i <= self.entries@.len(),
                sum == total_count(self.items().take(i as int)),
            decreases self.entries@.len() - i,
        {
            proof {
                assert(self.items().take(i + 1).drop_last() =~= self.items().take(i as int));
                lemma_total_grows(self.items(), i + 1);
            }
            match sum.checked_add(self.entries[i].1) {
                Some(s) => {
                    sum = s;
                },
                None => {
                    return None;
                },
            }
            i = i + 1;
        }
        assert(self.items().take(i as int) =~= self.items());
        Some(sum)
    }
}

/// The sum over a prefix is at most the sum of all.
proof fn lemma_total_grows(entries: Seq<(Seq<char>, u32)>, n: int)
    requires
        0 <= n <= entries.len(),
    ensures
        total_count(entries.take(n)) <= total_count(entries),
    decreases entries.len() - n,
{
    if n == entries.len() {
        assert(entries.take(n) =~= entries);
    } else {
        lemma_total_grows(entries, n + 1);
        assert(entries.take(n + 1).drop_last() =~= entries.take(n));
    }
}

/// The counts after the stacks of some slots have been added one by one; `None` once a count is
/// more than a `u32` holds. Empty slots count nothing.
pub open spec fn with_slots(
    counts: Map<Seq<char>, u32>,
    slots: Seq<Option<NamedStack>>,
) -> Option<Map<Seq<char>, u32>>
    decreases slots.len(),
{
    if slots.len() == 0 {
        Some(counts)
    } else {
        match with_slots(counts, slots.drop_last()) {
            None => None,
            Some(before) => match slots.last() {
                None => Some(before),
                Some(stack) => {
                    let id = identifier(stack.name@);
                    let sum = count_in(before, id) + amount(stack.count);
                    if sum <= u32::MAX {
                        Some(before.insert(id, sum as u32))
                    } else {
                        None
                    }
                },
            },
        }
    }
}

/// The counts with the contents of some slots added; `None` where a count is more than a `u32`
/// holds.
pub fn add_contents(counts: ItemCounts, slots: &Vec<Option<NamedStack>>) -> (sum: Option<ItemCounts>)
    ensures
        sum is Some <==> with_slots(counts@, slots@) is Some,
        sum matches Some(c) ==> with_slots(counts@, slots@) == Some(c@),
{
    let ghost before = counts@;
    let mut held = counts;
    let mut i: usize = 0;
    while i < slots.len()
        invariant
            i <= slots@.len(),
            before == counts@,
            with_slots(before, slots@.take(i as int)) == Some(held@),
        decreases slots@.len() - i,
    {
        proof {
            assert(slots@.take(i + 1).drop_last() =~= slots@.take(i as int));
            lemma_overflow_stays(before, slots@, i + 1);
        }
        match &slots[i] {
            None => {},
            Some(stack) => {
                match held.with_more(
                    item_identifier(stack.name.as_str()),
                    amount_of(stack.count),
                ) {
                    Some(next) => {
                        held = next;
                    },
                    None => {
                        return None;
                    },
                }
            },
        }
        i = i + 1;
    }
    assert(slots@.take(i as int) =~= slots@);
    Some(held)
}

/// Once a count has become too great, more slots do not mend it.
proof fn lemma_overflow_stays(
    counts: Map<Seq<char>, u32>,
    slots: Seq<Option<NamedStack>>,
    n: int,
)
    requires
        0 <= n <= slots.len(),
    ensures
        with_slots(counts, slots.take(n)) is None ==> with_slots(counts, slots) is None,
    decreases slots.len() - n,
{
    if n == slots.len() {
        assert(slots.take(n) =~= slots);
    } else {
        lemma_overflow_stays(counts, slots, n + 1);
        assert(slots.take(n + 1).drop_last() =~= slots.take(n));
    }
}

/// How much the slots hold under one identifier.
pub open spec fn amount_in_slots(slots: Seq<Option<NamedStack>>, id: Seq<char>) -> int
    decreases slots.len(),
{
    if slots.len() == 0 {
        0
    } else {
        amount_in_slots(slots.drop_last(), id) + match slots.last() {
            None => 0,
            Some(stack) => if identifier(stack.name@) == id {
                amount(stack.count)
            } else {
                0
            },
        }
    }
}

/// Adding the contents of slots adds to each identifier what the slots hold under it, whatever
/// the order of the slots.
pub proof fn added_contents_add_up(
    counts: Map<Seq<char>, u32>,
    slots: Seq<Option<NamedStack>>,
    id: Seq<char>,
)
    requires
        with_slots(counts, slots) is Some,
    ensures
        count_in(with_slots(counts, slots)->0, id) == count_in(counts, id) + amount_in_slots(
            slots,
            id,
        ),
    decreases slots.len(),
{
    if slots.len() > 0 {
        added_contents_add_up(counts, slots.drop_last(), id);
    }
}

/// The amounts that stand beside the counted kinds of items.
pub open spec fn matching_total(counted: Seq<ItemKind>, amounts: Seq<(ItemKind, int)>) -> int
    decreases amounts.len(),
{
    if amounts.len() == 0 {
        0
    } else {
        matching_total(counted, amounts.drop_last()) + if counted.contains(amounts.last().0) {
            amounts.last().1
        } else {
            0
        }
    }
}

/// What some stacks hold, by kind.
pub open spec fn stack_amounts(stacks: Seq<ItemStack>) -> Seq<(ItemKind, int)> {
    Seq::new(stacks.len(), |i: int| (stacks[i].kind, amount(stacks[i].count)))
}

/// Counts by kind.
pub open spec fn kind_amounts(slots: Seq<(ItemKind, u32)>) -> Seq<(ItemKind, int)> {
    Seq::new(slots.len(), |i: int| (slots[i].0, slots[i].1 as int))
}

/// Whether a kind of item is among those counted.
pub fn is_counted(counted: &Vec<ItemKind>, kind: ItemKind) -> (r: bool)
    ensures
        r == counted@.contains(kind),
{
    let mut i: usize = 0;
    while i < counted.len()
        invariant
            i <= counted@.len(),
            forall|j: int| 0 <= j < i ==> counted@[j] != kind,
        decreases counted@.len() - i,
    {
        if counted[i] == kind {
            assert(counted@[i as int] == kind);
            return true;
        }
        i = i + 1;
    }
    false
}

/// The amounts of a prefix are at most all amounts.
proof fn lemma_matching_grows(counted: Seq<ItemKind>, amounts: Seq<(ItemKind, int)>, n: int)
    requires
        0 <= n <= amounts.len(),
        forall|i: int| 0 <= i < amounts.len() ==> (#[trigger] amounts[i]).1 >= 0,
    ensures
        0 <= matching_total(counted, amounts.take(n)) <= matching_total(counted, amounts),
    decreases amounts.len() - n,
{
    if n == amounts.len() {
        assert(amounts.take(n) =~= amounts);
        lemma_matching_positive(counted, amounts);
    } else {
        lemma_matching_grows(counted, amounts, n + 1);
        assert(amounts.take(n + 1).drop_last() =~= amounts.take(n));
        lemma_matching_positive(counted, amounts.take(n));
    }
}

proof fn lemma_matching_positive(counted: Seq<ItemKind>, amounts: Seq<(ItemKind, int)>)
    requires
        forall|i: int| 0 <= i < amounts.len() ==> (#[trigger] amounts[i]).1 >= 0,
    ensures
        0 <= matching_total(counted, amounts),
    decreases amounts.len(),
{
    if amounts.len() > 0 {
        lemma_matching_positive(counted, amounts.drop_last());
    }
}

/// How many of the counted items some stacks hold; `None` where that is more than a `u32` holds.
pub fn count_in_stacks(counted: &Vec<ItemKind>, stacks: &Vec<ItemStack>) -> (sum: Option<u32>)
    ensures
        sum is Some <==> matching_total(counted@, stack_amounts(stacks@)) <= u32::MAX,
        sum matches Some(s) ==> s == matching_total(counted@, stack_amounts(stacks@)),
{
    let ghost amounts = stack_amounts(stacks@);
    let mut sum: u32 = 0;
    let mut i: usize = 0;
    while i < stacks.len()
        invariant
            i <= stacks@.len(),
            amounts == stack_amounts(stacks@),
            sum == matching_total(counted@, amounts.take(i as int)),
        decreases stacks@.len() - i,
    {
        proof {
            assert(amounts.take(i + 1).drop_last() =~= amounts.take(i as int));
            lemma_matching_grows(counted@, amounts, i + 1);
        }
        if is_counted(counted, stacks[i].kind) {
            match sum.checked_add(amount_of(stacks[i].count)) {
                Some(s) => {
                    sum = s;
                },
                None => {
                    return None;
                },
            }
        }
        i = i + 1;
    }
    assert(amounts.take(i as int) =~= amounts);
    Some(sum)
}

/// How many of the counted items stand in a list of counts.
pub fn count_in_list(counted: &Vec<ItemKind>, slots: &[(ItemKind, u32)]) -> (sum: u32)
    requires
        matching_total(counted@, kind_amounts(slots@)) <= u32::MAX,
    ensures
        sum == matching_total(counted@, kind_amounts(slots@)),
{
    let ghost amounts = kind_amounts(slots@);
    let mut sum: u32 = 0;
    let mut i: usize = 0;
    while i < slots.len()
        invariant
            i <= slots@.len(),
            amounts == kind_amounts(slots@),
            matching_total(counted@, amounts) <= u32::MAX,
            sum == matching_total(counted@, amounts.take(i as int)),
        decreases slots@.len() - i,
    {
        proof {
            assert(amounts.take(i + 1).drop_last() =~= amounts.take(i as int));
            lemma_matching_grows(counted@, amounts, i + 1);
        }
        if is_counted(counted, slots[i].0) {
            sum = sum + slots[i].1;
        }
        i = i + 1;
    }
    assert(amounts.take(i as int) =~= amounts);
    sum
}

/// What one more slot adds: an empty one nothing, and a stack what it holds, but never less than
/// nothing, to the identifier that its name stands for and to no other. It can be added as long as
/// the sum is one that a `u32` holds.
pub proof fn every_slot_counts(
    counts: Map<Seq<char>, u32>,
    slots: Seq<Option<NamedStack>>,
    stack: NamedStack,
    id: Seq<char>,
    other: Seq<char>,
)
    requires
        with_slots(counts, slots) is Some,
        id == if stack.name@.contains(':') {
            stack.name@
        } else {
            "minecraft:"@ + stack.name@
        },
        other != id,
    ensures
        with_slots(counts, Seq::empty()) == Some(counts),
        with_slots(counts, slots.push(None)) == with_slots(counts, slots),
        ({
            let before = with_slots(counts, slots)->0;
            let after = with_slots(counts, slots.push(Some(stack)));
            let more = if stack.count < 0 {
                0
            } else {
                stack.count as int
            };
            &&& after is Some <==> count_in(before, id) + more <= u32::MAX
            &&& after is Some ==> {
                &&& after->0.dom() == before.dom().insert(id)
                &&& count_in(after->0, id) == count_in(before, id) + more
                &&& count_in(after->0, other) == count_in(before, other)
            }
        }),
{
    assert(slots.push(None).drop_last() =~= slots);
    assert(slots.push(Some(stack)).drop_last() =~= slots);
    if let Some(after) = with_slots(counts, slots.push(Some(stack))) {
        assert(after.dom() =~= with_slots(counts, slots)->0.dom().insert(id));
    }
}

/// The count of an identifier is the one that stands beside it in the list, and zero where it does
/// not stand there.
pub proof fn counts_are_looked_up_by_name(entries: Seq<(Seq<char>, u32)>, name: Seq<char>, i: int)
    requires
        distinct_names(entries),
    ensures
        0 <= i < entries.len() && entries[i].0 == name ==> count_in(as_map(entries), name)
            == entries[i].1,
        (forall|j: int| 0 <= j < entries.len() ==> (#[trigger] entries[j]).0 != name) ==> count_in(
            as_map(entries),
            name,
        ) == 0,
{
    if 0 <= i < entries.len() && entries[i].0 == name {
        lemma_map_holds_entry(entries, i);
    }
}

/// What one more item adds to the sum of all counts.
pub proof fn totals_grow_by_each_count(entries: Seq<(Seq<char>, u32)>, name: Seq<char>, count: u32)
    ensures
        total_count(Seq::empty()) == 0,
        total_count(entries.push((name, count))) == total_count(entries) + count,
{
    assert(entries.push((name, count)).drop_last() =~= entries);
}

/// What one more stack, or one more entry of a list, adds to what is counted: all of it where its
/// kind is among those counted, else nothing. A stack holds never less than nothing.
pub proof fn every_stack_counts(
    counted: Seq<ItemKind>,
    stacks: Seq<ItemStack>,
    stack: ItemStack,
    list: Seq<(ItemKind, u32)>,
    kind: ItemKind,
    count: u32,
)
    ensures
        matching_total(counted, stack_amounts(Seq::empty())) == 0,
        matching_total(counted, stack_amounts(stacks.push(stack))) - matching_total(
            counted,
            stack_amounts(stacks),
        ) == if counted.contains(stack.kind) && stack.count >= 0 {
            stack.count as int
        } else {
            0
        },
        matching_total(counted, kind_amounts(Seq::empty())) == 0,
        matching_total(counted, kind_amounts(list.push((kind, count)))) - matching_total(
            counted,
            kind_amounts(list),
        ) == if counted.contains(kind) {
            count as int
        } else {
            0
        },
{
    assert(stack_amounts(stacks.push(stack)).drop_last() =~= stack_amounts(stacks));
    assert(kind_amounts(list.push((kind, count))).drop_last() =~= kind_amounts(list));
}

/// A name without a namespace gets the game's own, a name with one stays as it is, and an identifier
/// is its own identifier.
pub proof fn identifiers_have_a_namespace(name: Seq<char>)
    ensures
        identifier(name).contains(':'),
        name.contains(':') ==> identifier(name) == name,
        !name.contains(':') ==> identifier(name) == "minecraft:"@ + name,
        identifier(identifier(name)) == identifier(name),
{
    reveal_strlit("minecraft:");
    if !name.contains(':') {
        let id = "minecraft:"@ + name;
        assert(id[9] == ':');
    }
}

} // verus!
