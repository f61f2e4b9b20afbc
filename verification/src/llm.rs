//! Asking a language model for a structure: the request, and what is made of the answer.

use crate::counts::{distinct_names, total_count, ItemCounts};
use crate::structure::Structure;
use crate::text::{
    append_decimal, comes_before, decimal, decimal_reads_back, is_digit, strip_suffix_char,
    text_before, text_order_is_total, text_order_is_transitive, without_suffix_char,
};
use vstd::prelude::*;
use vstd::string::*;
use vstd::utf8::{
    decode_utf8, encode_utf8, encode_utf8_decode_utf8, is_ascii_chars, is_ascii_chars_encode_utf8,
    is_char_boundary,
};

verus! {

/// More of an item comes first; among equal counts the name decides.
pub open spec fn ahead(a: (Seq<char>, u32), b: (Seq<char>, u32)) -> bool {
    a.1 > b.1 || (a.1 == b.1 && text_before(a.0, b.0))
}

/// `sample` lists the three items of which there is most, or all where there are fewer, in order.
pub open spec fn is_sample(items: Seq<(Seq<char>, u32)>, sample: Seq<(Seq<char>, u32)>) -> bool {
    &&& sample.len() == if items.len() < 3 {
        items.len() as int
    } else {
        3
    }
    &&& forall|k: int| 0 <= k < sample.len() ==> #[trigger] items.contains(sample[k])
    &&& forall|k: int, l: int|
        0 <= k < l < sample.len() ==> ahead(#[trigger] sample[k], #[trigger] sample[l])
    &&& forall|i: int, k: int|
        0 <= i < items.len() && 0 <= k < sample.len() ==> sample.contains(#[trigger] items[i])
            || ahead(#[trigger] sample[k], items[i])
}

/// The three items of which there is most, or all where there are fewer, in order.
pub open spec fn sample_of(items: Seq<(Seq<char>, u32)>) -> Seq<(Seq<char>, u32)> {
    choose|sample: Seq<(Seq<char>, u32)>| is_sample(items, sample)
}

/// No item comes both before and after another.
proof fn lemma_ahead_is_one_way(a: (Seq<char>, u32), b: (Seq<char>, u32))
    requires
        ahead(a, b),
    ensures
        !ahead(b, a),
        a != b,
{
    text_order_is_total(a.0, b.0);
}

/// There is only one sample.
pub proof fn sample_is_unique(
    items: Seq<(Seq<char>, u32)>,
    a: Seq<(Seq<char>, u32)>,
    b: Seq<(Seq<char>, u32)>,
)
    requires
        is_sample(items, a),
        is_sample(items, b),
    ensures
        a == b,
{
    lemma_same_sample(items, a, b, a.len() as int);
    assert(a =~= b);
}

/// The items of an inventory, whose names differ, have a sample.
pub proof fn sample_exists(items: Seq<(Seq<char>, u32)>)
    requires
        distinct_names(items),
    ensures
        is_sample(items, sample_of(items)),
{
    let sample = lemma_some_sample(items);
    assert(is_sample(items, sample));
}

/// A sample, which holds all items where they are three or fewer.
proof fn lemma_some_sample(items: Seq<(Seq<char>, u32)>) -> (sample: Seq<(Seq<char>, u32)>)
    requires
        distinct_names(items),
    ensures
        is_sample(items, sample),
        items.len() <= 3 ==> forall|i: int|
            0 <= i < items.len() ==> sample.contains(#[trigger] items[i]),
    decreases items.len(),
{
    if items.len() == 0 {
        Seq::empty()
    } else {
        let fewer = items.drop_last();
        let x = items.last();
        assert forall|i: int, j: int| 0 <= i < j < fewer.len() implies (#[trigger] fewer[i]).0
            != (#[trigger] fewer[j]).0 by {
            assert(items[i].0 != items[j].0);
        }
        let s = lemma_some_sample(fewer);
        assert forall|k: int| 0 <= k < s.len() implies items.contains(#[trigger] s[k])
            && s[k].0 != x.0 by {
            assert(fewer.contains(s[k]));
            let i = choose|i: int| 0 <= i < fewer.len() && fewer[i] == s[k];
            assert(items[i] == s[k]);
            assert(items[i].0 != items[items.len() - 1].0);
        }
        let p = lemma_place_in(s, x, s.len() as int);
        let longer = s.insert(p, x);
        assert forall|k: int, l: int| 0 <= k < l < longer.len() implies ahead(
            #[trigger] longer[k],
            #[trigger] longer[l],
        ) by {
            if k == p {
                assert(longer[l] == s[l - 1]);
                if l - 1 > p {
                    lemma_ahead_is_transitive(x, s[p], s[l - 1]);
                }
            }
        }
        let n = if items.len() < 3 {
            items.len() as int
        } else {
            3
        };
        let sample = longer.take(n);
        assert(longer.len() <= n || (longer.len() == 4 && s.len() == 3));
        assert forall|k: int| 0 <= k < sample.len() implies #[trigger] items.contains(
            sample[k],
        ) by {
            if k == p {
                assert(items[items.len() - 1] == x);
            } else if k < p {
                assert(items.contains(s[k]));
            } else {
                assert(items.contains(s[k - 1]));
            }
        }
        assert forall|i: int, k: int|
            0 <= i < items.len() && 0 <= k < sample.len() implies sample.contains(
            #[trigger] items[i],
        ) || ahead(#[trigger] sample[k], items[i]) by {
            lemma_taken_or_behind(items, fewer, s, p, longer, sample, i, k);
        }
        if items.len() <= 3 {
            assert forall|i: int| 0 <= i < items.len() implies sample.contains(
                #[trigger] items[i],
            ) by {
                assert(sample =~= longer);
                if i == items.len() - 1 {
                    assert(longer[p] == items[i]);
                } else {
                    assert(s.contains(fewer[i]));
                    lemma_still_there(s, p, x, fewer[i]);
                }
            }
        }
        sample
    }
}

/// The place of an item in a list that is in order: the items before it come first, and it comes
/// before the others.
proof fn lemma_place_in(s: Seq<(Seq<char>, u32)>, x: (Seq<char>, u32), n: int) -> (p: int)
    requires
        0 <= n <= s.len(),
        forall|k: int| 0 <= k < s.len() ==> (#[trigger] s[k]).0 != x.0,
        forall|k: int, l: int|
            0 <= k < l < s.len() ==> ahead(#[trigger] s[k], #[trigger] s[l]),
    ensures
        0 <= p <= n,
        forall|k: int| 0 <= k < p ==> ahead(#[trigger] s[k], x),
        p < n ==> ahead(x, s[p]),
    decreases n,
{
    if n == 0 {
        0
    } else {
        let p = lemma_place_in(s, x, n - 1);
        text_order_is_total(s[n - 1].0, x.0);
        if p < n - 1 || ahead(x, s[n - 1]) {
            p
        } else {
            n
        }
    }
}

/// What a list holds, it still holds after something was put in.
proof fn lemma_still_there(
    s: Seq<(Seq<char>, u32)>,
    p: int,
    x: (Seq<char>, u32),
    item: (Seq<char>, u32),
)
    requires
        0 <= p <= s.len(),
        s.contains(item),
    ensures
        s.insert(p, x).contains(item),
{
    let j = choose|j: int| 0 <= j < s.len() && s[j] == item;
    if j < p {
        assert(s.insert(p, x)[j] == item);
    } else {
        assert(s.insert(p, x)[j + 1] == item);
    }
}

/// With one more item put in its place, every item is in the sample or comes after all of it.
proof fn lemma_taken_or_behind(
    items: Seq<(Seq<char>, u32)>,
    fewer: Seq<(Seq<char>, u32)>,
    s: Seq<(Seq<char>, u32)>,
    p: int,
    longer: Seq<(Seq<char>, u32)>,
    sample: Seq<(Seq<char>, u32)>,
    i: int,
    k: int,
)
    requires
        items.len() > 0,
        fewer == items.drop_last(),
        is_sample(fewer, s),
        fewer.len() <= 3 ==> forall|j: int|
            0 <= j < fewer.len() ==> s.contains(#[trigger] fewer[j]),
        0 <= p <= s.len(),
        p < s.len() ==> ahead(items.last(), s[p]),
        longer == s.insert(p, items.last()),
        forall|a: int, b: int|
            0 <= a < b < longer.len() ==> ahead(#[trigger] longer[a], #[trigger] longer[b]),
        sample == longer.take(
            if items.len() < 3 {
                items.len() as int
            } else {
                3
            },
        ),
        0 <= i < items.len(),
        0 <= k < sample.len(),
    ensures
        sample.contains(items[i]) || ahead(sample[k], items[i]),
{
    let x = items.last();
    let item = items[i];
    if i == items.len() - 1 {
        assert(longer[p] == item);
        if p < sample.len() {
            assert(sample[p] == item);
        } else {
            assert(ahead(longer[k], longer[p]));
        }
    } else {
        assert(fewer[i] == item);
        if s.contains(item) {
            lemma_still_there(s, p, x, item);
            let j = choose|j: int| 0 <= j < longer.len() && longer[j] == item;
            if j < sample.len() {
                assert(sample[j] == item);
            } else {
                assert(ahead(longer[k], longer[j]));
            }
        } else if k == p {
            assert(s.contains(fewer[i]) || ahead(s[p], fewer[i]));
            lemma_ahead_is_transitive(x, s[p], item);
        } else if k < p {
            assert(s.contains(fewer[i]) || ahead(s[k], fewer[i]));
        } else {
            assert(s.contains(fewer[i]) || ahead(s[k - 1], fewer[i]));
        }
    }
}

proof fn lemma_same_sample(
    items: Seq<(Seq<char>, u32)>,
    a: Seq<(Seq<char>, u32)>,
    b: Seq<(Seq<char>, u32)>,
    n: int,
)
    requires
        is_sample(items, a),
        is_sample(items, b),
        0 <= n <= a.len(),
    ensures
        forall|k: int| 0 <= k < n ==> a[k] == b[k],
    decreases n,
{
    if n > 0 {
        lemma_same_sample(items, a, b, n - 1);
        if a[n - 1] != b[n - 1] {
            lemma_not_behind(items, a, b, n - 1);
            lemma_not_behind(items, b, a, n - 1);
            lemma_ahead_is_one_way(a[n - 1], b[n - 1]);
        }
    }
}

/// Where two samples first differ, the entry of one comes before that of the other.
proof fn lemma_not_behind(
    items: Seq<(Seq<char>, u32)>,
    a: Seq<(Seq<char>, u32)>,
    b: Seq<(Seq<char>, u32)>,
    k: int,
)
    requires
        is_sample(items, a),
        is_sample(items, b),
        0 <= k < a.len(),
        forall|j: int| 0 <= j < k ==> a[j] == b[j],
        a[k] != b[k],
    ensures
        ahead(a[k], b[k]),
{
    assert(items.contains(b[k]));
    let i = choose|i: int| 0 <= i < items.len() && items[i] == b[k];
    let _ = a[k];
    assert(a.contains(items[i]) || ahead(a[k], items[i]));
    if a.contains(b[k]) {
        let m = choose|m: int| 0 <= m < a.len() && a[m] == b[k];
        if m < k {
            assert(ahead(b[m], b[k]));
            lemma_ahead_is_one_way(b[m], b[k]);
        } else {
            assert(ahead(a[k], a[m]));
        }
    }
}

/// An item and its count.
pub open spec fn item_text(item: (Seq<char>, u32)) -> Seq<char> {
    item.0 + "="@ + decimal(item.1 as int)
}

/// Items and their counts, with commas between.
pub open spec fn sample_text(sample: Seq<(Seq<char>, u32)>) -> Seq<char>
    decreases sample.len(),
{
    if sample.len() == 0 {
        Seq::empty()
    } else if sample.len() == 1 {
        item_text(sample[0])
    } else {
        sample_text(sample.drop_last()) + ", "@ + item_text(sample.last())
    }
}

/// What is said of an inventory: how many items of how many kinds, and of which there is most.
pub open spec fn summary_text(items: Seq<(Seq<char>, u32)>) -> Seq<char> {
    let counts = decimal(items.len() as int) + " item types, "@ + decimal(total_count(items))
        + " total blocks"@;
    if items.len() == 0 {
        counts
    } else {
        counts + " ["@ + sample_text(sample_of(items)) + "]"@
    }
}

/// Whether the entry at `a` comes before the entry at `b`.
fn entry_ahead(inventory: &ItemCounts, a: usize, b: usize) -> (r: bool)
    requires
        a < inventory.items().len(),
        b < inventory.items().len(),
    ensures
        r == ahead(inventory.items()[a as int], inventory.items()[b as int]),
{
    let x: u32 = inventory.count_at(a);
    let y: u32 = inventory.count_at(b);
    x > y || (x == y && comes_before(inventory.name_at(a).as_str(), inventory.name_at(b).as_str()))
}

/// Whether a place is among those picked.
fn is_picked(picked: &Vec<usize>, i: usize) -> (r: bool)
    ensures
        r == picked@.contains(i),
{
    let mut k: usize = 0;
    while k < picked.len()
        invariant
            k <= picked@.len(),
            forall|j: int| 0 <= j < k ==> picked@[j] != i,
        decreases picked@.len() - k,
    {
        if picked[k] == i {
            assert(picked@[k as int] == i);
            return true;
        }
        k = k + 1;
    }
    false
}

/// `picked` holds places in order, and every other place comes after them.
spec fn is_picked_first(items: Seq<(Seq<char>, u32)>, picked: Seq<usize>) -> bool {
    &&& forall|k: int| 0 <= k < picked.len() ==> (#[trigger] picked[k]) < items.len()
    &&& forall|k: int, l: int|
        0 <= k < l < picked.len() ==> ahead(
            items[#[trigger] picked[k] as int],
            items[#[trigger] picked[l] as int],
        )
    &&& forall|i: usize, k: int|
        i < items.len() && 0 <= k < picked.len() && !#[trigger] picked.contains(i) ==> ahead(
            items[#[trigger] picked[k] as int],
            items[i as int],
        )
}

/// Picks the first of the places that are not picked yet.
fn pick_next(inventory: &ItemCounts, picked: &Vec<usize>) -> (next: Option<usize>)
    requires
        distinct_names(inventory.items()),
    ensures
        next is None ==> forall|i: usize|
            i < inventory.items().len() ==> #[trigger] picked@.contains(i),
        next matches Some(b) ==> b < inventory.items().len() && !picked@.contains(b) && forall|
            i: usize,
        |
            i < inventory.items().len() && !#[trigger] picked@.contains(i) && i != b ==> ahead(
                inventory.items()[b as int],
                inventory.items()[i as int],
            ),
{
    let ghost items = inventory.items();
    let mut best: Option<usize> = None;
    let n: usize = inventory.len();
    let mut i: usize = 0;
    while i < n
        invariant
            i <= n,
            n == items.len(),
            items == inventory.items(),
            distinct_names(items),
            best is None ==> forall|j: usize| j < i ==> #[trigger] picked@.contains(j),
            best matches Some(b) ==> b < i && !picked@.contains(b) && forall|j: usize|
                j < i && !#[trigger] picked@.contains(j) && j != b ==> ahead(
                    items[b as int],
                    items[j as int],
                ),
        decreases n - i,
    {
        if !is_picked(picked, i) {
            match best {
                None => {
                    best = Some(i);
                },
                Some(b) => {
                    let better: bool = entry_ahead(inventory, i, b);
                    proof {
                        assert(items[b as int].0 != items[i as int].0);
                        text_order_is_total(items[b as int].0, items[i as int].0);
                        assert(!better ==> ahead(items[b as int], items[i as int]));
                        if better {
                            assert forall|j: usize| j < i && !#[trigger] picked@.contains(j) && j
                                != i implies ahead(items[i as int], items[j as int]) by {
                                if j != b {
                                    lemma_ahead_is_transitive(
                                        items[i as int],
                                        items[b as int],
                                        items[j as int],
                                    );
                                }
                            }
                        }
                    }
                    if better {
                        best = Some(i);
                    }
                },
            }
        }
        i = i + 1;
    }
    best
}

proof fn lemma_ahead_is_transitive(
    a: (Seq<char>, u32),
    b: (Seq<char>, u32),
    c: (Seq<char>, u32),
)
    requires
        ahead(a, b),
        ahead(b, c),
    ensures
        ahead(a, c),
{
    if a.1 == b.1 && b.1 == c.1 {
        text_order_is_transitive(a.0, b.0, c.0);
    }
}

/// The items at the places picked.
spec fn items_at(items: Seq<(Seq<char>, u32)>, picked: Seq<usize>) -> Seq<(Seq<char>, u32)> {
    Seq::new(picked.len(), |k: int| items[picked[k] as int])
}

/// The places that come first, three of them or all where there are fewer.
fn pick_sample(inventory: &ItemCounts) -> (picked: Vec<usize>)
    requires
        distinct_names(inventory.items()),
    ensures
        forall|k: int|
            0 <= k < picked@.len() ==> (#[trigger] picked@[k]) < inventory.items().len(),
        is_sample(inventory.items(), items_at(inventory.items(), picked@)),
{
    let ghost items = inventory.items();
    let mut picked: Vec<usize> = Vec::new();
    let wanted: usize = if inventory.len() < 3 {
        inventory.len()
    } else {
        3
    };
    while picked.len() < wanted
        invariant
            items == inventory.items(),
            distinct_names(items),
            wanted == if items.len() < 3 {
                items.len() as int
            } else {
                3
            },
            items.len() <= usize::MAX,
            picked@.len() <= wanted,
            is_picked_first(items, picked@),
        decreases wanted - picked@.len(),
    {
        let ghost before = picked@;
        match pick_next(inventory, &picked) {
            Some(b) => {
                picked.push(b);
                proof {
                    lemma_pick_extends(items, before, b);
                }
            },
            None => {
                proof {
                    lemma_not_all_picked(items, before);
                }
            },
        }
    }
    proof {
        let sample = items_at(items, picked@);
        assert forall|k: int| 0 <= k < sample.len() implies #[trigger] items.contains(
            sample[k],
        ) by {
            assert(items[picked@[k] as int] == sample[k]);
        }
        assert forall|i: int, k: int|
            0 <= i < items.len() && 0 <= k < sample.len() implies sample.contains(
            #[trigger] items[i],
        ) || ahead(#[trigger] sample[k], items[i]) by {
            if picked@.contains(i as usize) {
                let m = choose|m: int| 0 <= m < picked@.len() && picked@[m] == i as usize;
                assert(sample[m] == items[i]);
            } else {
                let _ = picked@[k];
            }
        }
    }
    picked
}

/// Picking the first of the rest keeps the picked places first.
proof fn lemma_pick_extends(items: Seq<(Seq<char>, u32)>, picked: Seq<usize>, b: usize)
    requires
        is_picked_first(items, picked),
        b < items.len(),
        !picked.contains(b),
        forall|i: usize|
            i < items.len() && !#[trigger] picked.contains(i) && i != b ==> ahead(
                items[b as int],
                items[i as int],
            ),
    ensures
        is_picked_first(items, picked.push(b)),
{
    let longer = picked.push(b);
    assert forall|k: int, l: int| 0 <= k < l < longer.len() implies ahead(
        items[#[trigger] longer[k] as int],
        items[#[trigger] longer[l] as int],
    ) by {
        let _ = picked[k];
        if l < picked.len() {
            let _ = picked[l];
        }
    }
    assert forall|i: usize, k: int|
        i < items.len() && 0 <= k < longer.len() && !#[trigger] longer.contains(i) implies ahead(
        items[#[trigger] longer[k] as int],
        items[i as int],
    ) by {
        assert(!picked.contains(i)) by {
            if picked.contains(i) {
                let m = choose|m: int| 0 <= m < picked.len() && picked[m] == i;
                assert(longer[m] == i);
            }
        }
        assert(i != b) by {
            assert(longer[picked.len() as int] == b);
        }
        if k < picked.len() {
            let _ = picked[k];
        }
    }
}

/// Fewer places than there are cannot be all of them.
proof fn lemma_not_all_picked(items: Seq<(Seq<char>, u32)>, picked: Seq<usize>)
    requires
        picked.len() < items.len() <= usize::MAX,
    ensures
        !(forall|i: usize| i < items.len() ==> #[trigger] picked.contains(i)),
{
    if forall|i: usize| i < items.len() ==> #[trigger] picked.contains(i) {
        let places = Set::new(|i: usize| i < items.len());
        crate::order::lemma_range_len(0, items.len() as usize);
        assert(places =~= Set::new(|i: usize| 0 <= i < items.len() as usize));
        assert(places.subset_of(picked.to_set()));
        picked.lemma_cardinality_of_set();
        vstd::set_lib::lemma_len_subset(places, picked.to_set());
    }
}

/// What is said of an inventory.
pub fn inventory_summary(inventory: &ItemCounts) -> (summary: String)
    requires
        total_count(inventory.items()) <= u32::MAX,
    ensures
        summary@ == summary_text(inventory.items()),
{
    let ghost items = inventory.items();
    let mut summary = String::new();
    append_decimal(&mut summary, inventory.len() as u64);
    summary.append(" item types, ");
    let total: u32 = match inventory.total() {
        Some(total) => total,
        None => 0,
    };
    append_decimal(&mut summary, total as u64);
    summary.append(" total blocks");
    let ghost counts = decimal(items.len() as int) + " item types, "@ + decimal(total_count(items))
        + " total blocks"@;
    assert(summary@ =~= counts);
    if inventory.is_empty() {
        return summary;
    }
    let picked = pick_sample(inventory);
    let ghost sample = items_at(items, picked@);
    proof {
        assert(is_sample(items, sample_of(items)));
        sample_is_unique(items, sample, sample_of(items));
    }
    summary.append(" [");
    let ghost opened = summary@;
    let mut k: usize = 0;
    assert(sample.take(0) =~= Seq::<(Seq<char>, u32)>::empty());
    while k < picked.len()
        invariant
            k <= picked@.len(),
            items == inventory.items(),
            sample == items_at(items, picked@),
            forall|k: int| 0 <= k < picked@.len() ==> (#[trigger] picked@[k]) < items.len(),
            summary@ == opened + sample_text(sample.take(k as int)),
        decreases picked@.len() - k,
    {
        assert(sample.take(k + 1).drop_last() =~= sample.take(k as int));
        assert(sample.take(k + 1).last() == sample[k as int]);
        let ghost before = summary@;
        if k > 0 {
            summary.append(", ");
        }
        summary.append(inventory.name_at(picked[k]).as_str());
        summary.append("=");
        append_decimal(&mut summary, inventory.count_at(picked[k]) as u64);
        proof {
            assert(summary@ =~= opened + sample_text(sample.take(k + 1)));
        }
        k = k + 1;
    }
    assert(sample.take(k as int) =~= sample);
    summary.append("]");
    assert(summary@ =~= counts + " ["@ + sample_text(sample) + "]"@);
    summary
}

/// The text that the first `n` bytes of a text stand for.
pub open spec fn first_bytes(text: Seq<char>, n: int) -> Seq<char> {
    decode_utf8(encode_utf8(text).subrange(0, n))
}

/// The first bytes of plain ASCII text are its first characters.
pub proof fn first_bytes_of_ascii(text: Seq<char>, n: int)
    requires
        is_ascii_chars(text),
        0 <= n <= text.len(),
    ensures
        first_bytes(text, n) == text.take(n),
{
    let head = text.take(n);
    is_ascii_chars_encode_utf8(text);
    is_ascii_chars_encode_utf8(head);
    assert(encode_utf8(head) =~= encode_utf8(text).subrange(0, n)) by {
        assert forall|i: int| 0 <= i < n implies encode_utf8(head)[i] == encode_utf8(text)[i] by {
            assert(head[i] == text[i]);
        }
    }
    encode_utf8_decode_utf8(head);
}

/// A text, or what its first bytes stand for and three dots where it is longer than `max_len`
/// bytes. A text that is cut must not be cut within a character.
pub fn content_preview(content: &str, max_len: usize) -> (preview: String)
    requires
        content.spec_bytes().len() > max_len ==> is_char_boundary(
            content.spec_bytes(),
            max_len as int,
        ),
    ensures
        preview@ == if content.spec_bytes().len() <= max_len {
            content@
        } else {
            first_bytes(content@, max_len as int) + "..."@
        },
{
    let bytes = content.as_bytes();
    if bytes.len() <= max_len {
        return content.to_owned();
    }
    let (head, _) = content.split_at(max_len);
    proof {
        encode_utf8_decode_utf8(head@);
    }
    head.to_owned().concat("...")
}

/// Where to ask, with which key, and which model.
#[derive(Clone, Debug)]
pub struct LlmConfig {
    pub base_url: String,
    pub api_key: String,
    pub model: String,
}

/// The configuration from the settings; without one of them, the name of the first that is
/// missing.
pub fn llm_config(
    base_url: Option<String>,
    api_key: Option<String>,
    model: Option<String>,
) -> (config: Result<LlmConfig, String>)
    ensures
        match config {
            Ok(c) => base_url == Some(c.base_url) && api_key == Some(c.api_key) && model == Some(
                c.model,
            ),
            Err(message) => message@ == if base_url is None {
                "OPENROUTER_BASE_URL not set"@
            } else if api_key is None {
                "OPENROUTER_API_KEY not set"@
            } else {
                "OPENROUTER_MODEL not set"@
            },
        },
        config is Ok <==> base_url is Some && api_key is Some && model is Some,
{
    match (base_url, api_key, model) {
        (Some(base_url), Some(api_key), Some(model)) => Ok(LlmConfig { base_url, api_key, model }),
        (None, _, _) => Err("OPENROUTER_BASE_URL not set".to_owned()),
        (_, None, _) => Err("OPENROUTER_API_KEY not set".to_owned()),
        _ => Err("OPENROUTER_MODEL not set".to_owned()),
    }
}

/// One message of a conversation.
#[derive(Clone, Debug)]
pub struct ChatMessage {
    pub role: &'static str,
    pub content: String,
}

/// The form in which an answer is wanted.
#[derive(Clone, Copy, Debug)]
pub struct ResponseFormat {
    pub kind: &'static str,
}

/// A request for the next message of a conversation.
#[derive(Clone, Debug)]
pub struct ChatRequest {
    pub model: String,
    pub messages: Vec<ChatMessage>,
    pub response_format: ResponseFormat,
}

/// What the model is told of its task.
pub open spec fn system_prompt() -> Seq<char> {
    "You are a Minecraft structure generator. Given a description and available inventory, output a JSON object describing a voxel structure centered at the origin. x/y/z are integer offsets from origin; y=0 is ground level. Use Minecraft namespaced block IDs (e.g. \"minecraft:dirt\"). Prefer blocks from the provided inventory but you may also use other common minable blocks (stone, wood, dirt, gravel, cobblestone) if needed for a coherent structure. Keep structures small (under 10x10x10). Output ONLY the JSON object — no markdown fences, no explanation."@
}

/// One line on an item.
pub open spec fn item_line(item: (Seq<char>, u32)) -> Seq<char> {
    "  "@ + item.0 + ": "@ + decimal(item.1 as int)
}

/// A line on each item.
pub open spec fn item_lines(items: Seq<(Seq<char>, u32)>) -> Seq<char>
    decreases items.len(),
{
    if items.len() == 0 {
        Seq::empty()
    } else if items.len() == 1 {
        item_line(items[0])
    } else {
        item_lines(items.drop_last()) + "\n"@ + item_line(items.last())
    }
}

/// What the model is asked for.
pub open spec fn user_prompt(description: Seq<char>, items: Seq<(Seq<char>, u32)>) -> Seq<char> {
    "Description: "@ + description + "\nAvailable inventory:\n"@ + if items.len() == 0 {
        "  (empty)"@
    } else {
        item_lines(items)
    }
}

/// What the model is asked for.
fn ask_for(description: &str, inventory: &ItemCounts) -> (prompt: String)
    ensures
        prompt@ == user_prompt(description@, inventory.items()),
{
    let ghost items = inventory.items();
    let mut prompt = "Description: ".to_owned();
    prompt.append(description);
    prompt.append("\nAvailable inventory:\n");
    if inventory.is_empty() {
        prompt.append("  (empty)");
        return prompt;
    }
    let ghost opened = prompt@;
    let n: usize = inventory.len();
    let mut i: usize = 0;
    while i < n
        invariant
            i <= n,
            n == items.len(),
            items == inventory.items(),
            prompt@ == opened + item_lines(items.take(i as int)),
        decreases n - i,
    {
        assert(items.take(i + 1).drop_last() =~= items.take(i as int));
        assert(items.take(i + 1).last() == items[i as int]);
        if i > 0 {
            prompt.append("\n");
        }
        prompt.append("  ");
        prompt.append(inventory.name_at(i).as_str());
        prompt.append(": ");
        append_decimal(&mut prompt, inventory.count_at(i) as u64);
        assert(prompt@ =~= opened + item_lines(items.take(i + 1)));
        i = i + 1;
    }
    assert(items.take(i as int) =~= items);
    prompt
}

/// The request for a structure: the task, then the description with what there is to build from,
/// to be answered with a JSON object.
pub fn structure_request(model: String, description: &str, inventory: &ItemCounts) -> (request:
    ChatRequest)
    ensures
        request.model == model,
        request.messages@.len() == 2,
        request.messages@[0].role@ == "system"@,
        request.messages@[0].content@ == system_prompt(),
        request.messages@[1].role@ == "user"@,
        request.messages@[1].content@ == user_prompt(description@, inventory.items()),
        request.response_format.kind@ == "json_object"@,
{
    let system = "You are a Minecraft structure generator. Given a description and available inventory, output a JSON object describing a voxel structure centered at the origin. x/y/z are integer offsets from origin; y=0 is ground level. Use Minecraft namespaced block IDs (e.g. \"minecraft:dirt\"). Prefer blocks from the provided inventory but you may also use other common minable blocks (stone, wood, dirt, gravel, cobblestone) if needed for a coherent structure. Keep structures small (under 10x10x10). Output ONLY the JSON object — no markdown fences, no explanation.";
    let mut messages: Vec<ChatMessage> = Vec::new();
    messages.push(ChatMessage { role: "system", content: system.to_owned() });
    messages.push(ChatMessage { role: "user", content: ask_for(description, inventory) });
    ChatRequest { model, messages, response_format: ResponseFormat { kind: "json_object" } }
}

/// Where to send a request: below the base address, which may end in slashes.
pub fn completions_url(base_url: &str) -> (url: String)
    ensures
        url@ == without_suffix_char(base_url@, '/') + "/chat/completions"@,
{
    strip_suffix_char(base_url, '/').to_owned().concat("/chat/completions")
}

/// The text of an HTTP status, such as `404 Not Found`.
pub uninterp spec fn status_text(code: u16) -> Seq<char>;

/// The text of an HTTP status: what `reqwest::StatusCode` shows of itself. The text is a function
/// of the code, and begins with the code and a space; nothing else is claimed of it.
#[verifier::external_body]
fn show_status(code: u16) -> (text: String)
    requires
        100 <= code <= 999,
    ensures
        text@ == status_text(code),
        (decimal(code as int) + " "@).is_prefix_of(text@),
{
    reqwest::StatusCode::from_u16(code).unwrap().to_string()
}

/// Whether an HTTP status tells of success: what `reqwest::StatusCode::is_success` says, which is
/// so from 200 to 299.
#[verifier::external_body]
fn status_is_success(code: u16) -> (r: bool)
    requires
        100 <= code <= 999,
    ensures
        r == (200 <= code <= 299),
{
    reqwest::StatusCode::from_u16(code).unwrap().is_success()
}

/// What became of a request. Errors are given by what they say of themselves.
#[derive(Debug)]
pub enum LlmReply {
    /// It could not be sent.
    NotSent(String),
    /// It was answered with a status, from 100 to 999, other than one of success, and this body.
    Refused { status: u16, body: String },
    /// It was answered with success, but the answer could not be read.
    Unreadable(String),
    /// It was answered with these choices.
    Choices(Vec<String>),
}

/// Whether an answer's status tells of success. Only then is there more to read than a text.
pub fn is_accepted(status: u16) -> (r: bool)
    requires
        100 <= status <= 999,
    ensures
        r == (200 <= status <= 299),
{
    status_is_success(status)
}

/// What is said of a refusal, with the text of its status.
pub open spec fn refusal_message(status: Seq<char>, body: Seq<char>) -> Seq<char> {
    "HTTP "@ + status + ": "@ + body
}

/// What is said of a refusal, with the text of its status.
pub fn describe_refusal(status: &str, body: &str) -> (message: String)
    ensures
        message@ == refusal_message(status@, body@),
{
    "HTTP ".to_owned().concat(status).concat(": ").concat(body)
}

/// What is said of a request that brought no content.
pub open spec fn reply_error(reply: LlmReply) -> Option<Seq<char>> {
    match reply {
        LlmReply::NotSent(error) => Some("request failed: "@ + error@),
        LlmReply::Refused { status, body } => Some(refusal_message(status_text(status), body@)),
        LlmReply::Unreadable(error) => Some("failed to parse API response: "@ + error@),
        LlmReply::Choices(choices) => if choices@.len() == 0 {
            Some("no choices in LLM response"@)
        } else {
            None
        },
    }
}

/// The content of the first choice, or what is said of a request that brought none.
pub fn reply_content(reply: LlmReply) -> (content: Result<String, String>)
    requires
        reply matches LlmReply::Refused { status, .. } ==> 100 <= status <= 999,
    ensures
        match content {
            Ok(text) => reply matches LlmReply::Choices(choices) && choices@.len() > 0 && text
                == choices@[0],
            Err(message) => reply_error(reply) == Some(message@),
        },
        content is Ok <==> reply_error(reply) is None,
{
    match reply {
        LlmReply::NotSent(error) => Err("request failed: ".to_owned().concat(error.as_str())),
        LlmReply::Refused { status, body } => Err(
            describe_refusal(show_status(status).as_str(), body.as_str()),
        ),
        LlmReply::Unreadable(error) => Err(
            "failed to parse API response: ".to_owned().concat(error.as_str()),
        ),
        LlmReply::Choices(choices) => {
            if choices.len() == 0 {
                Err("no choices in LLM response".to_owned())
            } else {
                Ok(choices[0].clone())
            }
        },
    }
}

/// The structure that a content was read as, or what is said where it could not be read.
pub fn read_structure(parsed: Result<Structure, String>, content: &str) -> (structure: Result<
    Structure,
    String,
>)
    ensures
        match parsed {
            Ok(s) => structure == Ok::<Structure, String>(s),
            Err(error) => structure matches Err(message) && message@
                == "failed to parse structure JSON: "@ + error@ + "\nContent: "@ + content@,
        },
{
    match parsed {
        Ok(s) => Ok(s),
        Err(error) => Err(
            "failed to parse structure JSON: ".to_owned().concat(error.as_str()).concat(
                "\nContent: ",
            ).concat(content),
        ),
    }
}

/// The lines on two lists of items, one after the other, are those on the first and those on the
/// second, with a line break between them.
proof fn lemma_lines_join(a: Seq<(Seq<char>, u32)>, b: Seq<(Seq<char>, u32)>)
    requires
        a.len() > 0,
        b.len() > 0,
    ensures
        item_lines(a + b) == item_lines(a) + "\n"@ + item_lines(b),
    decreases b.len(),
{
    assert((a + b).drop_last() =~= a + b.drop_last());
    if b.len() == 1 {
        assert(a + b.drop_last() =~= a);
    } else {
        lemma_lines_join(a, b.drop_last());
        assert(item_lines(a + b) =~= item_lines(a) + "\n"@ + item_lines(b));
    }
}

/// The model is told of every item: the message ends with the lines on the items, and the line on
/// any of them, made of two spaces, its identifier, a colon, a space and its count in decimal,
/// stands in it as a line of its own, after the lines on the items before it and before those on
/// the items after it.
pub proof fn every_item_has_its_line(
    description: Seq<char>,
    items: Seq<(Seq<char>, u32)>,
    i: int,
)
    requires
        0 <= i < items.len(),
    ensures
        user_prompt(description, items) == "Description: "@ + description
            + "\nAvailable inventory:\n"@ + item_lines(items),
        item_lines(items) == (if i == 0 {
            Seq::<char>::empty()
        } else {
            item_lines(items.take(i)) + "\n"@
        }) + ("  "@ + items[i].0 + ": "@ + decimal(items[i].1 as int)) + (if i == items.len() - 1 {
            Seq::<char>::empty()
        } else {
            "\n"@ + item_lines(items.skip(i + 1))
        }),
{
    let before = items.take(i);
    let one = seq![items[i]];
    let after = items.skip(i + 1);
    let line = "  "@ + items[i].0 + ": "@ + decimal(items[i].1 as int);
    assert(item_lines(one) =~= line);
    assert(before + one + after =~= items);
    if i > 0 {
        lemma_lines_join(before, one);
    } else {
        assert(before + one =~= one);
    }
    if after.len() > 0 {
        lemma_lines_join(before + one, after);
    } else {
        assert(before + one =~= items);
    }
    assert(item_lines(items) =~= (if i == 0 {
        Seq::<char>::empty()
    } else {
        item_lines(before) + "\n"@
    }) + line + (if i == items.len() - 1 {
        Seq::<char>::empty()
    } else {
        "\n"@ + item_lines(after)
    }));
}

/// How many line breaks a text has.
pub open spec fn line_breaks(text: Seq<char>) -> int
    decreases text.len(),
{
    if text.len() == 0 {
        0
    } else {
        line_breaks(text.drop_last()) + if text.last() == '\n' {
            1int
        } else {
            0
        }
    }
}

proof fn lemma_breaks_add_up(a: Seq<char>, b: Seq<char>)
    ensures
        line_breaks(a + b) == line_breaks(a) + line_breaks(b),
    decreases b.len(),
{
    if b.len() == 0 {
        assert(a + b =~= a);
    } else {
        assert((a + b).drop_last() =~= a + b.drop_last());
        lemma_breaks_add_up(a, b.drop_last());
    }
}

proof fn lemma_no_breaks(text: Seq<char>)
    requires
        !text.contains('\n'),
    ensures
        line_breaks(text) == 0,
    decreases text.len(),
{
    if text.len() > 0 {
        assert(text[text.len() - 1] == text.last());
        assert forall|i: int| 0 <= i < text.drop_last().len() implies text.drop_last()[i]
            != '\n' by {
            assert(text[i] != '\n');
        }
        lemma_no_breaks(text.drop_last());
    }
}

/// There are as many lines as items, where no identifier holds a line break: one more than there
/// are line breaks.
pub proof fn there_is_one_line_for_each_item(items: Seq<(Seq<char>, u32)>)
    requires
        items.len() > 0,
        forall|i: int| 0 <= i < items.len() ==> !(#[trigger] items[i]).0.contains('\n'),
    ensures
        line_breaks(item_lines(items)) + 1 == items.len(),
    decreases items.len(),
{
    reveal_strlit("  ");
    reveal_strlit(": ");
    reveal_strlit("\n");
    let item = items.last();
    let number = decimal(item.1 as int);
    decimal_reads_back(item.1 as int);
    assert(!number.contains('\n')) by {
        assert forall|i: int| 0 <= i < number.len() implies number[i] != '\n' by {
            assert(is_digit(number[i]));
        }
    }
    assert(items[items.len() - 1] == item);
    lemma_no_breaks("  "@);
    lemma_no_breaks(item.0);
    lemma_no_breaks(": "@);
    lemma_no_breaks(number);
    lemma_breaks_add_up("  "@, item.0);
    lemma_breaks_add_up("  "@ + item.0, ": "@);
    lemma_breaks_add_up("  "@ + item.0 + ": "@, number);
    if items.len() == 1 {
        assert(item_lines(items) =~= item_line(item));
    } else {
        let front = items.drop_last();
        assert forall|i: int| 0 <= i < front.len() implies !(#[trigger] front[i]).0.contains(
            '\n',
        ) by {
            assert(front[i] == items[i]);
        }
        there_is_one_line_for_each_item(front);
        reveal_with_fuel(line_breaks, 2);
        assert(("\n"@).drop_last() =~= Seq::<char>::empty());
        assert(line_breaks("\n"@) == 1);
        lemma_breaks_add_up(item_lines(front), "\n"@);
        lemma_breaks_add_up(item_lines(front) + "\n"@, item_line(item));
    }
}

/// Where there is nothing to build from, the model is told so.
pub proof fn an_empty_inventory_is_told(description: Seq<char>)
    ensures
        user_prompt(description, Seq::empty()) == "Description: "@ + description
            + "\nAvailable inventory:\n"@ + "  (empty)"@,
{
}

/// A sample holds three items, or all where there are fewer, and none twice; the counts in it do
/// not grow, and no item outside it has a greater count than one inside. Of items with the same
/// count the one whose name comes first is ahead.
pub proof fn samples_hold_what_there_is_most_of(
    items: Seq<(Seq<char>, u32)>,
    sample: Seq<(Seq<char>, u32)>,
    i: int,
    k: int,
    l: int,
)
    requires
        is_sample(items, sample),
    ensures
        sample.len() == 3 || (sample.len() == items.len() && items.len() < 3),
        0 <= k < sample.len() ==> items.contains(sample[k]),
        0 <= k < l < sample.len() ==> sample[k] != sample[l] && sample[k].1 >= sample[l].1 && (
        sample[k].1 == sample[l].1 ==> text_before(sample[k].0, sample[l].0)),
        0 <= i < items.len() && 0 <= k < sample.len() && !sample.contains(items[i]) ==> sample[k].1
            >= items[i].1 && (sample[k].1 == items[i].1 ==> text_before(sample[k].0, items[i].0)),
{
    if 0 <= k < l < sample.len() {
        lemma_ahead_is_one_way(sample[k], sample[l]);
    }
}

/// What is said of an inventory: the number of its items, the sum of their counts and, where there
/// are any, the sample, each item of it with its count, with commas between them.
pub proof fn summaries_give_the_numbers(
    items: Seq<(Seq<char>, u32)>,
    sample: Seq<(Seq<char>, u32)>,
    item: (Seq<char>, u32),
)
    ensures
        items.len() > 0 ==> summary_text(items) == decimal(items.len() as int) + " item types, "@
            + decimal(total_count(items)) + " total blocks"@ + " ["@ + sample_text(sample_of(items))
            + "]"@,
        summary_text(Seq::empty()) == decimal(0) + " item types, "@ + decimal(0) + " total blocks"@,
        sample_text(seq![item]) == item.0 + "="@ + decimal(item.1 as int),
        sample.len() > 0 ==> sample_text(sample.push(item)) == sample_text(sample) + ", "@ + (item.0
            + "="@ + decimal(item.1 as int)),
{
    assert(sample.push(item).drop_last() =~= sample);
    assert(seq![item].drop_last() =~= Seq::empty());
    assert(total_count(Seq::empty()) == 0);
    assert(sample_text(seq![item]) =~= item.0 + "="@ + decimal(item.1 as int));
    if sample.len() > 0 {
        assert(sample_text(sample.push(item)) =~= sample_text(sample) + ", "@ + (item.0 + "="@
            + decimal(item.1 as int)));
    }
}

/// What is said of a request that brought no content gives the reason, and nothing is said where
/// there is a choice. A refusal is told with its status and its body.
pub proof fn refusals_give_the_reason(
    error: String,
    status: u16,
    body: String,
    choices: Vec<String>,
    status_line: Seq<char>,
)
    ensures
        refusal_message(status_line, body@) == "HTTP "@ + status_line + ": "@ + body@,
        reply_error(LlmReply::NotSent(error)) == Some("request failed: "@ + error@),
        reply_error(LlmReply::Refused { status, body }) == Some(
            "HTTP "@ + status_text(status) + ": "@ + body@,
        ),
        reply_error(LlmReply::Unreadable(error)) == Some("failed to parse API response: "@ + error@),
        reply_error(LlmReply::Choices(choices)) is Some <==> choices@.len() == 0,
        choices@.len() == 0 ==> reply_error(LlmReply::Choices(choices)) == Some(
            "no choices in LLM response"@,
        ),
{
}

/// Slashes at the end of a base address do not matter, and one that has none stays as it is.
pub proof fn slashes_at_the_end_do_not_matter(base: Seq<char>)
    ensures
        without_suffix_char(base.push('/'), '/') == without_suffix_char(base, '/'),
        base.len() == 0 || base.last() != '/' ==> without_suffix_char(base, '/') == base,
{
    assert(base.push('/').drop_last() =~= base);
}

} // verus!
