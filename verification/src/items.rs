//! Walking over the display items of a flattened scene.
use crate::display::DisplayItem;
use crate::ids::{DisplayItemKey, DrawListIndex, DrawListItemIndex};
use crate::scene::{DrawContext, FlatDrawList};
use vstd::prelude::*;

verus! {

/// The number of items in flat draw list `list`.
pub open spec fn item_count(flat: Seq<FlatDrawList>, list: int) -> int {
    flat[list].draw_list.items@.len() as int
}

/// Whether there is an item under a key.
pub open spec fn holds(flat: Seq<FlatDrawList>, key: DisplayItemKey) -> bool {
    &&& key.draw_list_index.0 < flat.len()
    &&& key.item_index.0 < item_count(flat, key.draw_list_index.0 as int)
}

/// The key of item `item` of list `list`.
pub open spec fn key_at(list: int, item: int) -> DisplayItemKey {
    DisplayItemKey {
        draw_list_index: DrawListIndex(list as u32),
        item_index: DrawListItemIndex(item as u32),
    }
}

/// The keys of items `from` up to, not including, `to` of one list.
pub open spec fn keys_in(list: int, from: int, to: int) -> Seq<DisplayItemKey> {
    Seq::new((if from <= to { to - from } else { 0 }) as nat, |i: int| key_at(list, from + i))
}

/// The keys from item `item` of list `list` on, up to, not including, item `end` of list
/// `last`: the rest of the one list, all of those between, and the start of the other.
pub open spec fn span(
    flat: Seq<FlatDrawList>,
    list: int,
    item: int,
    last: int,
    end: int,
) -> Seq<DisplayItemKey>
    decreases last - list,
{
    if list >= last {
        keys_in(list, item, end)
    } else {
        keys_in(list, item, item_count(flat, list)) + span(flat, list + 1, 0, last, end)
    }
}

/// Whether the items from one key to another, both included, can be walked over: both are
/// there, in this order, and every list on the way has items, no more than an index can count.
pub open spec fn walkable(
    flat: Seq<FlatDrawList>,
    first: DisplayItemKey,
    last: DisplayItemKey,
) -> bool {
    &&& holds(flat, first)
    &&& holds(flat, last)
    &&& first == last || first.before(last)
    &&& forall|l: int|
        first.draw_list_index.0 <= l <= last.draw_list_index.0 ==> 0 < #[trigger] item_count(flat, l)
            <= u32::MAX
}

/// Whether there is an item under a key.
pub fn has_item(flat_draw_lists: &Vec<FlatDrawList>, key: &DisplayItemKey) -> (r: bool)
    ensures
        r == holds(flat_draw_lists@, *key),
{
    let list = key.draw_list_index.0 as usize;
    list < flat_draw_lists.len() && (key.item_index.0 as usize) < flat_draw_lists[list].draw_list.items.len()
}

/// Whether the items from one key to another can be walked over.
pub fn is_walkable(flat_draw_lists: &Vec<FlatDrawList>, first: &DisplayItemKey, last: &DisplayItemKey) -> (r: bool)
    ensures
        r == walkable(flat_draw_lists@, *first, *last),
{
    let ghost flat = flat_draw_lists@;
    let from = first.draw_list_index.0 as usize;
    let to = last.draw_list_index.0 as usize;
    if from >= flat_draw_lists.len() || to >= flat_draw_lists.len() {
        return false;
    }
    if first.item_index.0 as usize >= flat_draw_lists[from].draw_list.items.len() || last.item_index.0 as usize
        >= flat_draw_lists[to].draw_list.items.len() {
        return false;
    }
    if from > to || from == to && first.item_index.0 > last.item_index.0 {
        return false;
    }
    let mut list: usize = from;
    while list <= to
        invariant
            from <= list <= to + 1,
            from == first.draw_list_index.0,
            to == last.draw_list_index.0,
            to < flat_draw_lists@.len(),
            flat == flat_draw_lists@,
            forall|l: int| from <= l < list ==> 0 < #[trigger] item_count(flat, l) <= u32::MAX,
        decreases to + 1 - list,
    {
        assert(to < flat_draw_lists.len());
        let count = flat_draw_lists[list].draw_list.items.len();
        if count == 0 || count > u32::MAX as usize {
            assert(!(0 < item_count(flat, list as int) <= u32::MAX));
            return false;
        }
        list = list + 1;
    }
    true
}

/// Walks over the items of the scene from the first to the last item of a node.
pub struct DisplayItemIterator<'a> {
    pub flat_draw_lists: &'a Vec<FlatDrawList>,
    pub current_key: DisplayItemKey,
    pub last_key: DisplayItemKey,
}

impl<'a> DisplayItemIterator<'a> {
    /// The keys that are still to come.
    pub open spec fn remaining(self) -> Seq<DisplayItemKey> {
        span(
            self.flat_draw_lists@,
            self.current_key.draw_list_index.0 as int,
            self.current_key.item_index.0 as int,
            self.last_key.draw_list_index.0 as int,
            self.last_key.item_index.0 as int,
        )
    }

    /// The walk is on its way, or at its end.
    pub open spec fn wf(self) -> bool {
        let current = self.current_key.draw_list_index.0 as int;
        let last = self.last_key.draw_list_index.0 as int;
        &&& current <= last
        &&& current == last ==> self.current_key.item_index.0 <= self.last_key.item_index.0
        &&& current < last ==> {
            &&& last < self.flat_draw_lists@.len()
            &&& self.current_key.item_index.0 < item_count(self.flat_draw_lists@, current)
            &&& forall|l: int|
                current <= l <= last ==> 0 < #[trigger] item_count(self.flat_draw_lists@, l)
                    <= u32::MAX
        }
    }

    /// A walk from the first to the last of a node's items, over everything between them; over
    /// nothing where the node has no items.
    pub fn new(flat_draw_lists: &'a Vec<FlatDrawList>, src_items: &Vec<DisplayItemKey>) -> (iter:
        DisplayItemIterator<'a>)
        requires
            src_items@.len() > 0 ==> walkable(flat_draw_lists@, src_items@[0], src_items@.last()),
        ensures
            iter.wf(),
            iter.flat_draw_lists == flat_draw_lists,
            iter.remaining() == (if src_items@.len() == 0 {
                Seq::empty()
            } else {
                let first = src_items@[0];
                let last = src_items@.last();
                span(
                    flat_draw_lists@,
                    first.draw_list_index.0 as int,
                    first.item_index.0 as int,
                    last.draw_list_index.0 as int,
                    last.item_index.0 + 1,
                )
            }),
    {
        if src_items.len() > 0 {
            let current_key = src_items[0];
            let mut last_key = src_items[src_items.len() - 1];
            assert(item_count(flat_draw_lists@, last_key.draw_list_index.0 as int) <= u32::MAX);
            last_key.item_index = DrawListItemIndex(last_key.item_index.0 + 1);
            DisplayItemIterator { flat_draw_lists, current_key, last_key }
        } else {
            let iter = DisplayItemIterator {
                flat_draw_lists,
                current_key: DisplayItemKey::new(0, 0),
                last_key: DisplayItemKey::new(0, 0),
            };
            assert(iter.remaining() =~= Seq::empty());
            iter
        }
    }

    /// The next key of the walk.
    pub fn next(&mut self) -> (key: Option<DisplayItemKey>)
        requires
            old(self).wf(),
        ensures
            final(self).wf(),
            final(self).flat_draw_lists == old(self).flat_draw_lists,
            match key {
                None => old(self).remaining().len() == 0 && *final(self) == *old(self),
                Some(key) => {
                    &&& old(self).remaining().len() > 0
                    &&& key == old(self).remaining()[0]
                    &&& final(self).remaining() == old(self).remaining().drop_first()
                },
            },
    {
        if self.current_key == self.last_key {
            assert(self.remaining() =~= Seq::empty());
            return None;
        }
        let key = self.current_key;
        let item_index = key.item_index.0;
        let list_index = key.draw_list_index.0;
        let ghost flat = self.flat_draw_lists@;
        let ghost last = self.last_key.draw_list_index.0 as int;
        let ghost end = self.last_key.item_index.0 as int;
        assert(list_index < last ==> 0 < item_count(flat, list_index as int) <= u32::MAX);
        self.current_key.item_index = DrawListItemIndex(item_index + 1);
        if key.draw_list_index != self.last_key.draw_list_index {
            let items = self.flat_draw_lists[list_index as usize].draw_list.items.len();
            let last_item_index = DrawListItemIndex(items as u32);
            if self.current_key.item_index == last_item_index {
                self.current_key.draw_list_index = DrawListIndex(list_index + 1);
                self.current_key.item_index = DrawListItemIndex(0);
            }
        }
        proof {
            lemma_span_step(flat, list_index as int, item_index as int, last, end);
        }
        Some(key)
    }
}

/// One step of a walk.
proof fn lemma_span_step(flat: Seq<FlatDrawList>, list: int, item: int, last: int, end: int)
    requires
        0 <= list <= last <= u32::MAX,
        0 <= item,
        list == last ==> item < end <= u32::MAX,
        list < last ==> item < item_count(flat, list) <= u32::MAX,
    ensures
        ({
            let here = span(flat, list, item, last, end);
            let rest = if list < last && item + 1 == item_count(flat, list) {
                span(flat, list + 1, 0, last, end)
            } else {
                span(flat, list, item + 1, last, end)
            };
            here.len() > 0 && here[0] == key_at(list, item) && rest == here.drop_first()
        }),
{
    let here = span(flat, list, item, last, end);
    if list == last {
        assert(span(flat, list, item + 1, last, end) =~= here.drop_first());
    } else {
        let n = item_count(flat, list);
        let tail = span(flat, list + 1, 0, last, end);
        assert(here == keys_in(list, item, n) + tail);
        if item + 1 == n {
            assert(tail =~= here.drop_first());
        } else {
            assert(span(flat, list, item + 1, last, end) == keys_in(list, item + 1, n) + tail);
            assert(keys_in(list, item + 1, n) + tail =~= here.drop_first());
        }
    }
}

/// A walk meets the items between its two ends, and no others: a key is on it exactly if
/// there is an item under it and it lies between the first and the last key.
pub proof fn walk_meets_every_item(
    flat: Seq<FlatDrawList>,
    first: DisplayItemKey,
    last: DisplayItemKey,
    key: DisplayItemKey,
)
    requires
        walkable(flat, first, last),
    ensures
        ({
            let walk = span(
                flat,
                first.draw_list_index.0 as int,
                first.item_index.0 as int,
                last.draw_list_index.0 as int,
                last.item_index.0 + 1,
            );
            walk.contains(key) <==> {
                &&& holds(flat, key)
                &&& key == first || first.before(key)
                &&& key == last || key.before(last)
            }
        }),
{
    lemma_span_members(
        flat,
        first.draw_list_index.0 as int,
        first.item_index.0 as int,
        last.draw_list_index.0 as int,
        last.item_index.0 + 1,
        key,
    );
    assert(item_count(flat, last.draw_list_index.0 as int) <= u32::MAX);
}

proof fn lemma_keys_in_members(list: int, from: int, to: int, key: DisplayItemKey)
    requires
        0 <= list <= u32::MAX,
        0 <= from,
        to <= u32::MAX,
    ensures
        keys_in(list, from, to).contains(key) <==> key.draw_list_index.0 == list && from
            <= key.item_index.0 < to,
{
    let keys = keys_in(list, from, to);
    if key.draw_list_index.0 == list && from <= key.item_index.0 < to {
        assert(keys[key.item_index.0 - from] == key);
    }
}

proof fn lemma_span_members(
    flat: Seq<FlatDrawList>,
    list: int,
    item: int,
    last: int,
    end: int,
    key: DisplayItemKey,
)
    requires
        0 <= list <= last <= u32::MAX,
        0 <= item,
        0 <= end <= u32::MAX,
        forall|l: int| list <= l < last ==> #[trigger] item_count(flat, l) <= u32::MAX,
    ensures
        span(flat, list, item, last, end).contains(key) <==> {
            let l = key.draw_list_index.0 as int;
            &&& list <= l <= last
            &&& l == list ==> item <= key.item_index.0
            &&& l == last ==> key.item_index.0 < end
            &&& l < last ==> key.item_index.0 < item_count(flat, l)
        },
    decreases last - list,
{
    if list == last {
        lemma_keys_in_members(list, item, end, key);
    } else {
        let head = keys_in(list, item, item_count(flat, list));
        let tail = span(flat, list + 1, 0, last, end);
        lemma_keys_in_members(list, item, item_count(flat, list), key);
        lemma_span_members(flat, list + 1, 0, last, end, key);
        if head.contains(key) {
            let i = head.index_of(key);
            assert((head + tail)[i] == key);
        }
        if tail.contains(key) {
            let i = tail.index_of(key);
            assert((head + tail)[head.len() + i] == key);
        }
        if (head + tail).contains(key) {
            let i = (head + tail).index_of(key);
            if i < head.len() {
                assert(head[i] == key);
            } else {
                assert(tail[i - head.len()] == key);
            }
        }
    }
}

/// A walk goes forward: each key on it comes before the keys after it.
pub proof fn walk_is_in_order(
    flat: Seq<FlatDrawList>,
    first: DisplayItemKey,
    last: DisplayItemKey,
    i: int,
    j: int,
)
    requires
        walkable(flat, first, last),
        ({
            let walk = span(
                flat,
                first.draw_list_index.0 as int,
                first.item_index.0 as int,
                last.draw_list_index.0 as int,
                last.item_index.0 + 1,
            );
            0 <= i < j < walk.len()
        }),
    ensures
        ({
            let walk = span(
                flat,
                first.draw_list_index.0 as int,
                first.item_index.0 as int,
                last.draw_list_index.0 as int,
                last.item_index.0 + 1,
            );
            walk[i].before(walk[j])
        }),
{
    assert(item_count(flat, last.draw_list_index.0 as int) <= u32::MAX);
    lemma_span_order(
        flat,
        first.draw_list_index.0 as int,
        first.item_index.0 as int,
        last.draw_list_index.0 as int,
        last.item_index.0 + 1,
        i,
        j,
    );
}

proof fn lemma_span_order(
    flat: Seq<FlatDrawList>,
    list: int,
    item: int,
    last: int,
    end: int,
    i: int,
    j: int,
)
    requires
        0 <= list <= last <= u32::MAX,
        0 <= item,
        0 <= end <= u32::MAX,
        forall|l: int| list <= l < last ==> #[trigger] item_count(flat, l) <= u32::MAX,
        0 <= i < j < span(flat, list, item, last, end).len(),
    ensures
        span(flat, list, item, last, end)[i].before(span(flat, list, item, last, end)[j]),
    decreases last - list,
{
    if list < last {
        let head = keys_in(list, item, item_count(flat, list));
        let tail = span(flat, list + 1, 0, last, end);
        if i >= head.len() {
            lemma_span_order(flat, list + 1, 0, last, end, i - head.len(), j - head.len());
        } else if j >= head.len() {
            let key = tail[j - head.len()];
            lemma_span_members(flat, list + 1, 0, last, end, key);
            assert(tail.contains(key));
        }
    }
}

/// The item under a key.
pub fn get_item<'a>(flat_draw_lists: &'a Vec<FlatDrawList>, key: &DisplayItemKey) -> (item: &'a DisplayItem)
    requires
        holds(flat_draw_lists@, *key),
    ensures
        *item == flat_draw_lists@[key.draw_list_index.0 as int].draw_list.items@[key.item_index.0 as int],
{
    &flat_draw_lists[key.draw_list_index.0 as usize].draw_list.items[key.item_index.0 as usize]
}

/// The item under a key, and the context of its list.
pub fn get_item_and_draw_context<'a>(
    flat_draw_lists: &'a Vec<FlatDrawList>,
    key: &DisplayItemKey,
) -> (r: (&'a DisplayItem, &'a DrawContext))
    requires
        holds(flat_draw_lists@, *key),
    ensures
        *r.0 == flat_draw_lists@[key.draw_list_index.0 as int].draw_list.items@[key.item_index.0 as int],
        *r.1 == flat_draw_lists@[key.draw_list_index.0 as int].draw_context,
{
    let list = &flat_draw_lists[key.draw_list_index.0 as usize];
    (&list.draw_list.items[key.item_index.0 as usize], &list.draw_context)
}

} // verus!
