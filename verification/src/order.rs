//! The order of entries in a directory: ascending tags.
use crate::ifd::{views, EntryView, IfdEntry};
use vstd::prelude::*;

verus! {

/// Whether no tag is below the one before it.
pub open spec fn ascending(entries: Seq<EntryView>) -> bool {
    forall|i: int, j: int|
        0 <= i <= j < entries.len() ==> (#[trigger] entries[i]).tag <= (#[trigger] entries[j]).tag
}

/// Whether every tag is above the one before it.
pub open spec fn strictly_ascending(entries: Seq<EntryView>) -> bool {
    forall|i: int, j: int|
        0 <= i < j < entries.len() ==> (#[trigger] entries[i]).tag < (#[trigger] entries[j]).tag
}

/// Whether no tag occurs twice.
pub open spec fn distinct_tags(entries: Seq<EntryView>) -> bool {
    forall|i: int, j: int|
        0 <= i < entries.len() && 0 <= j < entries.len() && i != j ==> (#[trigger] entries[i]).tag
            != (#[trigger] entries[j]).tag
}

/// The place behind the last entry whose tag is not above `tag`.
pub open spec fn slot(entries: Seq<EntryView>, tag: u16) -> int
    decreases entries.len(),
{
    if entries.len() == 0 || entries.last().tag <= tag {
        entries.len() as int
    } else {
        slot(entries.drop_last(), tag)
    }
}

/// The entries in ascending order of their tags; entries with the same tag keep their order.
pub open spec fn sorted_by_tag(entries: Seq<EntryView>) -> Seq<EntryView>
    decreases entries.len(),
{
    if entries.len() == 0 {
        entries
    } else {
        let rest = sorted_by_tag(entries.drop_last());
        rest.insert(slot(rest, entries.last().tag), entries.last())
    }
}

/// The entries with the given tag, in their order.
pub open spec fn with_tag(entries: Seq<EntryView>, tag: u16) -> Seq<EntryView> {
    entries.filter(|entry: EntryView| entry.tag == tag)
}

proof fn lemma_slot(entries: Seq<EntryView>, tag: u16)
    requires
        ascending(entries),
    ensures
        0 <= slot(entries, tag) <= entries.len(),
        forall|i: int| 0 <= i < slot(entries, tag) ==> (#[trigger] entries[i]).tag <= tag,
        forall|i: int|
            slot(entries, tag) <= i < entries.len() ==> (#[trigger] entries[i]).tag > tag,
    decreases entries.len(),
{
    if entries.len() == 0 || entries.last().tag <= tag {
    } else {
        let rest = entries.drop_last();
        lemma_slot(rest, tag);
        assert forall|i: int| 0 <= i < slot(entries, tag) implies (#[trigger] entries[i]).tag
            <= tag by {
            assert(rest[i] == entries[i]);
        }
        assert forall|i: int| slot(entries, tag) <= i < entries.len() implies (
        #[trigger] entries[i]).tag > tag by {
            if i < rest.len() {
                assert(rest[i] == entries[i]);
            }
        }
    }
}

proof fn lemma_with_tag_insert(entries: Seq<EntryView>, at: int, entry: EntryView, tag: u16)
    requires
        0 <= at <= entries.len(),
        forall|i: int| at <= i < entries.len() ==> (#[trigger] entries[i]).tag != entry.tag,
    ensures
        with_tag(entries.insert(at, entry), tag) == (if entry.tag == tag {
            with_tag(entries, tag).push(entry)
        } else {
            with_tag(entries, tag)
        }),
{
    let same = |e: EntryView| e.tag == tag;
    let before = entries.subrange(0, at);
    let after = entries.subrange(at, entries.len() as int);
    assert(entries == before + after);
    assert(entries.insert(at, entry) == before.push(entry) + after);
    Seq::filter_distributes_over_add(before, after, same);
    Seq::filter_distributes_over_add(before.push(entry), after, same);
    assert(before.push(entry).drop_last() == before);
    reveal_with_fuel(Seq::filter, 1);
    if entry.tag == tag {
        if after.filter(same).len() > 0 {
            let found = after.filter(same)[0];
            assert(after.filter(same).contains(found));
            after.lemma_filter_contains_rev(same, found);
            after.lemma_filter_pred(same, 0);
            let i = choose|i: int| 0 <= i < after.len() && after[i] == found;
            assert(after[i] == entries[at + i]);
        }
        assert(after.filter(same) == Seq::<EntryView>::empty());
    }
}

/// Sorting puts the tags in ascending order, adds and drops nothing, and keeps the order of
/// entries that share a tag.
pub proof fn law_sorted_by_tag(entries: Seq<EntryView>)
    ensures
        ascending(sorted_by_tag(entries)),
        forall|i: int, j: int|
            0 <= i <= j < entries.len() ==> (#[trigger] sorted_by_tag(entries)[i]).tag <= (
            #[trigger] sorted_by_tag(entries)[j]).tag,
        sorted_by_tag(entries).to_multiset() == entries.to_multiset(),
        sorted_by_tag(entries).len() == entries.len(),
        forall|tag: u16|
            #[trigger]
            with_tag(sorted_by_tag(entries), tag) == with_tag(entries, tag),
    decreases entries.len(),
{
    broadcast use vstd::seq_lib::group_to_multiset_ensures;

    if entries.len() > 0 {
        let front = entries.drop_last();
        let last = entries.last();
        let rest = sorted_by_tag(front);
        law_sorted_by_tag(front);
        lemma_slot(rest, last.tag);
        let at = slot(rest, last.tag);
        let sorted = rest.insert(at, last);
        assert(entries == front.push(last));
        assert forall|tag: u16| #[trigger]
            with_tag(sorted, tag) == with_tag(entries, tag) by {
            lemma_with_tag_insert(rest, at, last, tag);
            lemma_with_tag_insert(front, front.len() as int, last, tag);
            assert(front.insert(front.len() as int, last) == entries);
        }
    }
}

/// Sorted entries whose tags differ are in strictly ascending order.
pub proof fn law_distinct_tags_sort_strictly(entries: Seq<EntryView>)
    requires
        distinct_tags(entries),
    ensures
        strictly_ascending(sorted_by_tag(entries)),
    decreases entries.len(),
{
    if entries.len() > 0 {
        let front = entries.drop_last();
        let last = entries.last();
        let rest = sorted_by_tag(front);
        assert forall|i: int, j: int|
            0 <= i < front.len() && 0 <= j < front.len() && i != j implies (
        #[trigger] front[i]).tag != (#[trigger] front[j]).tag by {
            assert(entries[i] == front[i] && entries[j] == front[j]);
        }
        law_distinct_tags_sort_strictly(front);
        law_sorted_by_tag(front);
        lemma_slot(rest, last.tag);
        assert forall|i: int| 0 <= i < rest.len() implies (#[trigger] rest[i]).tag != last.tag by {
            lemma_sorted_member(front, i);
            let k = choose|k: int| 0 <= k < front.len() && front[k] == rest[i];
            assert(entries[k] == front[k]);
            assert(entries[entries.len() - 1] == last);
        }
    }
}

/// A sorted entry is one of the given ones.
pub(crate) proof fn lemma_sorted_member(entries: Seq<EntryView>, i: int)
    requires
        0 <= i < entries.len(),
    ensures
        sorted_by_tag(entries).len() == entries.len(),
        entries.contains(sorted_by_tag(entries)[i]),
{
    law_sorted_by_tag(entries);
    let sorted = sorted_by_tag(entries);
    assert(sorted.contains(sorted[i]));
    vstd::seq_lib::to_multiset_contains(sorted, sorted[i]);
    vstd::seq_lib::to_multiset_contains(entries, sorted[i]);
}

proof fn lemma_slot_map(entries: Seq<EntryView>, change: spec_fn(EntryView) -> EntryView, tag: u16)
    requires
        forall|e: EntryView| (#[trigger] change(e)).tag == e.tag,
    ensures
        slot(entries.map_values(change), tag) == slot(entries, tag),
    decreases entries.len(),
{
    if entries.len() > 0 && entries.last().tag > tag {
        assert(entries.map_values(change).drop_last() == entries.drop_last().map_values(change));
        lemma_slot_map(entries.drop_last(), change, tag);
    }
}

/// A change that keeps the tags of entries may be made before or after sorting.
pub(crate) proof fn lemma_sort_map(
    entries: Seq<EntryView>,
    change: spec_fn(EntryView) -> EntryView,
)
    requires
        forall|e: EntryView| (#[trigger] change(e)).tag == e.tag,
    ensures
        sorted_by_tag(entries.map_values(change)) == sorted_by_tag(entries).map_values(change),
    decreases entries.len(),
{
    if entries.len() > 0 {
        let front = entries.drop_last();
        let rest = sorted_by_tag(front);
        law_sorted_by_tag(front);
        lemma_slot(rest, entries.last().tag);
        assert(entries.map_values(change).drop_last() == front.map_values(change));
        lemma_sort_map(front, change);
        lemma_slot_map(rest, change, entries.last().tag);
    }
}

/// Sorts the entries by their tags; entries with the same tag keep their order.
pub fn sort_by_tag(entries: &mut Vec<IfdEntry>)
    ensures
        views(final(entries)@) == sorted_by_tag(views(old(entries)@)),
        ascending(views(final(entries)@)),
        views(final(entries)@).to_multiset() == views(old(entries)@).to_multiset(),
{
    let ghost given = entries@;
    let mut done: usize = 0;
    while done < entries.len()
        invariant
            done <= entries.len(),
            entries@.len() == given.len(),
            views(entries@.take(done as int)) == sorted_by_tag(views(given).take(done as int)),
            forall|i: int| done <= i < given.len() ==> #[trigger] entries@[i] == given[i],
        decreases entries.len() - done,
    {
        let ghost sorted = views(entries@.take(done as int));
        let ghost before = entries@;
        let entry: IfdEntry = entries.remove(done);
        let mut at: usize = done;
        assert(entries@.take(done as int) == before.take(done as int));
        assert(sorted.take(done as int) == sorted);
        while at > 0 && entries[at - 1].tag > entry.tag
            invariant
                at <= done <= entries@.len(),
                sorted == views(entries@.take(done as int)),
                slot(sorted.take(at as int), entry.tag) == slot(sorted, entry.tag),
            decreases at,
        {
            assert(sorted.take(at as int).last() == entries@[at - 1]@);
            assert(sorted.take(at as int).drop_last() == sorted.take(at - 1));
            at -= 1;
        }
        assert(at == slot(sorted, entry.tag)) by {
            if at > 0 {
                assert(sorted.take(at as int).last() == entries@[at - 1]@);
            }
        }
        entries.insert(at, entry);
        done += 1;
        assert(views(entries@.take(done as int)) == sorted.insert(at as int, entry@));
        assert(views(given).take(done as int).drop_last() == views(given).take(done - 1));
        assert(views(given).take(done as int).last() == entry@);
    }
    assert(entries@.take(done as int) == entries@);
    assert(views(given).take(done as int) == views(given));
    proof {
        law_sorted_by_tag(views(given));
    }
}

} // verus!
