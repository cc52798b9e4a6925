//! The mathematics of the filtered view: which messages a set of filters
//! lets through, and which bus names those messages use.

use crate::bus_name_item::BusNameItemView;
use crate::message::MessageView;
use crate::message_tag::MessageTag;
use crate::ownership::names_of;
use crate::snapshot_log::all_names;
use crate::stream::MessageListView;
use vstd::prelude::*;

verus! {

/// The filters in force: messages with one of the tags are hidden, and so
/// are messages that involve one of the names.
pub struct FiltersView {
    pub tags: Set<MessageTag>,
    pub names: Set<(bool, Seq<char>)>,
}

/// Whether a message involves `name`: `name` sent it, or it goes to `name`
/// or to a well-known name that `name` held as of the message.
pub open spec fn involves(
    dir: Seq<BusNameItemView>,
    message: MessageView,
    name: (bool, Seq<char>),
) -> bool {
    ||| name.0 && message.header().sender == Some(name.1)
    ||| match message.header().destination_or_fallback() {
        Some(destination) => destination == name || (!destination.0 && names_of(
            dir,
            name,
            message.index(),
        ).contains(destination.1)),
        None => false,
    }
}

/// Whether the filters let the message at `position` through.
pub open spec fn passes(list: MessageListView, filters: FiltersView, position: int) -> bool {
    let message = list.messages[position];
    &&& !filters.tags.contains(message.message_tag)
    &&& forall|name: (bool, Seq<char>)| #[trigger]
        filters.names.contains(name) ==> !involves(list.names, message, name)
}

/// The receipt indices below `end` of the messages that the filters let
/// through, in their order.
pub open spec fn visible_before(list: MessageListView, filters: FiltersView, end: int) -> Seq<u32>
    decreases end,
{
    if end <= 0 {
        Seq::empty()
    } else if passes(list, filters, end - 1) {
        visible_before(list, filters, end - 1).push((end - 1) as u32)
    } else {
        visible_before(list, filters, end - 1)
    }
}

/// The receipt indices of the messages that the filters let through.
pub open spec fn visible(list: MessageListView, filters: FiltersView) -> Seq<u32> {
    visible_before(list, filters, list.messages.len() as int)
}

/// Whether a message names `name` as its sender or as its destination.
pub open spec fn uses(message: MessageView, name: (bool, Seq<char>)) -> bool {
    (name.0 && message.header().sender == Some(name.1))
        || message.header().destination_or_fallback() == Some(name)
}

/// Whether one of the messages shown names `name`.
pub open spec fn is_used(list: MessageListView, shown: Seq<u32>, name: (bool, Seq<char>)) -> bool {
    exists|k: int| 0 <= k < shown.len() && uses(list.messages[(#[trigger] shown[k]) as int], name)
}

/// The names that the messages shown name as sender or destination.
pub open spec fn used_set(list: MessageListView, shown: Seq<u32>) -> Set<(bool, Seq<char>)> {
    Set::new(|name: (bool, Seq<char>)| is_used(list, shown, name))
}

/// Whether the entry is in use: one of the names used is its name, or a
/// well-known name that it held at some time.
pub open spec fn in_use(used: Set<(bool, Seq<char>)>, entry: BusNameItemView) -> bool {
    used.contains(entry.name) || exists|k: int|
        0 <= k < all_names(entry.log).len() && used.contains(
            (false, #[trigger] all_names(entry.log)[k]),
        )
}

/// The positions below `end` of the entries of the directory that are in
/// use, in their order.
pub open spec fn names_in_use_before(
    dir: Seq<BusNameItemView>,
    used: Set<(bool, Seq<char>)>,
    end: int,
) -> Seq<usize>
    decreases end,
{
    if end <= 0 {
        Seq::empty()
    } else if in_use(used, dir[end - 1]) {
        names_in_use_before(dir, used, end - 1).push((end - 1) as usize)
    } else {
        names_in_use_before(dir, used, end - 1)
    }
}

/// The positions of the entries of the directory that are in use by the
/// messages shown.
pub open spec fn names_in_use(list: MessageListView, shown: Seq<u32>) -> Seq<usize> {
    names_in_use_before(list.names, used_set(list, shown), list.names.len() as int)
}

/// What is shown keeps the order of the stream and holds exactly the
/// messages that the filters let through.
pub proof fn lemma_visible_before(list: MessageListView, filters: FiltersView, end: int)
    requires
        0 <= end <= list.messages.len() <= u32::MAX,
    ensures
        visible_before(list, filters, end).len() <= end,
        forall|k: int|
            0 <= k < visible_before(list, filters, end).len() ==> (#[trigger] visible_before(
                list,
                filters,
                end,
            )[k]) < end && passes(list, filters, visible_before(list, filters, end)[k] as int),
        forall|j: int, k: int|
            0 <= j < k < visible_before(list, filters, end).len() ==> (#[trigger] visible_before(
                list,
                filters,
                end,
            )[j]) < (#[trigger] visible_before(list, filters, end)[k]),
        forall|i: int|
            0 <= i < end && passes(list, filters, i) ==> #[trigger] visible_before(
                list,
                filters,
                end,
            ).contains(i as u32),
    decreases end,
{
    if end > 0 {
        lemma_visible_before(list, filters, end - 1);
        let rest = visible_before(list, filters, end - 1);
        let out = visible_before(list, filters, end);
        assert forall|i: int| 0 <= i < end && passes(list, filters, i) implies #[trigger] out.contains(
            i as u32,
        ) by {
            if i < end - 1 {
                assert(rest.contains(i as u32));
                let k = choose|k: int| 0 <= k < rest.len() && rest[k] == i as u32;
                assert(out[k] == i as u32);
            } else {
                assert(out[out.len() - 1] == i as u32);
            }
        }
    }
}

/// The entries shown keep the order of the directory and are exactly the
/// entries in use.
pub proof fn lemma_names_in_use_before(
    dir: Seq<BusNameItemView>,
    used: Set<(bool, Seq<char>)>,
    end: int,
)
    requires
        0 <= end <= dir.len() <= usize::MAX,
    ensures
        names_in_use_before(dir, used, end).len() <= end,
        forall|k: int|
            0 <= k < names_in_use_before(dir, used, end).len() ==> (#[trigger] names_in_use_before(
                dir,
                used,
                end,
            )[k]) < end && in_use(used, dir[names_in_use_before(dir, used, end)[k] as int]),
        forall|j: int, k: int|
            0 <= j < k < names_in_use_before(dir, used, end).len() ==> (
            #[trigger] names_in_use_before(dir, used, end)[j]) < (#[trigger] names_in_use_before(
                dir,
                used,
                end,
            )[k]),
        forall|i: int|
            0 <= i < end && in_use(used, dir[i]) ==> #[trigger] names_in_use_before(
                dir,
                used,
                end,
            ).contains(i as usize),
    decreases end,
{
    if end > 0 {
        lemma_names_in_use_before(dir, used, end - 1);
        let rest = names_in_use_before(dir, used, end - 1);
        let out = names_in_use_before(dir, used, end);
        assert forall|i: int| 0 <= i < end && in_use(used, dir[i]) implies #[trigger] out.contains(
            i as usize,
        ) by {
            if i < end - 1 {
                assert(rest.contains(i as usize));
                let k = choose|k: int| 0 <= k < rest.len() && rest[k] == i as usize;
                assert(out[k] == i as usize);
            } else {
                assert(out[out.len() - 1] == i as usize);
            }
        }
    }
}

/// Where the filters let the same messages through in two streams, the
/// same messages are shown.
pub proof fn lemma_visible_alike(
    one: MessageListView,
    other: MessageListView,
    filters: FiltersView,
    end: int,
)
    requires
        forall|i: int| 0 <= i < end ==> passes(one, filters, i) == passes(other, filters, i),
    ensures
        visible_before(one, filters, end) == visible_before(other, filters, end),
    decreases end,
{
    if end > 0 {
        lemma_visible_alike(one, other, filters, end - 1);
    }
}

/// No filters at all.
pub open spec fn no_filters() -> FiltersView {
    FiltersView { tags: Set::empty(), names: Set::empty() }
}

/// The filters with messages of `tag` hidden too.
pub open spec fn with_tag(filters: FiltersView, tag: MessageTag) -> FiltersView {
    FiltersView { tags: filters.tags.insert(tag), names: filters.names }
}

/// The filters with messages of `tag` no longer hidden for their tag.
pub open spec fn without_tag(filters: FiltersView, tag: MessageTag) -> FiltersView {
    FiltersView { tags: filters.tags.remove(tag), names: filters.names }
}

/// The filters with messages that involve `name` hidden too.
pub open spec fn with_filtered_name(filters: FiltersView, name: (bool, Seq<char>)) -> FiltersView {
    FiltersView { tags: filters.tags, names: filters.names.insert(name) }
}

/// The filters with messages that involve `name` no longer hidden for it.
pub open spec fn without_filtered_name(filters: FiltersView, name: (bool, Seq<char>)) -> FiltersView {
    FiltersView { tags: filters.tags, names: filters.names.remove(name) }
}

/// Hiding a tag and showing it again leaves what is shown as it was where
/// the tag was not hidden before.
pub proof fn lemma_tag_filter_added_then_removed(
    list: MessageListView,
    filters: FiltersView,
    tag: MessageTag,
)
    requires
        !filters.tags.contains(tag),
    ensures
        without_tag(with_tag(filters, tag), tag) == filters,
        visible(list, without_tag(with_tag(filters, tag), tag)) == visible(list, filters),
        names_in_use(list, visible(list, without_tag(with_tag(filters, tag), tag))) == names_in_use(
            list,
            visible(list, filters),
        ),
{
    assert(filters.tags.insert(tag).remove(tag) =~= filters.tags);
}

/// Hiding a name and showing it again leaves what is shown as it was where
/// the name was not hidden before.
pub proof fn lemma_name_filter_added_then_removed(
    list: MessageListView,
    filters: FiltersView,
    name: (bool, Seq<char>),
)
    requires
        !filters.names.contains(name),
    ensures
        without_filtered_name(with_filtered_name(filters, name), name) == filters,
        visible(list, without_filtered_name(with_filtered_name(filters, name), name)) == visible(
            list,
            filters,
        ),
{
    assert(filters.names.insert(name).remove(name) =~= filters.names);
}

/// A tag filter hides exactly the messages with its tag: a message passes
/// with the filter where it passes without it and bears another tag.
pub proof fn lemma_tag_filter_hides_its_tag(
    list: MessageListView,
    filters: FiltersView,
    tag: MessageTag,
    position: int,
)
    requires
        0 <= position < list.messages.len(),
    ensures
        passes(list, with_tag(filters, tag), position) <==> passes(list, filters, position)
            && list.messages[position].message_tag != tag,
{
    let more = with_tag(filters, tag);
    let message = list.messages[position];
    if passes(list, more, position) {
        assert forall|name: (bool, Seq<char>)| #[trigger]
            filters.names.contains(name) implies !involves(list.names, message, name) by {
            assert(more.names.contains(name));
        }
    }
    if passes(list, filters, position) && message.message_tag != tag {
        assert forall|name: (bool, Seq<char>)| #[trigger]
            more.names.contains(name) implies !involves(list.names, message, name) by {
            assert(filters.names.contains(name));
        }
    }
}

/// Every receipt index below `count`, in order.
pub open spec fn all_indices(count: int) -> Seq<u32> {
    Seq::new(count as nat, |i: int| i as u32)
}

/// Without filters every message passes.
pub proof fn lemma_no_filter_shows_all(list: MessageListView, position: int)
    requires
        0 <= position < list.messages.len(),
    ensures
        passes(list, no_filters(), position),
{
}

/// Without filters the view is the whole stream: every message, in the
/// order of arrival.
pub proof fn lemma_unfiltered_view_is_full(list: MessageListView, end: int)
    requires
        0 <= end <= list.messages.len() <= u32::MAX,
    ensures
        visible_before(list, no_filters(), end) == all_indices(end),
    decreases end,
{
    if end > 0 {
        lemma_unfiltered_view_is_full(list, end - 1);
        lemma_no_filter_shows_all(list, end - 1);
        assert(visible_before(list, no_filters(), end) =~= all_indices(end));
    } else {
        assert(visible_before(list, no_filters(), end) =~= all_indices(end));
    }
}

} // verus!
