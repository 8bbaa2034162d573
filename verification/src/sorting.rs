//! What it means to sort colours by one channel without reordering colours
//! that agree on it, and the sort itself.

use vstd::prelude::*;
use crate::color::Color;
use crate::color::ColorChannel;
use crate::filters::lemma_filter_count;
use crate::filters::lemma_filter_keeps_all;
use crate::filters::lemma_filter_keeps_none;

verus! {

/// Whether the colours come in ascending order of their value on `channel`.
pub open spec fn ascending_by(colors: Seq<Color>, channel: ColorChannel) -> bool {
    forall|i: int, j: int|
        0 <= i <= j < colors.len() ==> colors[i].channel(channel) <= colors[j].channel(channel)
}

/// The test that a colour holds `value` on `channel`.
pub open spec fn has_value(channel: ColorChannel, value: u8) -> spec_fn(Color) -> bool {
    |color: Color| color.channel(channel) == value
}

/// The colours that hold `value` on `channel`, in the order they have in
/// `colors`.
pub open spec fn with_value(colors: Seq<Color>, channel: ColorChannel, value: u8) -> Seq<
    Color,
> {
    colors.filter(has_value(channel, value))
}

/// Whether `after` is `before` sorted by `channel` with ties left alone:
/// `after` ascends, and for every value the colours that hold it are the
/// same ones, in the same order, as in `before`.
pub open spec fn is_stable_sort(
    before: Seq<Color>,
    after: Seq<Color>,
    channel: ColorChannel,
) -> bool {
    &&& ascending_by(after, channel)
    &&& forall|value: u8| #[trigger]
        with_value(after, channel, value) == with_value(before, channel, value)
}

/// The colours of `colors` that hold less than `bound` on `channel`, those
/// with the smallest value first, each group in its order in `colors`.
pub open spec fn grouped_below(colors: Seq<Color>, channel: ColorChannel, bound: nat) -> Seq<
    Color,
>
    decreases bound,
{
    if bound == 0 {
        Seq::empty()
    } else {
        grouped_below(colors, channel, (bound - 1) as nat) + with_value(
            colors,
            channel,
            (bound - 1) as u8,
        )
    }
}

/// `colors` sorted by `channel`, colours that agree on it keeping their order.
pub open spec fn sorted_by_channel(colors: Seq<Color>, channel: ColorChannel) -> Seq<Color> {
    grouped_below(colors, channel, 256)
}

/// Sorts `colors` by their value on `channel` with `slice::sort_by_key`, whose
/// key is the channel's value. The standard library documents that sort as
/// ascending by key and stable; the contract says so and no more. It is also
/// taken not to unwind: the key is total and cannot panic, and bytes are
/// totally ordered.
#[verifier::external_body]
pub(crate) fn sort_by_channel_value(colors: &mut Vec<Color>, channel: ColorChannel)
    ensures
        is_stable_sort(old(colors)@, final(colors)@, channel),
    no_unwind
{
    colors.sort_by_key(|color| color[channel]);
}

/// The colours picked out by value all hold that value.
proof fn lemma_with_value_holds(colors: Seq<Color>, channel: ColorChannel, value: u8)
    ensures
        forall|i: int|
            0 <= i < with_value(colors, channel, value).len() ==> (#[trigger] with_value(
                colors,
                channel,
                value,
            )[i]).channel(channel) == value,
{
    let picked = with_value(colors, channel, value);
    assert forall|i: int| 0 <= i < picked.len() implies (#[trigger] picked[i]).channel(channel)
        == value by {
        colors.lemma_filter_pred(has_value(channel, value), i);
    }
}

/// Picking one value out of the colours picked for another leaves nothing;
/// for the same value it changes nothing.
proof fn lemma_with_value_twice(colors: Seq<Color>, channel: ColorChannel, first: u8, second: u8)
    ensures
        with_value(with_value(colors, channel, first), channel, second) == if first == second {
            with_value(colors, channel, first)
        } else {
            Seq::<Color>::empty()
        },
{
    let picked = with_value(colors, channel, first);
    lemma_with_value_holds(colors, channel, first);
    if first == second {
        lemma_filter_keeps_all(picked, has_value(channel, second));
    } else {
        lemma_filter_keeps_none(picked, has_value(channel, second));
    }
}

/// What `grouped_below` holds: ascending colours with values under the bound,
/// and of each such value the colours that `colors` holds, in their order.
proof fn lemma_grouped_below(colors: Seq<Color>, channel: ColorChannel, bound: nat)
    requires
        bound <= 256,
    ensures
        ascending_by(grouped_below(colors, channel, bound), channel),
        forall|i: int|
            0 <= i < grouped_below(colors, channel, bound).len() ==> (#[trigger] grouped_below(
                colors,
                channel,
                bound,
            )[i]).channel(channel) < bound,
        forall|value: u8| #[trigger]
            with_value(grouped_below(colors, channel, bound), channel, value) == if value
                < bound {
                with_value(colors, channel, value)
            } else {
                Seq::<Color>::empty()
            },
    decreases bound,
{
    let grouped = grouped_below(colors, channel, bound);
    if bound == 0 {
        assert forall|value: u8| #[trigger]
            with_value(grouped, channel, value) == Seq::<Color>::empty() by {
            lemma_filter_keeps_none(grouped, has_value(channel, value));
        }
    } else {
        let top = (bound - 1) as u8;
        let lower = grouped_below(colors, channel, (bound - 1) as nat);
        let added = with_value(colors, channel, top);
        lemma_grouped_below(colors, channel, (bound - 1) as nat);
        lemma_with_value_holds(colors, channel, top);
        assert(grouped == lower + added);
        assert forall|i: int| 0 <= i < grouped.len() implies (#[trigger] grouped[i]).channel(
            channel,
        ) < bound by {
            if i < lower.len() {
                assert(grouped[i] == lower[i]);
            } else {
                assert(grouped[i] == added[i - lower.len()]);
            }
        }
        assert forall|i: int, j: int| 0 <= i <= j < grouped.len() implies grouped[i].channel(
            channel,
        ) <= grouped[j].channel(channel) by {
            if j < lower.len() {
                assert(grouped[i] == lower[i] && grouped[j] == lower[j]);
            } else if i < lower.len() {
                assert(grouped[i] == lower[i] && grouped[j] == added[j - lower.len()]);
            } else {
                assert(grouped[i] == added[i - lower.len()] && grouped[j] == added[j
                    - lower.len()]);
            }
        }
        assert forall|value: u8| #[trigger]
            with_value(grouped, channel, value) == if value < bound {
                with_value(colors, channel, value)
            } else {
                Seq::<Color>::empty()
            } by {
            Seq::filter_distributes_over_add(lower, added, has_value(channel, value));
            lemma_with_value_twice(colors, channel, top, value);
            assert(with_value(grouped, channel, value) == with_value(lower, channel, value)
                + with_value(added, channel, value));
            if value < bound - 1 {
                assert(with_value(colors, channel, value) + Seq::<Color>::empty()
                    == with_value(colors, channel, value));
            } else {
                assert(Seq::<Color>::empty() + with_value(added, channel, value)
                    == with_value(added, channel, value));
            }
        }
    }
}

/// `sorted_by_channel` is a stable sort of its argument.
pub proof fn lemma_sorted_by_channel_is_stable_sort(colors: Seq<Color>, channel: ColorChannel)
    ensures
        is_stable_sort(colors, sorted_by_channel(colors, channel), channel),
{
    lemma_grouped_below(colors, channel, 256);
}

/// A stable sort keeps every colour, as often as it occurred, and so the
/// length.
pub proof fn lemma_stable_sort_permutes(
    before: Seq<Color>,
    after: Seq<Color>,
    channel: ColorChannel,
)
    requires
        is_stable_sort(before, after, channel),
    ensures
        after.to_multiset() == before.to_multiset(),
        after.len() == before.len(),
{
    assert forall|color: Color|
        after.to_multiset().count(color) == before.to_multiset().count(color) by {
        let value = color.channel(channel);
        lemma_filter_count(after, has_value(channel, value), color);
        lemma_filter_count(before, has_value(channel, value), color);
        assert(with_value(after, channel, value) == with_value(before, channel, value));
    }
    assert(after.to_multiset() =~= before.to_multiset());
    after.to_multiset_ensures();
    before.to_multiset_ensures();
}

/// Dropping the last colour of an ascending sequence drops it from the
/// colours of its value and leaves those of every other value alone.
proof fn lemma_with_value_drop_last(colors: Seq<Color>, channel: ColorChannel, value: u8)
    requires
        colors.len() > 0,
    ensures
        with_value(colors.drop_last(), channel, value) == if colors.last().channel(channel)
            == value {
            with_value(colors, channel, value).drop_last()
        } else {
            with_value(colors, channel, value)
        },
        colors.last().channel(channel) == value ==> with_value(colors, channel, value).len() > 0
            && with_value(colors, channel, value).last() == colors.last(),
{
    let rest = colors.drop_last();
    rest.lemma_filter_push(colors.last(), has_value(channel, value));
    assert(rest.push(colors.last()) == colors);
    if colors.last().channel(channel) == value {
        assert(with_value(rest, channel, value).push(colors.last()).drop_last() == with_value(
            rest,
            channel,
            value,
        ));
    }
}

/// Where some colour is picked for a value, the sequence holds a colour of
/// that value; if it ascends, its last colour holds at least as much.
proof fn lemma_picked_occurs(colors: Seq<Color>, channel: ColorChannel, value: u8)
    requires
        with_value(colors, channel, value).len() > 0,
        ascending_by(colors, channel),
    ensures
        colors.len() > 0,
        value <= colors.last().channel(channel),
    decreases colors.len(),
{
    if colors.len() == 0 {
        lemma_filter_keeps_none(colors, has_value(channel, value));
    } else if colors.last().channel(channel) != value {
        lemma_with_value_drop_last(colors, channel, value);
        lemma_picked_occurs(colors.drop_last(), channel, value);
        assert(colors.drop_last().last() == colors[colors.len() - 2]);
    }
}

/// Two ascending sequences that hold, of every value, the same colours in the
/// same order are one sequence.
proof fn lemma_ascending_groups_unique(first: Seq<Color>, second: Seq<Color>, channel: ColorChannel)
    requires
        ascending_by(first, channel),
        ascending_by(second, channel),
        forall|value: u8| #[trigger]
            with_value(first, channel, value) == with_value(second, channel, value),
    ensures
        first == second,
    decreases first.len(),
{
    if first.len() == 0 {
        if second.len() > 0 {
            let value = second.last().channel(channel);
            lemma_with_value_drop_last(second, channel, value);
            lemma_filter_keeps_none(first, has_value(channel, value));
            assert(with_value(first, channel, value) == with_value(second, channel, value));
        }
        assert(first == second);
    } else {
        let high = first.last().channel(channel);
        lemma_with_value_drop_last(first, channel, high);
        assert(with_value(first, channel, high) == with_value(second, channel, high));
        if second.len() == 0 {
            lemma_filter_keeps_none(second, has_value(channel, high));
        }
        let other_high = second.last().channel(channel);
        lemma_with_value_drop_last(second, channel, other_high);
        assert(with_value(first, channel, other_high) == with_value(second, channel, other_high));
        // Each last value occurs in the other sequence, which ascends to its own last value.
        assert(other_high <= high) by {
            lemma_picked_occurs(first, channel, other_high);
        }
        assert(high <= other_high) by {
            lemma_picked_occurs(second, channel, high);
        }
        lemma_with_value_drop_last(second, channel, high);
        assert(first.last() == second.last());
        assert forall|value: u8| #[trigger]
            with_value(first.drop_last(), channel, value) == with_value(
                second.drop_last(),
                channel,
                value,
            ) by {
            lemma_with_value_drop_last(first, channel, value);
            lemma_with_value_drop_last(second, channel, value);
            assert(with_value(first, channel, value) == with_value(second, channel, value));
        }
        lemma_ascending_groups_unique(first.drop_last(), second.drop_last(), channel);
        assert(first == first.drop_last().push(first.last()));
        assert(second == second.drop_last().push(second.last()));
    }
}

/// There is one stable sort: whatever sorts `before` stably by `channel`
/// yields `sorted_by_channel(before, channel)`.
pub proof fn lemma_stable_sort_unique(before: Seq<Color>, after: Seq<Color>, channel: ColorChannel)
    requires
        is_stable_sort(before, after, channel),
    ensures
        after == sorted_by_channel(before, channel),
{
    let sorted = sorted_by_channel(before, channel);
    lemma_sorted_by_channel_is_stable_sort(before, channel);
    assert forall|value: u8| #[trigger]
        with_value(after, channel, value) == with_value(sorted, channel, value) by {
        assert(with_value(after, channel, value) == with_value(before, channel, value));
        assert(with_value(sorted, channel, value) == with_value(before, channel, value));
    }
    lemma_ascending_groups_unique(after, sorted, channel);
}

/// Sorting colours that already ascend changes nothing.
pub proof fn lemma_sorted_of_ascending(colors: Seq<Color>, channel: ColorChannel)
    requires
        ascending_by(colors, channel),
    ensures
        sorted_by_channel(colors, channel) == colors,
{
    lemma_stable_sort_unique(colors, colors, channel);
}

/// Sorting two colours puts the one with the smaller value first and leaves
/// them as they are where the values agree.
pub proof fn lemma_sorted_pair(first: Color, second: Color, channel: ColorChannel)
    ensures
        sorted_by_channel(seq![first, second], channel) == if first.channel(channel)
            <= second.channel(channel) {
            seq![first, second]
        } else {
            seq![second, first]
        },
{
    let before = seq![first, second];
    if first.channel(channel) <= second.channel(channel) {
        lemma_sorted_of_ascending(before, channel);
    } else {
        let after = seq![second, first];
        assert forall|value: u8| #[trigger]
            with_value(after, channel, value) == with_value(before, channel, value) by {
            let pred = has_value(channel, value);
            let none = Seq::<Color>::empty();
            lemma_filter_keeps_none(none, pred);
            none.lemma_filter_push(first, pred);
            none.lemma_filter_push(second, pred);
            none.push(first).lemma_filter_push(second, pred);
            none.push(second).lemma_filter_push(first, pred);
            assert(none.push(first).push(second) == before);
            assert(none.push(second).push(first) == after);
        }
        lemma_stable_sort_unique(before, after, channel);
    }
}

} // verus!
