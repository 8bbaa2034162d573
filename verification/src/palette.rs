//! The palette that median cut yields, as a function of the colours and the
//! number of splits.

use vstd::prelude::*;
use vstd::arithmetic::power2::lemma2_to64;
use vstd::arithmetic::power2::lemma_pow2_pos;
use vstd::arithmetic::power2::lemma_pow2_unfold;
use vstd::arithmetic::power2::pow2;
use crate::channel_stats::channel_median;
use crate::channel_stats::channel_range;
use crate::channel_stats::channel_values;
use crate::channel_stats::highest;
use crate::channel_stats::lemma_mean_color_of_copies;
use crate::channel_stats::lowest;
use crate::channel_stats::mean_color;
use crate::channel_stats::widest_channel;
use crate::color::Color;
use crate::color::ColorChannel;
use crate::filters::lemma_filter_keeps_all;
use crate::filters::lemma_filter_keeps_none;
use crate::filters::lemma_filter_split;
use crate::sorting::lemma_sorted_by_channel_is_stable_sort;
use crate::sorting::lemma_sorted_of_ascending;
use crate::sorting::lemma_sorted_pair;
use crate::sorting::lemma_stable_sort_permutes;
use crate::sorting::sorted_by_channel;

verus! {

/// The test that a colour holds more than `threshold` on `channel`.
pub open spec fn exceeds(channel: ColorChannel, threshold: int) -> spec_fn(Color) -> bool {
    |color: Color| color.channel(channel) > threshold
}

/// The test that a colour holds at most `threshold` on `channel`.
pub open spec fn within(channel: ColorChannel, threshold: int) -> spec_fn(Color) -> bool {
    |color: Color| color.channel(channel) <= threshold
}

/// The upper part of a split: the colours that hold more than the median on
/// the widest channel, in ascending order of that channel.
pub open spec fn above_median(colors: Seq<Color>) -> Seq<Color> {
    let channel = widest_channel(colors);
    sorted_by_channel(colors, channel).filter(exceeds(channel, channel_median(colors, channel)))
}

/// The lower part of a split: the colours that hold at most the median on
/// the widest channel, in ascending order of that channel.
pub open spec fn below_median(colors: Seq<Color>) -> Seq<Color> {
    let channel = widest_channel(colors);
    sorted_by_channel(colors, channel).filter(within(channel, channel_median(colors, channel)))
}

/// The palette of `colors` after `depth` rounds of splitting. No colours give
/// no palette. With no round left the palette is the mean colour. Otherwise
/// it is the palette of the upper part followed by that of the lower part,
/// each with one round fewer; a part that is empty adds nothing.
pub open spec fn palette_of(colors: Seq<Color>, depth: nat) -> Seq<Color>
    decreases depth,
{
    if colors.len() == 0 {
        Seq::empty()
    } else if depth == 0 {
        seq![mean_color(colors)]
    } else {
        palette_of(above_median(colors), (depth - 1) as nat) + palette_of(
            below_median(colors),
            (depth - 1) as nat,
        )
    }
}

/// A split loses and invents nothing: every colour lands in exactly one
/// part, as often as it occurred, so the lengths of the parts add up.
pub proof fn lemma_split_keeps_every_color(colors: Seq<Color>)
    ensures
        above_median(colors).len() + below_median(colors).len() == colors.len(),
        above_median(colors).to_multiset().add(below_median(colors).to_multiset())
            == colors.to_multiset(),
{
    let channel = widest_channel(colors);
    let median = channel_median(colors, channel);
    let sorted = sorted_by_channel(colors, channel);
    lemma_sorted_by_channel_is_stable_sort(colors, channel);
    lemma_stable_sort_permutes(colors, sorted, channel);
    assert forall|color: Color| #[trigger]
        exceeds(channel, median)(color) != within(channel, median)(color) by {}
    lemma_filter_split(sorted, exceeds(channel, median), within(channel, median));
}

/// The median of a channel lies between the channel's least and greatest
/// value, and the sorted colours reach from the one to the other.
pub proof fn lemma_median_within_extremes(colors: Seq<Color>, channel: ColorChannel)
    requires
        colors.len() > 0,
    ensures
        sorted_by_channel(colors, channel).len() == colors.len(),
        sorted_by_channel(colors, channel).first().channel(channel) <= channel_median(
            colors,
            channel,
        ) <= sorted_by_channel(colors, channel).last().channel(channel),
{
    let sorted = sorted_by_channel(colors, channel);
    lemma_sorted_by_channel_is_stable_sort(colors, channel);
    lemma_stable_sort_permutes(colors, sorted, channel);
    let values = channel_values(sorted, channel);
    let mid = values.len() as int / 2;
    let last = values.len() - 1;
    assert(values[0] == sorted[0].channel(channel));
    assert(values[last] == sorted[last].channel(channel));
    assert(values[mid] == sorted[mid].channel(channel));
    if values.len() % 2 == 0 {
        assert(values[mid - 1] == sorted[mid - 1].channel(channel));
    }
}

/// The lower part of a split is never empty: the colour with the least value
/// on the widest channel is in it.
pub proof fn lemma_lower_part_not_empty(colors: Seq<Color>)
    requires
        colors.len() > 0,
    ensures
        below_median(colors).len() > 0,
{
    let channel = widest_channel(colors);
    let sorted = sorted_by_channel(colors, channel);
    let keep = within(channel, channel_median(colors, channel));
    lemma_median_within_extremes(colors, channel);
    assert(keep(sorted[0]));
    sorted.lemma_filter_contains(keep, 0);
}

/// A single colour is not split: its upper part is empty and its lower part
/// is the colour itself.
pub proof fn lemma_split_of_one(color: Color)
    ensures
        above_median(seq![color]) == Seq::<Color>::empty(),
        below_median(seq![color]) == seq![color],
{
    let colors = seq![color];
    let channel = widest_channel(colors);
    lemma_sorted_of_ascending(colors, channel);
    assert(channel_values(colors, channel)[0] == color.channel(channel));
    lemma_filter_keeps_none(colors, exceeds(channel, channel_median(colors, channel)));
    lemma_filter_keeps_all(colors, within(channel, channel_median(colors, channel)));
}

/// However many rounds are left, the palette of a single colour is that
/// colour.
pub proof fn lemma_palette_of_one(color: Color, depth: nat)
    ensures
        palette_of(seq![color], depth) == seq![color],
    decreases depth,
{
    let colors = seq![color];
    if depth == 0 {
        assert(mean_color(colors) == color) by {
            lemma_mean_color_of_copies(colors, color);
        }
    } else {
        let rest = (depth - 1) as nat;
        assert(above_median(colors) == Seq::<Color>::empty() && below_median(colors) == colors) by {
            lemma_split_of_one(color);
        }
        lemma_palette_of_one(color, rest);
        assert(palette_of(colors, depth) == palette_of(Seq::<Color>::empty(), rest) + palette_of(
            colors,
            rest,
        ));
        assert(Seq::<Color>::empty() + colors == colors);
    }
}

/// Two colours that differ in red, green or blue differ on their widest
/// channel, and the split parts them: the one with the greater value there
/// is the upper part, the other the lower part.
pub proof fn lemma_split_of_two(first: Color, second: Color)
    requires
        first.r != second.r || first.g != second.g || first.b != second.b,
    ensures
        first.channel(widest_channel(seq![first, second])) != second.channel(
            widest_channel(seq![first, second]),
        ),
        above_median(seq![first, second]) == if first.channel(
            widest_channel(seq![first, second]),
        ) > second.channel(widest_channel(seq![first, second])) {
            seq![first]
        } else {
            seq![second]
        },
        below_median(seq![first, second]) == if first.channel(
            widest_channel(seq![first, second]),
        ) > second.channel(widest_channel(seq![first, second])) {
            seq![second]
        } else {
            seq![first]
        },
{
    let colors = seq![first, second];
    let channel = widest_channel(colors);
    assert(first.channel(channel) != second.channel(channel)) by {
        lemma_pair_range(first, second, ColorChannel::R);
        lemma_pair_range(first, second, ColorChannel::G);
        lemma_pair_range(first, second, ColorChannel::B);
    }
    let (low, high) = if first.channel(channel) < second.channel(channel) {
        (first, second)
    } else {
        (second, first)
    };
    let sorted = seq![low, high];
    assert(sorted_by_channel(colors, channel) == sorted) by {
        lemma_sorted_pair(first, second, channel);
    }
    let median = channel_median(colors, channel);
    assert(low.channel(channel) <= median < high.channel(channel)) by {
        let values = channel_values(sorted, channel);
        assert(values[0] == low.channel(channel) && values[1] == high.channel(channel));
    }
    lemma_filter_pair(low, high, exceeds(channel, median));
    lemma_filter_pair(low, high, within(channel, median));
}

/// What a filter leaves of two elements.
proof fn lemma_filter_pair(first: Color, second: Color, pred: spec_fn(Color) -> bool)
    ensures
        seq![first, second].filter(pred) == if pred(first) && pred(second) {
            seq![first, second]
        } else if pred(first) {
            seq![first]
        } else if pred(second) {
            seq![second]
        } else {
            Seq::<Color>::empty()
        },
{
    let none = Seq::<Color>::empty();
    lemma_filter_keeps_none(none, pred);
    none.lemma_filter_push(first, pred);
    none.push(first).lemma_filter_push(second, pred);
    assert(none.push(first).push(second) == seq![first, second]);
    assert(none.push(first) == seq![first]);
    assert(none.push(second) == seq![second]);
}

/// One round on two colours that differ in red, green or blue yields those
/// two colours, the one with the greater value on the widest channel first.
pub proof fn lemma_palette_of_two(first: Color, second: Color)
    requires
        first.r != second.r || first.g != second.g || first.b != second.b,
    ensures
        palette_of(seq![first, second], 1) == if first.channel(
            widest_channel(seq![first, second]),
        ) > second.channel(widest_channel(seq![first, second])) {
            seq![first, second]
        } else {
            seq![second, first]
        },
{
    let colors = seq![first, second];
    let channel = widest_channel(colors);
    let (low, high) = if first.channel(channel) > second.channel(channel) {
        (second, first)
    } else {
        (first, second)
    };
    assert(above_median(colors) == seq![high] && below_median(colors) == seq![low]) by {
        lemma_split_of_two(first, second);
    }
    lemma_palette_unfold(colors, 1);
    lemma_palette_of_one(high, 0);
    lemma_palette_of_one(low, 0);
    assert(seq![high] + seq![low] == seq![high, low]);
}

/// One step of `palette_of` on colours that are not empty, with a round left.
proof fn lemma_palette_unfold(colors: Seq<Color>, depth: nat)
    requires
        colors.len() > 0,
        depth > 0,
    ensures
        palette_of(colors, depth) == palette_of(above_median(colors), (depth - 1) as nat)
            + palette_of(below_median(colors), (depth - 1) as nat),
{
}

/// The range of a channel over two colours is the distance of their values.
proof fn lemma_pair_range(first: Color, second: Color, channel: ColorChannel)
    ensures
        channel_range(seq![first, second], channel) == if first.channel(channel)
            <= second.channel(channel) {
            second.channel(channel) - first.channel(channel)
        } else {
            first.channel(channel) - second.channel(channel)
        },
{
    let values = channel_values(seq![first, second], channel);
    assert(values[0] == first.channel(channel) && values[1] == second.channel(channel));
    assert(values.drop_last().drop_last().len() == 0);
    reveal_with_fuel(highest, 3);
    reveal_with_fuel(lowest, 3);
}

/// A palette of colours that are not empty holds at least one colour and at
/// most two to the power of the number of rounds.
pub proof fn lemma_palette_len(colors: Seq<Color>, depth: nat)
    requires
        colors.len() > 0,
    ensures
        1 <= palette_of(colors, depth).len() <= pow2(depth),
    decreases depth,
{
    lemma2_to64();
    if depth > 0 {
        let rest = (depth - 1) as nat;
        lemma_lower_part_not_empty(colors);
        lemma_palette_len(below_median(colors), rest);
        if above_median(colors).len() > 0 {
            lemma_palette_len(above_median(colors), rest);
        }
        lemma_pow2_unfold(depth);
        lemma_pow2_pos(rest);
    }
}

/// Whether every split within `depth` rounds yields two parts.
pub open spec fn splits_fully(colors: Seq<Color>, depth: nat) -> bool
    decreases depth,
{
    depth == 0 || (above_median(colors).len() > 0 && splits_fully(
        above_median(colors),
        (depth - 1) as nat,
    ) && splits_fully(below_median(colors), (depth - 1) as nat))
}

/// A palette holds two to the power of the number of rounds colours if every
/// split yields two parts, and fewer if one does not.
pub proof fn lemma_palette_len_of_full_split(colors: Seq<Color>, depth: nat)
    requires
        colors.len() > 0,
    ensures
        palette_of(colors, depth).len() == pow2(depth) <==> splits_fully(colors, depth),
    decreases depth,
{
    lemma2_to64();
    if depth > 0 {
        let rest = (depth - 1) as nat;
        lemma_palette_unfold(colors, depth);
        lemma_lower_part_not_empty(colors);
        lemma_palette_len(below_median(colors), rest);
        lemma_palette_len_of_full_split(below_median(colors), rest);
        if above_median(colors).len() > 0 {
            lemma_palette_len(above_median(colors), rest);
            lemma_palette_len_of_full_split(above_median(colors), rest);
        }
        lemma_pow2_unfold(depth);
        lemma_pow2_pos(rest);
    }
}

} // verus!
