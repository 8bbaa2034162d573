//! Statistics of one channel over a sequence of colours: its values, their
//! range, median and mean.

use vstd::prelude::*;
use crate::color::Color;
use crate::color::ColorChannel;
use crate::sorting::sorted_by_channel;
use crate::utils::lemma_mean_of_constant;
use crate::utils::lemma_mean_within_bounds;
use crate::utils::mean_of;

verus! {

/// The values that the colours hold on `channel`, in their order.
pub open spec fn channel_values(colors: Seq<Color>, channel: ColorChannel) -> Seq<u8> {
    Seq::new(colors.len(), |i: int| colors[i].channel(channel))
}

/// The greatest of `values`; 0 where there are none.
pub open spec fn highest(values: Seq<u8>) -> u8
    decreases values.len(),
{
    if values.len() == 0 {
        0
    } else if values.last() > highest(values.drop_last()) {
        values.last()
    } else {
        highest(values.drop_last())
    }
}

/// The least of `values`; 255 where there are none.
pub open spec fn lowest(values: Seq<u8>) -> u8
    decreases values.len(),
{
    if values.len() == 0 {
        255
    } else if values.last() < lowest(values.drop_last()) {
        values.last()
    } else {
        lowest(values.drop_last())
    }
}

/// The spread of `channel` over the colours: its greatest value less its
/// least.
pub open spec fn channel_range(colors: Seq<Color>, channel: ColorChannel) -> int {
    highest(channel_values(colors, channel)) - lowest(channel_values(colors, channel))
}

/// The range of each channel, held in the channel's own field.
pub open spec fn ranges_of(colors: Seq<Color>) -> Color {
    Color {
        r: channel_range(colors, ColorChannel::R) as u8,
        g: channel_range(colors, ColorChannel::G) as u8,
        b: channel_range(colors, ColorChannel::B) as u8,
        a: channel_range(colors, ColorChannel::A) as u8,
    }
}

/// The channel to split on, given the ranges of red, green and blue: the one
/// with the greatest range, where red wins every tie and green wins a tie
/// with blue. Alpha is never chosen.
pub open spec fn widest_of(red: int, green: int, blue: int) -> ColorChannel {
    if green > red {
        if blue > green {
            ColorChannel::B
        } else {
            ColorChannel::G
        }
    } else if blue > red {
        ColorChannel::B
    } else {
        ColorChannel::R
    }
}

/// The channel, among red, green and blue, on which the colours spread most.
pub open spec fn widest_channel(colors: Seq<Color>) -> ColorChannel {
    widest_of(
        channel_range(colors, ColorChannel::R),
        channel_range(colors, ColorChannel::G),
        channel_range(colors, ColorChannel::B),
    )
}

/// The median of values that ascend: the middle one of an odd count, the
/// mean of the two middle ones, rounded down, of an even count.
pub open spec fn median_of_ascending(values: Seq<u8>) -> int
    recommends
        values.len() > 0,
{
    let mid = values.len() as int / 2;
    if values.len() % 2 == 0 {
        (values[mid - 1] + values[mid]) / 2
    } else {
        values[mid] as int
    }
}

/// The median of `channel` over the colours.
pub open spec fn channel_median(colors: Seq<Color>, channel: ColorChannel) -> int
    recommends
        colors.len() > 0,
{
    median_of_ascending(channel_values(sorted_by_channel(colors, channel), channel))
}

/// The mean of `channel` over the colours, rounded down.
pub open spec fn channel_mean_of(colors: Seq<Color>, channel: ColorChannel) -> int
    recommends
        colors.len() > 0,
{
    mean_of(channel_values(colors, channel))
}

/// The colour whose every channel is the mean of that channel over the
/// colours.
pub open spec fn mean_color(colors: Seq<Color>) -> Color
    recommends
        colors.len() > 0,
{
    Color {
        r: channel_mean_of(colors, ColorChannel::R) as u8,
        g: channel_mean_of(colors, ColorChannel::G) as u8,
        b: channel_mean_of(colors, ColorChannel::B) as u8,
        a: channel_mean_of(colors, ColorChannel::A) as u8,
    }
}

/// Of values that are not empty, the highest is one of them and none exceeds
/// it; the lowest is one of them and none is under it.
pub proof fn lemma_extremes(values: Seq<u8>)
    requires
        values.len() > 0,
    ensures
        values.contains(highest(values)),
        values.contains(lowest(values)),
        forall|i: int| 0 <= i < values.len() ==> lowest(values) <= #[trigger] values[i] <= highest(values),
    decreases values.len(),
{
    let rest = values.drop_last();
    let last = values.len() - 1;
    if rest.len() == 0 {
        assert(values[last] == highest(values));
        assert(values[last] == lowest(values));
    } else {
        lemma_extremes(rest);
        let i = choose|i: int| 0 <= i < rest.len() && rest[i] == highest(rest);
        let j = choose|j: int| 0 <= j < rest.len() && rest[j] == lowest(rest);
        assert(values[i] == rest[i] && values[j] == rest[j]);
        assert(values[last] == values.last());
        assert forall|k: int| 0 <= k < values.len() implies lowest(values) <= #[trigger] values[k]
            <= highest(values) by {
            if k < last {
                assert(values[k] == rest[k]);
            }
        }
    }
}

/// The range of a channel over colours that are not empty is a byte.
pub proof fn lemma_range_is_byte(colors: Seq<Color>, channel: ColorChannel)
    requires
        colors.len() > 0,
    ensures
        0 <= channel_range(colors, channel) <= 255,
{
    let values = channel_values(colors, channel);
    lemma_extremes(values);
    assert(lowest(values) <= values[0] <= highest(values));
}

/// The mean of a channel over colours that are not empty lies between the
/// channel's least and greatest value.
pub proof fn lemma_mean_within_extremes(colors: Seq<Color>, channel: ColorChannel)
    requires
        colors.len() > 0,
    ensures
        lowest(channel_values(colors, channel)) <= channel_mean_of(colors, channel) <= highest(
            channel_values(colors, channel),
        ),
{
    let values = channel_values(colors, channel);
    lemma_extremes(values);
    lemma_mean_within_bounds(values, lowest(values) as int, highest(values) as int);
}

/// The mean colour of copies of one colour is that colour.
pub proof fn lemma_mean_color_of_copies(colors: Seq<Color>, color: Color)
    requires
        colors.len() > 0,
        forall|i: int| 0 <= i < colors.len() ==> colors[i] == color,
    ensures
        mean_color(colors) == color,
{
    lemma_mean_of_constant(channel_values(colors, ColorChannel::R), color.r);
    lemma_mean_of_constant(channel_values(colors, ColorChannel::G), color.g);
    lemma_mean_of_constant(channel_values(colors, ColorChannel::B), color.b);
    lemma_mean_of_constant(channel_values(colors, ColorChannel::A), color.a);
}

/// The channel that is split on spreads at least as much as red, green and
/// blue do, and it is never alpha.
pub proof fn lemma_widest_channel_is_widest(colors: Seq<Color>)
    ensures
        widest_channel(colors) != ColorChannel::A,
        channel_range(colors, widest_channel(colors)) >= channel_range(colors, ColorChannel::R),
        channel_range(colors, widest_channel(colors)) >= channel_range(colors, ColorChannel::G),
        channel_range(colors, widest_channel(colors)) >= channel_range(colors, ColorChannel::B),
{
}

/// The tie-break of the split. Where red and green spread alike, green is
/// not chosen, and red is unless blue spreads more. Where green and blue
/// spread alike and more than red, green is chosen.
pub proof fn lemma_widest_channel_ties(colors: Seq<Color>)
    ensures
        channel_range(colors, ColorChannel::R) == channel_range(colors, ColorChannel::G)
            ==> widest_channel(colors) != ColorChannel::G,
        channel_range(colors, ColorChannel::R) == channel_range(colors, ColorChannel::G)
            && channel_range(colors, ColorChannel::B) <= channel_range(colors, ColorChannel::R)
            ==> widest_channel(colors) == ColorChannel::R,
        channel_range(colors, ColorChannel::G) == channel_range(colors, ColorChannel::B)
            && channel_range(colors, ColorChannel::G) > channel_range(colors, ColorChannel::R)
            ==> widest_channel(colors) == ColorChannel::G,
{
}

} // verus!
