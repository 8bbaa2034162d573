//! A bucket of colours and the median cut that turns it into a palette.

use vstd::prelude::*;
use crate::channel_stats::channel_mean_of;
use crate::channel_stats::channel_median;
use crate::channel_stats::channel_range;
use crate::channel_stats::channel_values;
use crate::channel_stats::highest;
use crate::channel_stats::lemma_extremes;
use crate::channel_stats::lowest;
use crate::channel_stats::mean_color;
use crate::channel_stats::ranges_of;
use crate::channel_stats::widest_channel;
use crate::color::Color;
use crate::color::ColorChannel;
use crate::palette::above_median;
use crate::palette::below_median;
use crate::palette::exceeds;
use crate::palette::lemma_split_keeps_every_color;
use crate::palette::palette_of;
use crate::palette::within;
use crate::sorting::is_stable_sort;
use crate::sorting::lemma_stable_sort_permutes;
use crate::sorting::lemma_stable_sort_unique;
use crate::sorting::sort_by_channel_value;
use crate::sorting::sorted_by_channel;
use crate::utils::mean;
use crate::utils::sum_of;

verus! {

/// A collection of colours that is never empty. Its view is the sequence of
/// its colours.
#[derive(Debug, PartialEq)]
pub struct ColorBucket {
    colors: Vec<Color>,
}

impl View for ColorBucket {
    type V = Seq<Color>;

    closed spec fn view(&self) -> Seq<Color> {
        self.colors@
    }
}

/// The colours of a bucket that may be absent: none where it is.
pub open spec fn colors_of(bucket: Option<ColorBucket>) -> Seq<Color> {
    match bucket {
        Some(bucket) => bucket@,
        None => Seq::empty(),
    }
}

impl ColorBucket {
    #[verifier::type_invariant]
    spec fn never_empty(self) -> bool {
        self.colors@.len() > 0
    }

    /// Makes a bucket that holds exactly `pixels`, in their order, or `None`
    /// where there are no pixels.
    pub fn from_pixels(pixels: Vec<Color>) -> (bucket: Option<Self>)
        ensures
            bucket is None <==> pixels@.len() == 0,
            bucket matches Some(b) ==> b@ == pixels@,
    {
        if pixels.is_empty() {
            None
        } else {
            Some(Self { colors: pixels })
        }
    }

    /// The colours of the bucket, of which there is at least one.
    pub fn colors(&self) -> (colors: &Vec<Color>)
        ensures
            colors@ == self@,
            colors@.len() > 0,
    {
        proof {
            use_type_invariant(self);
        }
        &self.colors
    }

    /// Returns the value on `channel` of the colour at `index`.
    pub fn channel_value_by_index(&self, index: usize, channel: ColorChannel) -> (value: u8)
        requires
            index < self@.len(),
        ensures
            value == self@[index as int].channel(channel),
    {
        self.colors[index][channel]
    }

    /// Returns the values that the colours hold on `channel`, in their order.
    pub fn channel_values(&self, channel: ColorChannel) -> (values: Vec<u8>)
        ensures
            values@ == channel_values(self@, channel),
    {
        let count: usize = self.colors.len();
        let mut values: Vec<u8> = Vec::with_capacity(count);
        let mut i: usize = 0;
        while i < count
            invariant
                count == self.colors@.len(),
                i <= count,
                values@ == channel_values(self.colors@.take(i as int), channel),
            decreases count - i,
        {
            values.push(self.colors[i][channel]);
            i = i + 1;
            assert(values@ == channel_values(self.colors@.take(i as int), channel));
        }
        assert(self.colors@.take(count as int) == self.colors@);
        values
    }

    /// Returns the mean of `channel` over the bucket, rounded down.
    pub fn channel_mean(&self, channel: ColorChannel) -> (average: u8)
        ensures
            average == channel_mean_of(self@, channel),
    {
        proof {
            use_type_invariant(self);
        }
        let values = self.channel_values(channel);
        mean(values.as_slice())
    }

    /// Returns the colour whose every channel is the mean of that channel
    /// over the bucket.
    pub fn color_mean(&self) -> (color: Color)
        ensures
            color == mean_color(self@),
    {
        let r = self.channel_mean(ColorChannel::R);
        let g = self.channel_mean(ColorChannel::G);
        let b = self.channel_mean(ColorChannel::B);
        let a = self.channel_mean(ColorChannel::A);
        Color { r, g, b, a }
    }

    /// Returns the spread of `channel` over the bucket: its greatest value
    /// less its least.
    pub fn channel_range(&self, channel: ColorChannel) -> (range: u8)
        ensures
            range == channel_range(self@, channel),
    {
        proof {
            use_type_invariant(self);
        }
        let count: usize = self.colors.len();
        let mut high: u8 = 0;
        let mut low: u8 = 255;
        let mut i: usize = 0;
        while i < count
            invariant
                count == self.colors@.len(),
                i <= count,
                high == highest(channel_values(self.colors@.take(i as int), channel)),
                low == lowest(channel_values(self.colors@.take(i as int), channel)),
            decreases count - i,
        {
            let value = self.colors[i][channel];
            proof {
                let seen = channel_values(self.colors@.take(i as int), channel);
                let next = channel_values(self.colors@.take(i + 1), channel);
                assert(next.drop_last() == seen);
                assert(next.last() == value);
            }
            if value > high {
                high = value;
            }
            if value < low {
                low = value;
            }
            i = i + 1;
        }
        proof {
            assert(self.colors@.take(count as int) == self.colors@);
            let values = channel_values(self@, channel);
            lemma_extremes(values);
            assert(lowest(values) <= values[0] <= highest(values));
        }
        high - low
    }

    /// Returns the range of each channel, held in the channel's own field.
    pub fn color_ranges(&self) -> (ranges: Color)
        ensures
            ranges == ranges_of(self@),
    {
        Color {
            r: self.channel_range(ColorChannel::R),
            g: self.channel_range(ColorChannel::G),
            b: self.channel_range(ColorChannel::B),
            a: self.channel_range(ColorChannel::A),
        }
    }

    /// Returns the channel, among red, green and blue, on which the bucket
    /// spreads most. Red wins every tie and green wins a tie with blue.
    pub fn highest_range_channel(&self) -> (channel: ColorChannel)
        ensures
            channel == widest_channel(self@),
    {
        let ranges = self.color_ranges();
        let mut highest_range_channel = ColorChannel::R;
        let mut highest_value = ranges.r;

        if ranges.g > highest_value {
            highest_range_channel = ColorChannel::G;
            highest_value = ranges.g;
        }
        if ranges.b > highest_value {
            highest_range_channel = ColorChannel::B;
        }
        highest_range_channel
    }

    /// Sorts the colours by their value on `channel`. Colours that agree on
    /// it keep their order.
    pub fn sort_colors(&mut self, channel: ColorChannel)
        ensures
            final(self)@ == sorted_by_channel(old(self)@, channel),
    {
        proof {
            use_type_invariant(&*self);
            assert forall|after: Seq<Color>| #[trigger]
                is_stable_sort(self.colors@, after, channel) implies after.len() > 0 by {
                lemma_stable_sort_permutes(self.colors@, after, channel);
            }
        }
        sort_by_channel_value(&mut self.colors, channel);
        proof {
            lemma_stable_sort_unique(old(self)@, self@, channel);
        }
    }

    /// Sorts the colours by `channel` and returns the median of their values
    /// on it: the middle value of an odd count, the mean of the two middle
    /// values, rounded down, of an even count.
    pub fn color_median(&mut self, channel: ColorChannel) -> (median: u8)
        ensures
            final(self)@ == sorted_by_channel(old(self)@, channel),
            median == channel_median(old(self)@, channel),
    {
        self.sort_colors(channel);
        proof {
            use_type_invariant(&*self);
        }
        let mid: usize = self.colors.len() / 2;
        if self.colors.len() % 2 == 0 {
            let middle = ColorBucket::from_pixels(vec![self.colors[mid - 1], self.colors[mid]]);
            let bucket = middle.unwrap();
            proof {
                let values = channel_values(bucket@, channel);
                assert(values.drop_last().drop_last().len() == 0);
                reveal_with_fuel(sum_of, 3);
                assert(sum_of(values) == values[0] + values[1]);
            }
            bucket.channel_mean(channel)
        } else {
            self.channel_value_by_index(mid, channel)
        }
    }

    /// Splits the bucket at the median of its widest channel. The colours
    /// are sorted by that channel; those that hold more than the median go,
    /// in that order, to the first bucket, the others to the second. A side
    /// that gets no colour is `None`. Every colour lands on exactly one side.
    pub fn median_cut(&mut self) -> (halves: (Option<ColorBucket>, Option<ColorBucket>))
        ensures
            final(self)@ == sorted_by_channel(old(self)@, widest_channel(old(self)@)),
            colors_of(halves.0) == above_median(old(self)@),
            colors_of(halves.1) == below_median(old(self)@),
            halves.0 is Some <==> above_median(old(self)@).len() > 0,
            halves.1 is Some <==> below_median(old(self)@).len() > 0,
            colors_of(halves.0).len() + colors_of(halves.1).len() == old(self)@.len(),
            colors_of(halves.0).to_multiset().add(colors_of(halves.1).to_multiset()) == old(
                self,
            )@.to_multiset(),
    {
        let highest_range_channel = self.highest_range_channel();
        let median = self.color_median(highest_range_channel);
        let mut above_median: Vec<Color> = Vec::new();
        let mut below_median: Vec<Color> = Vec::new();
        let count: usize = self.colors.len();
        let ghost upper = exceeds(highest_range_channel, median as int);
        let ghost lower = within(highest_range_channel, median as int);
        let mut i: usize = 0;
        while i < count
            invariant
                count == self.colors@.len(),
                i <= count,
                upper == exceeds(highest_range_channel, median as int),
                lower == within(highest_range_channel, median as int),
                above_median@ == self.colors@.take(i as int).filter(upper),
                below_median@ == self.colors@.take(i as int).filter(lower),
            decreases count - i,
        {
            let color = self.colors[i];
            proof {
                let seen = self.colors@.take(i as int);
                assert(self.colors@.take(i + 1) == seen.push(color));
                seen.lemma_filter_push(color, upper);
                seen.lemma_filter_push(color, lower);
            }
            if color[highest_range_channel] > median {
                above_median.push(color);
            } else {
                below_median.push(color);
            }
            i = i + 1;
        }
        proof {
            assert(self.colors@.take(count as int) == self.colors@);
            lemma_split_keeps_every_color(old(self)@);
        }
        (ColorBucket::from_pixels(above_median), ColorBucket::from_pixels(below_median))
    }

    /// Appends to `result` the palette of the bucket after `iter_count`
    /// rounds of splitting: with no round left its mean colour, otherwise
    /// the palette of the upper part of its split, then that of the lower
    /// part, each with one round fewer. A bucket that is split is left sorted
    /// by its widest channel.
    pub fn recurse(&mut self, iter_count: u8, result: &mut Vec<Color>)
        ensures
            final(result)@ == old(result)@ + palette_of(old(self)@, iter_count as nat),
            final(self)@ == if iter_count == 0 {
                old(self)@
            } else {
                sorted_by_channel(old(self)@, widest_channel(old(self)@))
            },
        decreases iter_count,
    {
        proof {
            use_type_invariant(&*self);
        }
        if iter_count == 0 {
            result.push(self.color_mean());
            assert(result@ == old(result)@ + palette_of(old(self)@, 0));
        } else {
            let (above, below) = self.median_cut();
            let ghost upper = palette_of(above_median(old(self)@), (iter_count - 1) as nat);
            let ghost lower = palette_of(below_median(old(self)@), (iter_count - 1) as nat);
            match above {
                Some(mut bucket) => {
                    bucket.recurse(iter_count - 1, result);
                },
                None => {},
            }
            assert(result@ == old(result)@ + upper);
            match below {
                Some(mut bucket) => {
                    bucket.recurse(iter_count - 1, result);
                },
                None => {},
            }
            assert(result@ == old(result)@ + (upper + lower));
        }
    }

    /// Returns the palette of the bucket after `iter_count` rounds of
    /// splitting, the colours of the upper parts first. A bucket that is
    /// split is left sorted by its widest channel.
    pub fn make_palette(&mut self, iter_count: u8) -> (palette: Vec<Color>)
        ensures
            palette@ == palette_of(old(self)@, iter_count as nat),
            final(self)@ == if iter_count == 0 {
                old(self)@
            } else {
                sorted_by_channel(old(self)@, widest_channel(old(self)@))
            },
    {
        let mut result: Vec<Color> = Vec::new();
        self.recurse(iter_count, &mut result);
        assert(result@ == Seq::<Color>::empty() + palette_of(old(self)@, iter_count as nat));
        result
    }
}

} // verus!
