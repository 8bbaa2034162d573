use iris_lib::color::Color;
use iris_lib::color_bucket::ColorBucket;

fn bucket_from(colors: Vec<Color>) -> ColorBucket {
    ColorBucket::from_pixels(colors).expect("the colours are not empty")
}

fn opaque(r: u8, g: u8, b: u8) -> Color {
    Color { r, g, b, a: 255 }
}

fn pseudo_random_colors(count: usize, seed: u32) -> Vec<Color> {
    let mut state = seed;
    let mut colors = Vec::with_capacity(count);
    for _ in 0..count {
        let mut channels = [0u8; 4];
        for channel in channels.iter_mut() {
            state = state.wrapping_mul(22_695_477).wrapping_add(1);
            *channel = (state >> 23) as u8;
        }
        colors.push(Color { r: channels[0], g: channels[1], b: channels[2], a: channels[3] });
    }
    colors
}

#[test]
fn make_palette_without_rounds_is_the_mean_colour() {
    let mut bucket = bucket_from(vec![opaque(0, 10, 20), opaque(100, 30, 21), opaque(200, 20, 25)]);
    assert_eq!(bucket.make_palette(0), vec![opaque(100, 20, 22)]);
    assert_eq!(
        bucket.colors(),
        &vec![opaque(0, 10, 20), opaque(100, 30, 21), opaque(200, 20, 25)]
    );
}

#[test]
fn make_palette_of_two_pixels_puts_the_higher_value_first() {
    let low = opaque(10, 200, 0);
    let high = opaque(90, 190, 0);
    assert_eq!(bucket_from(vec![low, high]).make_palette(1), vec![high, low]);
    assert_eq!(bucket_from(vec![high, low]).make_palette(1), vec![high, low]);
}

#[test]
fn make_palette_of_two_pixels_splits_on_the_widest_channel() {
    let first = opaque(10, 0, 200);
    let second = opaque(20, 0, 100);
    assert_eq!(bucket_from(vec![first, second]).make_palette(1), vec![first, second]);
    assert_eq!(bucket_from(vec![second, first]).make_palette(1), vec![first, second]);
}

#[test]
fn make_palette_of_two_neighbouring_values_still_splits() {
    let low = opaque(0, 7, 7);
    let high = opaque(1, 7, 7);
    assert_eq!(bucket_from(vec![low, high]).make_palette(1), vec![high, low]);
    let low = opaque(254, 7, 7);
    let high = opaque(255, 7, 7);
    assert_eq!(bucket_from(vec![low, high]).make_palette(1), vec![high, low]);
}

#[test]
fn make_palette_of_two_pixels_that_differ_in_alpha_only_is_their_mean() {
    let first = Color { r: 5, g: 6, b: 7, a: 0 };
    let second = Color { r: 5, g: 6, b: 7, a: 255 };
    assert_eq!(
        bucket_from(vec![first, second]).make_palette(1),
        vec![Color { r: 5, g: 6, b: 7, a: 127 }]
    );
}

#[test]
fn make_palette_of_equal_colours_is_that_colour() {
    let color = Color { r: 12, g: 34, b: 56, a: 78 };
    for rounds in 0..=4u8 {
        assert_eq!(bucket_from(vec![color; 9]).make_palette(rounds), vec![color]);
    }
}

#[test]
fn make_palette_of_a_full_split_has_two_to_the_rounds_colours() {
    let colors = vec![opaque(0, 0, 0), opaque(10, 0, 0), opaque(20, 0, 0), opaque(30, 0, 0)];
    assert_eq!(
        bucket_from(colors.clone()).make_palette(1),
        vec![opaque(25, 0, 0), opaque(5, 0, 0)]
    );
    assert_eq!(
        bucket_from(colors.clone()).make_palette(2),
        vec![opaque(30, 0, 0), opaque(20, 0, 0), opaque(10, 0, 0), opaque(0, 0, 0)]
    );
    assert_eq!(
        bucket_from(colors).make_palette(3),
        vec![opaque(30, 0, 0), opaque(20, 0, 0), opaque(10, 0, 0), opaque(0, 0, 0)]
    );
}

#[test]
fn make_palette_changes_channel_between_rounds() {
    let colors = vec![
        opaque(0, 0, 0),
        opaque(0, 100, 0),
        opaque(200, 0, 0),
        opaque(200, 100, 0),
    ];
    assert_eq!(
        bucket_from(colors).make_palette(2),
        vec![opaque(200, 100, 0), opaque(200, 0, 0), opaque(0, 100, 0), opaque(0, 0, 0)]
    );
}

#[test]
fn make_palette_leaves_the_bucket_sorted_by_the_widest_channel() {
    let mut bucket = bucket_from(vec![opaque(3, 90, 0), opaque(2, 10, 0), opaque(1, 50, 0)]);
    bucket.make_palette(2);
    assert_eq!(bucket.colors(), &vec![opaque(2, 10, 0), opaque(1, 50, 0), opaque(3, 90, 0)]);
}

#[test]
fn make_palette_holds_between_one_and_two_to_the_rounds_colours() {
    for seed in 0..30u32 {
        let count = 1 + (seed as usize * 13) % 200;
        for rounds in 0..=4u8 {
            let mut bucket = bucket_from(pseudo_random_colors(count, seed));
            let palette = bucket.make_palette(rounds);
            assert!(!palette.is_empty());
            assert!(palette.len() <= 1 << rounds);
            assert!(palette.len() <= count);
        }
    }
}

#[test]
fn make_palette_is_the_upper_palette_then_the_lower_palette() {
    for seed in 40..60u32 {
        let colors = pseudo_random_colors(64, seed);
        for rounds in 1..=4u8 {
            let whole = bucket_from(colors.clone()).make_palette(rounds);
            let (above, below) = bucket_from(colors.clone()).median_cut();
            let mut parts = vec![];
            if let Some(mut above) = above {
                parts.extend(above.make_palette(rounds - 1));
            }
            if let Some(mut below) = below {
                parts.extend(below.make_palette(rounds - 1));
            }
            assert_eq!(whole, parts);
        }
    }
}

#[test]
fn recurse_appends_to_what_the_result_holds() {
    let marker = Color { r: 1, g: 1, b: 1, a: 1 };
    let mut result = vec![marker];
    let mut bucket = bucket_from(vec![opaque(0, 0, 9), opaque(0, 0, 1)]);
    bucket.recurse(1, &mut result);
    assert_eq!(result, vec![marker, opaque(0, 0, 9), opaque(0, 0, 1)]);
    bucket.recurse(0, &mut result);
    assert_eq!(result, vec![marker, opaque(0, 0, 9), opaque(0, 0, 1), opaque(0, 0, 5)]);
}

#[test]
fn recurse_without_rounds_leaves_the_bucket_as_it_is() {
    let colors = vec![opaque(9, 0, 0), opaque(1, 0, 0)];
    let mut bucket = bucket_from(colors.clone());
    let mut result = vec![];
    bucket.recurse(0, &mut result);
    assert_eq!(result, vec![opaque(5, 0, 0)]);
    assert_eq!(bucket.colors(), &colors);
}
