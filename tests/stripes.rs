use mirafetch::color::Color;
use mirafetch::stripes::{length_to_colors, stripe_weights, weights_to_colors};

#[test]
fn six_colours_twenty_cells() {
    let w = stripe_weights(20, 6);
    assert_eq!(w, vec![4, 3, 3, 3, 3, 4]);
    assert_eq!(w.iter().sum::<usize>(), 20);
}

#[test]
fn five_colours_seventeen_cells() {
    assert_eq!(stripe_weights(17, 5), vec![4, 3, 3, 3, 4]);
}

#[test]
fn five_colours_eighteen_cells_bumps_centre() {
    assert_eq!(stripe_weights(18, 5), vec![4, 3, 4, 3, 4]);
}

#[test]
fn weights_sum_to_length() {
    for p in 1..9usize {
        for len in 0..40usize {
            let w = stripe_weights(len, p);
            assert_eq!(w.len(), p);
            assert_eq!(w.iter().sum::<usize>(), len);
        }
    }
}

#[test]
fn weights_are_symmetric_for_odd_palettes() {
    for len in 0..30usize {
        let w = stripe_weights(len, 7);
        for i in 0..7 {
            assert_eq!(w[i], w[6 - i]);
        }
    }
}

#[test]
fn even_palette_with_odd_leftover_is_not_symmetric() {
    assert_eq!(stripe_weights(1, 2), vec![0, 1]);
}

#[test]
fn zero_length_and_single_colour() {
    assert_eq!(stripe_weights(0, 4), vec![0, 0, 0, 0]);
    assert_eq!(stripe_weights(9, 1), vec![9]);
}

#[test]
fn colours_expand_by_weight() {
    let palette = vec![Color::Red, Color::White, Color::Blue];
    let out = weights_to_colors(&palette, &vec![2, 0, 1]);
    assert_eq!(out, vec![Color::Red, Color::Red, Color::Blue]);
}

#[test]
fn length_to_colors_has_length_entries() {
    let palette = vec![
        Color::Rgb { r: 91, g: 206, b: 250 },
        Color::Rgb { r: 245, g: 169, b: 184 },
        Color::White,
        Color::Rgb { r: 245, g: 169, b: 184 },
        Color::Rgb { r: 91, g: 206, b: 250 },
    ];
    let out = length_to_colors(&palette, 7);
    assert_eq!(out.len(), 7);
    // weights [2, 1, 1, 1, 2]
    assert_eq!(out[0], palette[0]);
    assert_eq!(out[1], palette[0]);
    assert_eq!(out[2], palette[1]);
    assert_eq!(out[3], Color::White);
    assert_eq!(out[4], palette[3]);
    assert_eq!(out[5], palette[4]);
    assert_eq!(out[6], palette[4]);
}
