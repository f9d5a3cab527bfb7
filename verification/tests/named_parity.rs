use limbo::named_color::NamedColor;
use limbo::rgb_color::RgbColor;
use limbo::text_color::TextColor;

struct Hsv {
    hue: f32,
    saturation: f32,
    value: f32,
}

fn to_hsv(rgb: RgbColor) -> Hsv {
    let red = f32::from(rgb.red) / 255.0;
    let green = f32::from(rgb.green) / 255.0;
    let blue = f32::from(rgb.blue) / 255.0;
    let max = red.max(green).max(blue);
    let min = red.min(green).min(blue);
    let span = max - min;
    let hue = if span == 0.0 {
        0.0
    } else if max == red {
        ((green - blue) / span).rem_euclid(6.0)
    } else if max == green {
        (blue - red) / span + 2.0
    } else {
        (red - green) / span + 4.0
    } / 6.0;
    Hsv { hue, saturation: if max == 0.0 { 0.0 } else { span / max }, value: max }
}

fn distance_squared(left: &Hsv, right: &Hsv) -> f32 {
    let hue_gap = (left.hue - right.hue).abs();
    let hue_distance = 3.0 * hue_gap.min(1.0 - hue_gap);
    let saturation_gap = left.saturation - right.saturation;
    let value_gap = left.value - right.value;
    hue_distance * hue_distance + saturation_gap * saturation_gap + value_gap * value_gap
}

fn nearest_expected(rgb: RgbColor) -> NamedColor {
    let target = to_hsv(rgb);
    let mut best = NamedColor::Black;
    let mut best_distance = f32::MAX;
    for candidate in NamedColor::ALL {
        let distance = distance_squared(&target, &to_hsv(TextColor::Named(candidate).rgb()));
        if distance < best_distance {
            best_distance = distance;
            best = candidate;
        }
    }
    best
}

#[test]
fn given_a_dense_grid_of_colours_when_reduced_then_the_native_single_precision_choice_is_made() {
    let mut mismatches = Vec::new();
    for red in (0..=255u16).step_by(3) {
        for green in (0..=255u16).step_by(3) {
            for blue in (0..=255u16).step_by(3) {
                let rgb = RgbColor::new(red as u8, green as u8, blue as u8);
                let found = TextColor::Rgb(rgb).to_named();
                let expected = nearest_expected(rgb);
                if found != expected {
                    mismatches.push((red, green, blue, found, expected));
                }
            }
        }
    }
    assert!(mismatches.is_empty(), "{} mismatches, first {:?}", mismatches.len(), &mismatches[..mismatches.len().min(5)]);
}
