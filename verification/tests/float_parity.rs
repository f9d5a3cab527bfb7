use limbo::binary64::{difference, from_u64, product, quotient, sum, Double};
use limbo::component::Component;
use limbo::component_content::ComponentContent;
use limbo::mini_message::parse_mini_message;
use limbo::rgb_color::RgbColor;
use limbo::text_color::TextColor;

fn to_float(d: Double) -> f64 {
    let magnitude = (d.significand as f64) * 2f64.powi(d.exponent as i32);
    if d.negative {
        -magnitude
    } else {
        magnitude
    }
}

fn integers() -> Vec<u64> {
    vec![0, 1, 2, 3, 5, 6, 7, 10, 11, 49, 100, 255, 256, 1000, 65535, 1 << 40, (1 << 53) + 1, u64::MAX]
}

#[test]
fn given_integers_when_converted_then_they_round_like_the_native_conversion() {
    for n in integers() {
        assert_eq!(to_float(from_u64(n)), n as f64, "{n}");
    }
}

#[test]
fn given_doubles_when_combined_then_each_operation_rounds_like_the_native_one() {
    let mut values = Vec::new();
    for a in integers() {
        for b in [1u64, 3, 7, 10, 255, 1000] {
            values.push(quotient(from_u64(a), from_u64(b)));
        }
    }
    for &x in &values {
        for &y in &values {
            let (fx, fy) = (to_float(x), to_float(y));
            assert_eq!(to_float(product(x, y)), fx * fy, "{fx} * {fy}");
            assert_eq!(to_float(sum(x, y)), fx + fy, "{fx} + {fy}");
            assert_eq!(to_float(difference(x, y)), fx - fy, "{fx} - {fy}");
            if y.significand != 0 {
                assert_eq!(to_float(quotient(x, y)), fx / fy, "{fx} / {fy}");
            }
        }
    }
}

fn gradient_expected(stops: &[RgbColor], position: usize, total: usize) -> RgbColor {
    if stops.len() == 1 || total <= 1 {
        return stops[0];
    }
    let progress = position as f64 / (total - 1) as f64;
    let segments = (stops.len() - 1) as f64;
    let scaled = progress * segments;
    let index = (scaled.floor() as usize).min(stops.len() - 2);
    let local = scaled - index as f64;
    let (start, end) = (stops[index], stops[index + 1]);
    let blend = |from: u8, to: u8| -> u8 {
        (f64::from(from) + (f64::from(to) - f64::from(from)) * local + 0.5).floor() as u8
    };
    RgbColor::new(
        blend(start.red, end.red),
        blend(start.green, end.green),
        blend(start.blue, end.blue),
    )
}

fn rainbow_expected(position: usize, total: usize) -> RgbColor {
    let hue = if total == 0 { 0.0 } else { position as f64 / total as f64 };
    let sector = (hue * 6.0).floor();
    let offset = hue * 6.0 - sector;
    let rising = (offset * 255.0).floor() as u8;
    let falling = ((1.0 - offset) * 255.0).floor() as u8;
    match sector as u32 % 6 {
        0 => RgbColor::new(255, rising, 0),
        1 => RgbColor::new(falling, 255, 0),
        2 => RgbColor::new(0, 255, rising),
        3 => RgbColor::new(0, falling, 255),
        4 => RgbColor::new(rising, 0, 255),
        _ => RgbColor::new(255, 0, falling),
    }
}

fn leaf_colors(component: &Component, inherited: Option<TextColor>, out: &mut Vec<Option<TextColor>>) {
    let color = component.style.color.or(inherited);
    if let ComponentContent::Text { text } = &component.content {
        for _ in text.chars() {
            out.push(color);
        }
    }
    for child in &component.children {
        leaf_colors(child, color, out);
    }
}

fn hex(rgb: RgbColor) -> String {
    format!("#{:02x}{:02x}{:02x}", rgb.red, rgb.green, rgb.blue)
}

#[test]
fn given_gradients_of_every_length_when_spread_then_each_character_gets_the_native_colour() {
    let ramps = [
        vec![RgbColor::new(255, 0, 0), RgbColor::new(0, 0, 255)],
        vec![
            RgbColor::new(0x12, 0x34, 0x56),
            RgbColor::new(0xfe, 0xdc, 0xba),
            RgbColor::new(0x00, 0xff, 0x7f),
        ],
        vec![
            RgbColor::new(3, 200, 17),
            RgbColor::new(250, 1, 99),
            RgbColor::new(7, 7, 7),
            RgbColor::new(128, 255, 64),
        ],
    ];
    for stops in &ramps {
        let tag: Vec<String> = stops.iter().map(|rgb| hex(*rgb)).collect();
        for length in 1..=45 {
            let text: String = std::iter::repeat('x').take(length).collect();
            let component = parse_mini_message(&format!("<gradient:{}>{}", tag.join(":"), text));
            let mut colors = Vec::new();
            leaf_colors(&component, None, &mut colors);
            assert_eq!(colors.len(), length);
            for (position, color) in colors.iter().enumerate() {
                assert_eq!(
                    *color,
                    Some(TextColor::Rgb(gradient_expected(stops, position, length))),
                    "{tag:?} over {length} at {position}"
                );
            }
        }
    }
}

#[test]
fn given_rainbows_of_every_length_when_spread_then_each_character_gets_the_native_colour() {
    for length in 1..=90 {
        let text: String = std::iter::repeat('y').take(length).collect();
        let component = parse_mini_message(&format!("<rainbow>{text}"));
        let mut colors = Vec::new();
        leaf_colors(&component, None, &mut colors);
        assert_eq!(colors.len(), length);
        for (position, color) in colors.iter().enumerate() {
            assert_eq!(
                *color,
                Some(TextColor::Rgb(rainbow_expected(position, length))),
                "rainbow over {length} at {position}"
            );
        }
    }
}
