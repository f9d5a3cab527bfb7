use limbo::named_color::NamedColor;
use limbo::rgb_color::RgbColor;
use limbo::text_color::TextColor;

#[test]
fn given_an_exact_named_colour_value_when_reduced_then_that_name_is_chosen() {
    for named in NamedColor::ALL {
        assert_eq!(TextColor::Rgb(named.rgb()).to_named(), named, "{named:?}");
    }
}

#[test]
fn given_a_colour_that_only_differs_in_saturation_then_hue_decides_the_name() {
    // Pale blue: nearer to grey by RGB distance, but the client should see blue.
    let pale_blue = RgbColor::from_packed(0xAAAAFF);

    assert_eq!(TextColor::Rgb(pale_blue).to_named(), NamedColor::Blue);
}

#[test]
fn given_a_colour_equidistant_between_two_names_then_declaration_order_breaks_the_tie() {
    assert_eq!(
        TextColor::Rgb(RgbColor::from_packed(0xFF0000)).to_named(),
        NamedColor::DarkRed
    );
    assert_eq!(
        TextColor::Rgb(RgbColor::from_packed(0x00FF00)).to_named(),
        NamedColor::DarkGreen
    );
}

#[test]
fn named_colour_keys_and_codes_round_trip() {
    for named in NamedColor::ALL {
        assert_eq!(NamedColor::from_key(named.key()), Some(named));
        assert_eq!(NamedColor::from_legacy_code(named.legacy_code()), Some(named));
        assert_eq!(
            NamedColor::from_legacy_code(named.legacy_code().to_ascii_uppercase()),
            Some(named)
        );
    }
    assert_eq!(NamedColor::from_key("purple"), None);
    assert_eq!(NamedColor::from_legacy_code('g'), None);
}

#[test]
fn named_colour_values_are_the_vanilla_ones() {
    assert_eq!(NamedColor::Gold.rgb(), RgbColor::new(0xFF, 0xAA, 0x00));
    assert_eq!(NamedColor::DarkGray.rgb(), RgbColor::from_packed(0x555555));
    assert_eq!(NamedColor::Gold.key(), "gold");
    assert_eq!(NamedColor::LightPurple.legacy_code(), 'd');
}

#[test]
fn a_named_text_colour_keeps_its_name_and_reports_its_value() {
    assert_eq!(TextColor::Named(NamedColor::Aqua).to_named(), NamedColor::Aqua);
    assert_eq!(TextColor::Named(NamedColor::Aqua).rgb(), RgbColor::from_packed(0x55FFFF));
    assert_eq!(TextColor::Rgb(RgbColor::from_packed(0x123456)).rgb(), RgbColor::new(0x12, 0x34, 0x56));
}

#[test]
fn a_near_black_grey_reduces_to_black_but_a_tinted_one_follows_its_hue() {
    assert_eq!(TextColor::Rgb(RgbColor::from_packed(0x0A0A0A)).to_named(), NamedColor::Black);
    assert_eq!(TextColor::Rgb(RgbColor::from_packed(0x010204)).to_named(), NamedColor::DarkBlue);
    assert_eq!(TextColor::Rgb(RgbColor::from_packed(0xFF8800)).to_named(), NamedColor::Gold);
}

#[test]
fn a_hue_halfway_between_two_names_is_settled_by_single_precision_rounding() {
    // 0x010203 sits exactly between dark aqua and dark blue in exact arithmetic; the
    // rounding of 32-bit maths puts it nearer dark aqua.
    assert_eq!(TextColor::Rgb(RgbColor::from_packed(0x010203)).to_named(), NamedColor::DarkAqua);
}

#[test]
fn every_named_colour_is_found_again_by_its_own_key() {
    for color in NamedColor::all() {
        assert_eq!(NamedColor::from_key(color.key()), Some(color));
    }
    assert_eq!(NamedColor::from_key("grey"), None);
    assert_eq!(NamedColor::from_key("Red"), None);
}
