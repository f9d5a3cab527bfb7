use limbo::component::Component;
use limbo::component_content::ComponentContent;
use limbo::legacy_codes::{legacy_codes_to_tags, to_legacy_string};
use limbo::text_parser::parse;
use limbo::named_color::NamedColor;
use limbo::rgb_color::RgbColor;
use limbo::style::Style;
use limbo::text_color::TextColor;

fn text_with(text: &str, style: Style, children: Vec<Component>) -> Component {
    Component::new(
        ComponentContent::Text {
            text: text.to_owned(),
        },
        style,
        children,
    )
}

#[test]
fn given_legacy_colour_and_format_codes_when_translated_then_they_become_tags() {
    assert_eq!(
        legacy_codes_to_tags("&aGreen &lBold&r plain"),
        "<green>Green <bold>Bold<reset> plain"
    );
}

#[test]
fn given_the_bukkit_hex_form_when_translated_then_it_becomes_one_hex_tag() {
    assert_eq!(
        legacy_codes_to_tags("&x&f&f&0&0&0&0hex legacy"),
        "<#ff0000>hex legacy"
    );
}

#[test]
fn given_a_section_sign_when_translated_then_it_is_treated_like_an_ampersand() {
    assert_eq!(legacy_codes_to_tags("\u{00A7}aGreen"), "<green>Green");
}

#[test]
fn given_a_marker_that_starts_nothing_when_translated_then_it_stays_literal() {
    assert_eq!(legacy_codes_to_tags("100% & rising"), "100% & rising");
    assert_eq!(legacy_codes_to_tags("trailing &"), "trailing &");
}

#[test]
fn codes_are_read_without_regard_to_case_and_a_broken_hex_run_stays_literal() {
    assert_eq!(legacy_codes_to_tags("&C&Lloud"), "<red><bold>loud");
    assert_eq!(legacy_codes_to_tags("&x&f&fshort"), "&x<white><white>short");
    assert_eq!(legacy_codes_to_tags("&X&A&b&C&d&E&f!"), "<#AbCdEf>!");
    assert_eq!(legacy_codes_to_tags("&&a"), "&<green>");
    assert_eq!(legacy_codes_to_tags(""), "");
}

#[test]
fn plain_text_renders_without_codes() {
    assert_eq!(to_legacy_string(&Component::text("plain")), "plain");
    assert_eq!(to_legacy_string(&Component::empty()), "");
}

#[test]
fn a_colour_comes_before_the_decorations_it_would_otherwise_clear() {
    let mut style = Style::empty();
    style.color = Some(TextColor::Named(NamedColor::Red));
    style.bold = Some(true);
    assert_eq!(to_legacy_string(&text_with("x", style, Vec::new())), "\u{a7}c\u{a7}lx");
}

#[test]
fn turning_a_decoration_off_takes_a_reset_and_the_colour_again() {
    let mut parent = Style::empty();
    parent.color = Some(TextColor::Named(NamedColor::Red));
    let mut italic = Style::empty();
    italic.italic = Some(true);
    let component = text_with(
        "a",
        parent,
        vec![
            text_with("b", italic, Vec::new()),
            text_with("c", Style::empty(), Vec::new()),
        ],
    );
    assert_eq!(
        to_legacy_string(&component),
        "\u{a7}ca\u{a7}ob\u{a7}r\u{a7}cc"
    );
}

#[test]
fn an_rgb_colour_is_reduced_and_an_empty_body_emits_nothing() {
    let mut style = Style::empty();
    style.color = Some(TextColor::Rgb(RgbColor::from_packed(0xFF8800)));
    let component = text_with("", style, vec![Component::text("x")]);
    assert_eq!(to_legacy_string(&component), "\u{a7}6x");
    let keybind = Component::keybind("key.jump");
    assert_eq!(to_legacy_string(&keybind), "key.jump");
}

#[test]
fn a_colour_code_after_a_decoration_code_resets_before_the_colour() {
    assert_eq!(legacy_codes_to_tags("&lA&aB"), "<bold>A<reset><green>B");
    assert_eq!(legacy_codes_to_tags("&n&oA&x&1&2&3&4&5&6B"), "<underlined><italic>A<reset><#123456>B");
    assert_eq!(legacy_codes_to_tags("&lA&rB&aC"), "<bold>A<reset>B<green>C");
    assert_eq!(legacy_codes_to_tags("&aA&lB&cC&dD"), "<green>A<bold>B<reset><red>C<light_purple>D");
}

#[test]
fn a_colour_code_clears_decorations_in_the_rendering() {
    assert_eq!(to_legacy_string(&parse("&lA&aB")), "\u{00A7}lA\u{00A7}aB");
    assert_eq!(to_legacy_string(&parse("&aA&lB&cC")), "\u{00A7}aA\u{00A7}lB\u{00A7}cC");
}
