use limbo::click_event::ClickEvent;
use limbo::component_content::ComponentContent;
use limbo::hover_event::HoverEvent;
use limbo::mini_message::parse_mini_message;
use limbo::named_color::NamedColor;
use limbo::rgb_color::RgbColor;
use limbo::text_color::TextColor;
use limbo::text_parser::parse;

#[test]
fn given_plain_text_when_parsed_then_it_is_a_single_unstyled_component() {
    let component = parse("plain text");

    assert_eq!(
        component.content,
        ComponentContent::Text {
            text: "plain text".to_owned()
        }
    );
    assert!(component.style.is_empty());
    assert!(component.children.is_empty());
}

#[test]
fn given_a_colour_tag_when_parsed_then_the_colour_lands_on_the_text_itself() {
    let component = parse("<red>red text");

    assert_eq!(
        component.style.color,
        Some(TextColor::Named(NamedColor::Red))
    );
    assert_eq!(
        component.content,
        ComponentContent::Text {
            text: "red text".to_owned()
        }
    );
}

#[test]
fn given_an_escaped_angle_bracket_when_parsed_then_it_is_literal_text() {
    assert_eq!(parse("\\<not a tag>").to_plain_text(), "<not a tag>");
}

#[test]
fn given_raw_json_when_parsed_then_it_is_read_as_a_component() {
    let component = parse(r#"{"text":"raw json","color":"red"}"#);

    assert_eq!(component.to_plain_text(), "raw json");
    assert_eq!(
        component.style.color,
        Some(TextColor::Named(NamedColor::Red))
    );
}

#[test]
fn given_an_empty_string_when_parsed_then_it_is_the_empty_component() {
    assert_eq!(parse("").to_plain_text(), "");
}

#[test]
fn legacy_codes_and_tags_mix_in_one_line() {
    let component = parse("&cred <bold>loud");
    assert_eq!(component.to_plain_text(), "red loud");
    assert_eq!(component.style.color, Some(TextColor::Named(NamedColor::Red)));
    assert_eq!(component.children.len(), 1);
    assert_eq!(component.children[0].style.bold, Some(true));
    assert_eq!(component.children[0].style.color, None);
}

#[test]
fn json_that_is_not_an_object_is_read_as_markup() {
    assert_eq!(parse("\"quoted\"").to_plain_text(), "\"quoted\"");
    assert_eq!(parse("[1, 2]").to_plain_text(), "[1, 2]");
}

#[test]
fn a_leading_plain_child_becomes_the_tag_text_and_later_ones_nest() {
    let component = parse_mini_message("<red>a<blue>b");
    assert_eq!(component.content, ComponentContent::Text { text: "a".to_owned() });
    assert_eq!(component.style.color, Some(TextColor::Named(NamedColor::Red)));
    assert_eq!(component.children.len(), 1);
    assert_eq!(component.children[0].content, ComponentContent::Text { text: "b".to_owned() });
    assert_eq!(component.children[0].style.color, Some(TextColor::Named(NamedColor::Blue)));
}

#[test]
fn an_only_styled_child_merges_upward() {
    let component = parse_mini_message("<white><b>x");
    assert_eq!(component.content, ComponentContent::Text { text: "x".to_owned() });
    assert_eq!(component.style.color, Some(TextColor::Named(NamedColor::White)));
    assert_eq!(component.style.bold, Some(true));
    assert!(component.children.is_empty());
}

#[test]
fn a_style_set_twice_is_written_once() {
    let component = parse_mini_message("<white>a<white>b");
    assert_eq!(component.style.color, Some(TextColor::Named(NamedColor::White)));
    assert_eq!(component.children.len(), 1);
    assert_eq!(component.children[0].style.color, None);
    assert_eq!(component.to_plain_text(), "ab");
}

#[test]
fn an_unknown_tag_is_shown_literally() {
    let component = parse_mini_message("<foo>bar</foo>");
    assert_eq!(component.to_plain_text(), "<foo>bar");
    assert!(component.style.is_empty());
}

#[test]
fn a_newline_tag_joins_the_text_around_it() {
    let component = parse_mini_message("a<newline>b<br>c");
    assert_eq!(
        component.content,
        ComponentContent::Text { text: "a\nb\nc".to_owned() }
    );
    assert!(component.children.is_empty());
}

#[test]
fn a_closing_tag_ends_only_its_own_style() {
    let component = parse_mini_message("<bold>a</bold>b");
    assert_eq!(component.to_plain_text(), "ab");
    assert_eq!(component.children.len(), 2);
    assert_eq!(component.children[0].style.bold, Some(true));
    assert_eq!(component.children[1].style.bold, None);
    let aliased = parse_mini_message("<b>a</bold>b");
    assert_eq!(aliased, component);
}

#[test]
fn a_gradient_ramps_over_its_own_text_and_steps_over_nested_tags() {
    let component = parse_mini_message("<gradient:blue:white>Nano<white>!");
    assert_eq!(component.to_plain_text(), "Nano!");
    let spread = &component.children[0];
    let ramp = &spread.children[0];
    let expected = [
        RgbColor::new(85, 85, 255),
        RgbColor::new(128, 128, 255),
        RgbColor::new(170, 170, 255),
        RgbColor::new(213, 213, 255),
    ];
    for (index, rgb) in expected.iter().enumerate() {
        assert_eq!(ramp.children[index].style.color, Some(TextColor::Rgb(*rgb)));
    }
    assert_eq!(spread.children[1].style.color, Some(TextColor::Named(NamedColor::White)));
}

#[test]
fn a_rainbow_spreads_the_hue_around_the_wheel() {
    let component = parse_mini_message("<rainbow>ab");
    assert_eq!(component.to_plain_text(), "ab");
    let ramp = &component.children[0];
    assert_eq!(ramp.children[0].style.color, Some(TextColor::Rgb(RgbColor::new(255, 0, 0))));
    assert_eq!(ramp.children[1].style.color, Some(TextColor::Rgb(RgbColor::new(0, 255, 255))));
}

#[test]
fn click_and_hover_tags_attach_events() {
    let clicked = parse_mini_message("<click:open_url:'https://example.com'>go");
    assert_eq!(
        clicked.style.click_event,
        Some(ClickEvent::OpenUrl { url: "https://example.com".to_owned() })
    );
    assert_eq!(clicked.to_plain_text(), "go");
    let hovered = parse_mini_message("<hover:show_text:'<red>tip'>x");
    match &hovered.style.hover_event {
        Some(HoverEvent::ShowText { text }) => {
            assert_eq!(text.to_plain_text(), "tip");
            assert_eq!(text.style.color, Some(TextColor::Named(NamedColor::Red)));
        }
        None => panic!("no hover text"),
    }
}

#[test]
fn hex_colours_and_the_british_grey_are_understood() {
    let hex = parse_mini_message("<#FF8800>x");
    assert_eq!(hex.style.color, Some(TextColor::Rgb(RgbColor::from_packed(0xFF8800))));
    let grey = parse_mini_message("<grey>x");
    assert_eq!(grey.style.color, Some(TextColor::Named(NamedColor::Gray)));
    let colour = parse_mini_message("<color:dark_grey>x");
    assert_eq!(colour.style.color, Some(TextColor::Named(NamedColor::DarkGray)));
}

#[test]
fn a_reset_closes_everything_open() {
    let component = parse_mini_message("<red><bold>a<reset>b");
    assert_eq!(component.to_plain_text(), "ab");
    assert_eq!(component.children.len(), 2);
    assert_eq!(component.children[0].style.color, Some(TextColor::Named(NamedColor::Red)));
    assert_eq!(component.children[0].style.bold, Some(true));
    assert!(component.children[1].style.is_empty());
}
