use limbo::click_event::ClickEvent;
use limbo::component::Component;
use limbo::component_content::ComponentContent;
use limbo::component_json::to_json_string;
use limbo::hover_event::HoverEvent;
use limbo::json_profile::JsonProfile;
use limbo::named_color::NamedColor;
use limbo::rgb_color::RgbColor;
use limbo::style::Style;
use limbo::text_color::TextColor;
use limbo::version::ProtocolVersion;

fn styled(style: Style) -> Component {
    Component::new(
        ComponentContent::Text {
            text: "x".to_owned(),
        },
        style,
        Vec::new(),
    )
}

fn with_color(color: TextColor) -> Component {
    let mut style = Style::empty();
    style.color = Some(color);
    styled(style)
}

#[test]
fn given_a_hex_colour_when_serialized_for_a_pre_1_16_client_then_it_is_reduced_to_a_name() {
    let orange = with_color(TextColor::Rgb(RgbColor::from_packed(0xFF8800)));

    assert_eq!(
        to_json_string(&orange, JsonProfile::Legacy),
        r#"{"color":"gold","text":"x"}"#
    );
    assert_eq!(
        to_json_string(&orange, JsonProfile::HexColours),
        r##"{"color":"#FF8800","text":"x"}"##
    );
}

#[test]
fn given_a_colour_matching_a_name_exactly_when_serialized_then_the_name_is_used() {
    let blue = with_color(TextColor::Rgb(NamedColor::Blue.rgb()));

    assert_eq!(
        to_json_string(&blue, JsonProfile::HexColours),
        r#"{"color":"blue","text":"x"}"#
    );
}

#[test]
fn given_unstyled_text_when_serialized_then_only_the_later_profiles_collapse_it() {
    let plain = Component::text("plain");

    assert_eq!(
        to_json_string(&plain, JsonProfile::HexColours),
        r#"{"text":"plain"}"#
    );
    assert_eq!(
        to_json_string(&plain, JsonProfile::CompactText),
        r#""plain""#
    );
}

#[test]
fn given_a_hover_event_when_serialized_then_the_key_and_payload_follow_the_profile() {
    let mut style = Style::empty();
    style.hover_event = Some(HoverEvent::ShowText {
        text: Box::new(Component::text("tip")),
    });
    let component = styled(style);

    assert_eq!(
        to_json_string(&component, JsonProfile::Legacy),
        r#"{"hoverEvent":{"action":"show_text","value":{"text":"tip"}},"text":"x"}"#
    );
    assert_eq!(
        to_json_string(&component, JsonProfile::HexColours),
        r#"{"hoverEvent":{"action":"show_text","contents":{"text":"tip"}},"text":"x"}"#
    );
    assert_eq!(
        to_json_string(&component, JsonProfile::CompactText),
        r#"{"hoverEvent":{"action":"show_text","contents":"tip"},"text":"x"}"#
    );
    assert_eq!(
        to_json_string(&component, JsonProfile::RenamedEvents),
        r#"{"hover_event":{"action":"show_text","value":"tip"},"text":"x"}"#
    );
}

#[test]
fn given_a_click_event_when_serialized_then_the_payload_key_follows_the_action() {
    let mut style = Style::empty();
    style.click_event = Some(ClickEvent::OpenUrl {
        url: "https://example.com".to_owned(),
    });
    let open_url = styled(style);

    assert_eq!(
        to_json_string(&open_url, JsonProfile::CompactText),
        r#"{"clickEvent":{"action":"open_url","value":"https://example.com"},"text":"x"}"#
    );
    assert_eq!(
        to_json_string(&open_url, JsonProfile::RenamedEvents),
        r#"{"click_event":{"action":"open_url","url":"https://example.com"},"text":"x"}"#
    );
}

#[test]
fn given_style_keys_when_serialized_then_they_come_out_alphabetically() {
    let mut style = Style::empty();
    style.bold = Some(true);
    style.color = Some(TextColor::Named(NamedColor::White));

    assert_eq!(
        to_json_string(&styled(style), JsonProfile::Legacy),
        r#"{"bold":true,"color":"white","text":"x"}"#
    );
}

#[test]
fn text_with_quotes_and_children_is_escaped_and_nested() {
    let child = Component::text("b\"c");
    let parent = Component::new(
        ComponentContent::Text { text: "a".to_owned() },
        Style::empty(),
        vec![child],
    );
    assert_eq!(
        to_json_string(&parent, JsonProfile::CompactText),
        r#"{"extra":["b\"c"],"text":"a"}"#
    );
    assert_eq!(
        to_json_string(&parent, JsonProfile::Legacy),
        r#"{"extra":[{"text":"b\"c"}],"text":"a"}"#
    );
}

#[test]
fn keybind_and_translatable_content_use_their_own_keys() {
    assert_eq!(
        to_json_string(&Component::keybind("key.jump"), JsonProfile::CompactText),
        r#"{"keybind":"key.jump"}"#
    );
    let translated = Component::translatable("chat.type", vec![Component::text("arg")]);
    assert_eq!(
        to_json_string(&translated, JsonProfile::CompactText),
        r#"{"translate":"chat.type","with":["arg"]}"#
    );
}

#[test]
fn profiles_follow_the_client_version() {
    assert_eq!(JsonProfile::for_version(ProtocolVersion::V1_15_2), JsonProfile::Legacy);
    assert_eq!(JsonProfile::for_version(ProtocolVersion::V1_16), JsonProfile::HexColours);
    assert!(JsonProfile::Legacy.compacts_plain_text() == false);
    assert!(JsonProfile::HexColours.emits_rgb());
    assert!(!JsonProfile::Legacy.emits_rgb());
}

#[test]
fn text_is_escaped_as_serde_json_writes_string_literals() {
    let component = Component::text("q\"b\\t\u{8}\t\n\u{c}\r\u{1}\u{1f} é");
    let json = to_json_string(&component, JsonProfile::HexColours);
    assert!(
        json.contains(r#""q\"b\\t\b\t\n\f\r\u0001\u001f é""#),
        "{json}"
    );
}

#[test]
fn an_empty_style_writes_only_the_text_and_any_set_field_adds_a_member() {
    let plain = Component::text("x");
    assert_eq!(to_json_string(&plain, JsonProfile::HexColours), r#"{"text":"x"}"#);
    let mut style = Style::empty();
    style.italic = Some(false);
    let styled_text = Component::new(
        ComponentContent::Text { text: "x".to_owned() },
        style,
        Vec::new(),
    );
    assert_eq!(to_json_string(&styled_text, JsonProfile::HexColours), r#"{"italic":false,"text":"x"}"#);
}

#[test]
fn the_legacy_profile_writes_every_colour_by_name() {
    for packed in [0x000000u32, 0x123456, 0xFF8800, 0x55FFFF, 0xFEFEFE] {
        let json = to_json_string(&with_color(TextColor::Rgb(RgbColor::from_packed(packed))), JsonProfile::Legacy);
        assert!(!json.contains('#'), "{json}");
    }
}
