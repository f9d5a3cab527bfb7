use std::io::Write;

use limbo::byte_reader::ByteReader;
use limbo::byte_writer::{write_string, write_var_int};
use limbo::component::Component;
use limbo::component_content::ComponentContent;
use limbo::component_nbt::to_nbt_compound;
use limbo::component_writer::{component_payload, to_json_for, ComponentPayload};
use limbo::dimension::Dimension;
use limbo::dimension_lookup_error::DimensionLookupError;
use limbo::dimension_registry::DimensionRegistry;
use limbo::dimension_type::DimensionType;
use limbo::json_profile::JsonProfile;
use limbo::nbt::{NbtCompound, NbtList, NbtValue};
use limbo::nbt_encode_error::NbtEncodeError;
use limbo::nbt_number::{f32_bits_floor_i32, f64_bits_floor_i32};
use limbo::resource_load_error::ResourceLoadError;
use limbo::resource_selection::{codec_ladder, tag_ladder, ResourceSelection};
use limbo::style::Style;
use limbo::update_tags_error::UpdateTagsError;
use limbo::update_tags_registry::{parse_update_tags, UpdateTagsRegistry};
use limbo::version::ProtocolVersion;
use limbo::write_compound::write_compound;

const ROOT_COMPOUND_TAG: u8 = 0x0A;
const NAMED_ROOT_HEADER_LEN: usize = 3;

fn key(text: &str) -> String {
    text.to_owned()
}

fn sample_compound() -> valence_nbt::Compound {
    let mut nested = valence_nbt::Compound::new();
    nested.insert("ambient_light", 0.0_f32);
    let mut compound = valence_nbt::Compound::new();
    compound.insert("height", 384_i32);
    compound.insert("name", "minecraft:overworld");
    compound.insert("nested", nested);
    compound.insert("ids", valence_nbt::List::Int(vec![1, 2, 3]));
    compound.insert("empty", valence_nbt::List::End);
    compound
}

fn named_root(compound: &valence_nbt::Compound) -> Vec<u8> {
    let mut encoded = Vec::new();
    valence_nbt::binary::to_binary(compound, &mut encoded, "").expect("encoding must succeed");
    encoded
}

fn written(version: ProtocolVersion) -> Vec<u8> {
    let mut buffer = Vec::new();
    write_compound(&mut buffer, &named_root(&sample_compound()), version)
        .expect("encoding must succeed");
    buffer
}

#[test]
fn given_unstyled_text_when_converted_to_nbt_then_it_stays_a_compound() {
    let compound = to_nbt_compound(&Component::text("plain text"), JsonProfile::CompactText);

    assert_eq!(
        compound.get("text"),
        Some(&NbtValue::String("plain text".to_owned()))
    );
}

#[test]
fn given_an_unstyled_child_when_converted_to_nbt_then_its_text_is_not_lost() {
    let mut bold = Style::empty();
    bold.bold = Some(true);
    let root = Component::new(
        ComponentContent::Text {
            text: String::new(),
        },
        Style::empty(),
        vec![
            Component::new(
                ComponentContent::Text {
                    text: "bold".to_owned(),
                },
                bold,
                Vec::new(),
            ),
            Component::text(" normal"),
        ],
    );

    let compound = to_nbt_compound(&root, JsonProfile::CompactText);
    let Some(NbtValue::List(NbtList::Compound(children))) = compound.get("extra") else {
        panic!(
            "extra must be a list of compounds, got {:?}",
            compound.get("extra")
        );
    };

    assert_eq!(children.len(), 2);
    assert_eq!(
        children[1].get("text"),
        Some(&NbtValue::String(" normal".to_owned())),
        "the trailing text must survive"
    );
    assert_eq!(children[1].get(""), None, "no empty-key wrapper may appear");
}

#[test]
fn given_a_bold_component_when_converted_to_nbt_then_the_flag_is_a_byte() {
    let mut bold = Style::empty();
    bold.bold = Some(true);
    let component = Component::new(
        ComponentContent::Text {
            text: "x".to_owned(),
        },
        bold,
        Vec::new(),
    );

    let compound = to_nbt_compound(&component, JsonProfile::CompactText);

    assert_eq!(compound.get("bold"), Some(&NbtValue::Byte(1)));
    assert_eq!(compound.get("text"), Some(&NbtValue::String("x".to_owned())));
    assert_eq!(compound.len(), 2);
}

#[test]
fn given_a_version_when_a_component_is_encoded_then_the_form_follows_the_version() {
    let component = Component::text("hi");

    match component_payload(&component, ProtocolVersion::V1_20_2) {
        ComponentPayload::Json(text) => assert_eq!(text, "{\"text\":\"hi\"}"),
        ComponentPayload::Nbt(_) => panic!("1.20.2 reads JSON text"),
    }
    match component_payload(&component, ProtocolVersion::V1_20_3) {
        ComponentPayload::Nbt(compound) => {
            assert_eq!(compound.get("text"), Some(&NbtValue::String("hi".to_owned())))
        }
        ComponentPayload::Json(_) => panic!("1.20.3 reads NBT"),
    }
    assert_eq!(to_json_for(&component, ProtocolVersion::V1_21), "\"hi\"");
}

#[test]
fn given_a_client_below_1_20_2_when_a_compound_is_written_then_it_carries_an_empty_root_name() {
    let named = written(ProtocolVersion::V1_20);

    assert_eq!(
        named.get(..NAMED_ROOT_HEADER_LEN),
        Some([ROOT_COMPOUND_TAG, 0x00, 0x00].as_slice())
    );
}

#[test]
fn given_a_client_from_1_20_2_when_a_compound_is_written_then_only_the_name_length_is_dropped() {
    let named = written(ProtocolVersion::V1_20);
    let nameless = written(ProtocolVersion::V1_20_2);

    assert_eq!(nameless.first(), Some(&ROOT_COMPOUND_TAG));
    assert_eq!(nameless.get(1..), named.get(NAMED_ROOT_HEADER_LEN..));
    assert_eq!(nameless.len() + 2, named.len());
}

#[test]
fn given_the_named_root_shape_when_it_is_read_back_then_the_compound_is_unchanged() {
    let named = written(ProtocolVersion::V1_20);

    let (compound, root_name): (valence_nbt::Compound, String) =
        valence_nbt::binary::from_binary(&mut named.as_slice()).expect("the named form must decode");

    assert_eq!(root_name, "");
    assert_eq!(compound, sample_compound());
}

#[test]
fn given_a_compound_with_a_nested_list_when_written_then_the_value_survives_the_round_trip() {
    let named = written(ProtocolVersion::V1_19);

    let (compound, _root_name): (valence_nbt::Compound, String) =
        valence_nbt::binary::from_binary(&mut named.as_slice()).expect("the named form must decode");

    assert_eq!(
        compound.get("ids"),
        Some(&valence_nbt::Value::List(valence_nbt::List::Int(vec![1, 2, 3])))
    );
}

#[test]
fn given_a_compound_when_written_twice_into_one_buffer_then_the_second_copy_is_appended() {
    let mut buffer = Vec::new();
    let named = named_root(&sample_compound());

    write_compound(&mut buffer, &named, ProtocolVersion::V1_21).expect("first write");
    let length_after_first = buffer.len();
    write_compound(&mut buffer, &named, ProtocolVersion::V1_21).expect("second write");

    assert_eq!(buffer.len(), length_after_first * 2);
}

#[test]
fn given_an_empty_compound_when_written_nameless_then_only_the_tag_and_terminator_remain() {
    let mut buffer = Vec::new();

    write_compound(
        &mut buffer,
        &named_root(&valence_nbt::Compound::new()),
        ProtocolVersion::V1_21,
    )
    .expect("encoding");

    assert_eq!(buffer, vec![ROOT_COMPOUND_TAG, 0x00]);
}

#[test]
fn given_an_encoding_shorter_than_the_header_when_written_nameless_then_it_is_refused() {
    let mut buffer = vec![7];

    let written = write_compound(&mut buffer, &[ROOT_COMPOUND_TAG, 0x00], ProtocolVersion::V1_21);

    assert_eq!(written, Err(NbtEncodeError::MalformedRootHeader));
    assert_eq!(buffer, vec![7]);
    assert!(write_compound(&mut buffer, &[ROOT_COMPOUND_TAG], ProtocolVersion::V1_20).is_ok());
    assert_eq!(buffer, vec![7, ROOT_COMPOUND_TAG]);
}

#[test]
fn given_a_registry_that_is_not_a_compound_when_parsed_then_the_shape_is_reported() {
    let mut malformed = NbtCompound::new();
    malformed.insert(key("minecraft:block"), NbtValue::Int(1));

    let parsed = parse_update_tags(&malformed);

    assert_eq!(
        parsed.err(),
        Some(UpdateTagsError::RegistryNotCompound {
            registry: "minecraft:block".to_owned(),
        })
    );
}

#[test]
fn given_a_tag_that_is_not_a_list_of_ints_when_parsed_then_the_shape_is_reported() {
    let mut tags = NbtCompound::new();
    tags.insert(
        key("minecraft:mineable"),
        NbtValue::List(NbtList::String(vec!["stone".to_owned()])),
    );
    let mut malformed = NbtCompound::new();
    malformed.insert(key("minecraft:block"), NbtValue::Compound(tags));

    let parsed = parse_update_tags(&malformed);

    assert_eq!(
        parsed.err(),
        Some(UpdateTagsError::TagNotIntList {
            registry: "minecraft:block".to_owned(),
            tag: "minecraft:mineable".to_owned(),
        })
    );
}

fn sample_tag_set() -> NbtCompound {
    let mut instruments = NbtCompound::new();
    instruments.insert(
        key("minecraft:regular_goat_horns"),
        NbtValue::List(NbtList::Int(vec![0, 1, 2, 3])),
    );
    instruments.insert(
        key("minecraft:screaming_goat_horns"),
        NbtValue::List(NbtList::Int(vec![4, 5, 6, 7])),
    );
    let mut blocks = NbtCompound::new();
    blocks.insert(
        key("minecraft:incorrect_for_diamond_tool"),
        NbtValue::List(NbtList::End),
    );
    let mut tag_set = NbtCompound::new();
    tag_set.insert(key("minecraft:instrument"), NbtValue::Compound(instruments));
    tag_set.insert(key("minecraft:block"), NbtValue::Compound(blocks));
    tag_set
}

#[test]
fn given_a_tag_set_when_parsed_then_registries_and_ids_keep_their_order() {
    let parsed = parse_update_tags(&sample_tag_set()).expect("well-formed");

    let keys: Vec<&str> = parsed.iter().map(|registry| registry.key()).collect();
    assert_eq!(keys, vec!["minecraft:instrument", "minecraft:block"]);
    assert_eq!(parsed[0].tags()[0].entry_ids(), [0, 1, 2, 3]);
    assert_eq!(parsed[0].tags()[1].entry_ids(), [4, 5, 6, 7]);
    assert!(parsed[1].tags()[0].entry_ids().is_empty());
}

#[test]
fn given_tag_sets_for_every_rung_when_tags_are_requested_then_each_version_gets_its_rung() {
    let mut tag_sets = Vec::new();
    for _ in 0..11 {
        tag_sets.push(NbtCompound::new());
    }
    tag_sets[10] = sample_tag_set();
    let registry = UpdateTagsRegistry::new(tag_sets);

    let oldest = registry.tags_for(ProtocolVersion::V1_20_5).expect("a tag set");
    assert_eq!(oldest.len(), 2);
    assert!(registry.tags_for(ProtocolVersion::V1_21).expect("a tag set").is_empty());
    assert_eq!(
        UpdateTagsRegistry::new(Vec::new()).tags_for(ProtocolVersion::V1_21).err(),
        Some(UpdateTagsError::NoTagSet {
            version: ProtocolVersion::V1_21
        })
    );
}

fn modern_entry(name: &str, id: i32, height: NbtValue) -> NbtCompound {
    let mut element = NbtCompound::new();
    element.insert(key("height"), height);
    element.insert(key("ambient_light"), NbtValue::Float(0));
    let mut entry = NbtCompound::new();
    entry.insert(key("name"), NbtValue::String(name.to_owned()));
    entry.insert(key("id"), NbtValue::Int(id));
    entry.insert(key("element"), NbtValue::Compound(element));
    entry
}

fn modern_codec(entries: Vec<NbtCompound>) -> NbtCompound {
    let mut dimension_type = NbtCompound::new();
    dimension_type.insert(key("type"), NbtValue::String("minecraft:dimension_type".to_owned()));
    dimension_type.insert(key("value"), NbtValue::List(NbtList::Compound(entries)));
    let mut codec = NbtCompound::new();
    codec.insert(key("minecraft:dimension_type"), NbtValue::Compound(dimension_type));
    codec
}

fn legacy_codec() -> NbtCompound {
    let mut entries = Vec::new();
    for name in ["minecraft:overworld", "minecraft:the_nether", "minecraft:the_end"] {
        let mut entry = NbtCompound::new();
        entry.insert(key("name"), NbtValue::String(name.to_owned()));
        entry.insert(key("natural"), NbtValue::Byte(1));
        entries.push(entry);
    }
    let mut codec = NbtCompound::new();
    codec.insert(key("dimension"), NbtValue::List(NbtList::Compound(entries)));
    codec
}

/// Nineteen codecs, one per rung: the legacy shape on the last rung (1.16), the modern
/// shape everywhere else.
fn sample_registry() -> DimensionRegistry {
    let mut codecs = Vec::new();
    for _ in 0..18 {
        codecs.push(modern_codec(vec![
            modern_entry("minecraft:overworld", 0, NbtValue::Int(384)),
            modern_entry("minecraft:the_nether", 1, NbtValue::Double(0x4070_0000_0000_0000)),
            modern_entry("minecraft:the_end", 2, NbtValue::Float(0x4380_0000)),
        ]));
    }
    codecs.push(legacy_codec());
    DimensionRegistry::new(codecs)
}

#[test]
fn given_the_legacy_codec_when_a_dimension_is_resolved_then_its_id_is_its_position_in_the_list() {
    let registry = sample_registry();

    let nether: Dimension = registry
        .find_dimension(ProtocolVersion::V1_16, "minecraft:the_nether")
        .expect("the legacy codec defines the nether");

    assert_eq!(nether.id(), 1);
    assert_eq!(nether.height(), 0);
    assert_eq!(nether.element_codec().get("natural"), Some(&NbtValue::Byte(1)));
    assert_eq!(nether.codec().len(), 1);
}

#[test]
fn given_a_modern_codec_when_a_dimension_is_resolved_then_only_the_element_is_returned() {
    let registry = sample_registry();

    let overworld = registry
        .find_dimension(ProtocolVersion::V1_21, "minecraft:overworld")
        .expect("the modern codec defines the overworld");

    assert_eq!(overworld.key(), "minecraft:overworld");
    assert_eq!(overworld.id(), 0);
    assert_eq!(overworld.height(), 384);
    assert_eq!(overworld.chunk_sections(), 24);
    assert_eq!(overworld.element_codec().get("name"), None);
    assert_eq!(overworld.element_codec().get("height"), Some(&NbtValue::Int(384)));
}

#[test]
fn given_float_heights_when_a_dimension_is_resolved_then_they_are_floored() {
    let registry = sample_registry();

    let nether = registry
        .find_dimension(ProtocolVersion::V1_21, "minecraft:the_nether")
        .expect("defined");
    let end = registry
        .find_dimension(ProtocolVersion::V1_21, "minecraft:the_end")
        .expect("defined");

    assert_eq!(nether.height(), 256);
    assert_eq!(end.height(), 256);
    assert_eq!(end.chunk_sections(), 16);
}

#[test]
fn given_a_key_no_codec_defines_when_it_is_resolved_then_nothing_is_returned() {
    let registry = sample_registry();

    assert!(registry
        .find_dimension(ProtocolVersion::V1_21, "minecraft:nowhere")
        .is_none());
    assert!(registry
        .find_dimension(ProtocolVersion::V1_16, "minecraft:nowhere")
        .is_none());
}

#[test]
fn given_a_codec_without_a_dimension_list_when_entries_are_read_then_none_are_found() {
    let mut codecs = Vec::new();
    for _ in 0..codec_ladder().len() {
        codecs.push(NbtCompound::new());
    }
    let registry = DimensionRegistry::new(codecs);

    assert!(registry
        .find_dimension(ProtocolVersion::V1_21, "minecraft:overworld")
        .is_none());
    assert!(registry.codec(ProtocolVersion::V1_21).is_some());
}

#[test]
fn given_every_supported_version_when_each_dimension_type_is_resolved_then_none_is_missing() {
    let registry = sample_registry();

    for dimension_type in DimensionType::ALL {
        let versioned = dimension_type.resolve(&registry).expect("every codec defines it");
        assert_eq!(versioned.key(), dimension_type.key());
        assert_eq!(versioned.legacy_id(), dimension_type.legacy_id());
        for version in ProtocolVersion::all() {
            let dimension = versioned.for_version(version).expect("resolved for every version");
            assert_eq!(dimension.key(), dimension_type.key());
        }
    }
}

#[test]
fn given_a_registry_missing_a_dimension_when_it_is_resolved_then_the_oldest_version_is_named() {
    let registry = DimensionRegistry::new(Vec::new());

    assert_eq!(
        DimensionType::TheEnd.resolve(&registry).err(),
        Some(DimensionLookupError::Unresolved {
            key: "minecraft:the_end",
            version: ProtocolVersion::V1_7_2,
        })
    );
}

#[test]
fn given_float_bit_patterns_when_floored_then_they_match_the_float_cast() {
    for value in [0.0_f32, -0.0, 1.5, -1.5, 255.99, -0.25, 3.0e9, -3.0e9, 1.0e-40, -1.0e-40] {
        assert_eq!(f32_bits_floor_i32(value.to_bits()), value.floor() as i32, "{value}");
    }
    for value in [f32::NAN, f32::INFINITY, f32::NEG_INFINITY] {
        assert_eq!(f32_bits_floor_i32(value.to_bits()), value.floor() as i32, "{value}");
    }
    for value in [0.0_f64, 2.5, -2.5, 2147483647.9, -2147483648.5, 1.0e300, -5.0e-324] {
        assert_eq!(f64_bits_floor_i32(value.to_bits()), value.floor() as i32, "{value}");
    }
    assert_eq!(f64_bits_floor_i32(f64::NAN.to_bits()), 0);
}

#[test]
fn given_values_when_written_as_var_ints_then_they_read_back() {
    for value in [0, 1, 127, 128, 255, 25565, 2_097_151, i32::MAX, -1, i32::MIN] {
        let mut buffer = Vec::new();
        write_var_int(&mut buffer, value);
        let length = buffer.len();
        let mut reader = ByteReader::new(buffer);
        assert_eq!(reader.read_var_int(), Ok(value));
        assert_eq!(reader.remaining(), 0, "{value} took {length} bytes");
    }
    let mut buffer = Vec::new();
    write_var_int(&mut buffer, 300);
    assert_eq!(buffer, vec![0xAC, 0x02]);
    let mut negative = Vec::new();
    write_var_int(&mut negative, -1);
    assert_eq!(negative, vec![0xFF, 0xFF, 0xFF, 0xFF, 0x0F]);
}

#[test]
fn given_a_string_when_written_then_it_reads_back() {
    let mut buffer = Vec::new();
    write_string(&mut buffer, "héllo ✓");
    assert_eq!(buffer[0], 10);
    let mut reader = ByteReader::new(buffer);
    assert_eq!(reader.read_string(7).expect("fits"), "héllo ✓");
    assert_eq!(reader.remaining(), 0);
}

#[test]
fn given_gzip_bytes_when_decompressed_then_the_original_bytes_come_back() {
    let mut encoder = flate2::write::GzEncoder::new(Vec::new(), flate2::Compression::default());
    encoder.write_all(b"limbo codec").expect("compress");
    let compressed = encoder.finish().expect("finish");
    let selection = &codec_ladder()[0];

    assert_eq!(selection.decompress(&compressed).expect("valid gzip"), b"limbo codec".to_vec());
    match selection.decompress(b"not gzip at all") {
        Err(ResourceLoadError::Decompress { resource, .. }) => {
            assert_eq!(resource, "codec_26_2.nbt")
        }
        other => panic!("expected a decompression error, got {other:?}"),
    }
}

#[test]
fn given_a_compound_when_a_key_is_set_twice_then_the_entry_keeps_its_place() {
    let mut compound = NbtCompound::new();
    compound.insert(key("a"), NbtValue::Int(1));
    compound.insert(key("b"), NbtValue::Int(2));
    compound.insert(key("a"), NbtValue::Int(3));

    assert_eq!(compound.len(), 2);
    assert_eq!(compound.get("a"), Some(&NbtValue::Int(3)));
    assert_eq!(compound.entries[0].0, "a");
    assert_eq!(compound.get("c"), None);
}

#[test]
fn given_a_fully_styled_component_when_serialized_then_its_keys_ascend() {
    let mut style = Style::empty();
    style.bold = Some(true);
    style.italic = Some(false);
    style.color = Some(limbo::text_color::TextColor::Named(
        limbo::named_color::NamedColor::Red,
    ));
    style.insertion = Some("ins".to_owned());
    style.font = Some("minecraft:uniform".to_owned());
    let component = Component::new(
        ComponentContent::Text {
            text: "t".to_owned(),
        },
        style,
        vec![Component::text("c")],
    );

    let json = limbo::component_json::to_json_string(&component, JsonProfile::HexColours);

    assert_eq!(
        json,
        "{\"bold\":true,\"color\":\"red\",\"extra\":[{\"text\":\"c\"}],\"font\":\"minecraft:uniform\",\"insertion\":\"ins\",\"italic\":false,\"text\":\"t\"}"
    );
}

#[test]
fn given_one_codec_and_tag_set_per_rung_when_any_version_asks_then_each_is_served() {
    let registry = sample_registry();
    let mut tag_sets = Vec::new();
    for _ in 0..11 {
        tag_sets.push(sample_tag_set());
    }
    let tags = UpdateTagsRegistry::new(tag_sets);

    for version in ProtocolVersion::all() {
        assert!(registry.codec(version).is_some(), "{version:?}");
        assert_eq!(tags.tags_for(version).expect("a tag set").len(), 2, "{version:?}");
    }
    let end = registry
        .find_dimension(ProtocolVersion::V1_21, "minecraft:the_end")
        .expect("defined");
    assert_eq!(Some(end.codec()), registry.codec(ProtocolVersion::V1_21));
}

#[test]
fn every_error_reports_itself_in_words() {
    assert_eq!(
        UpdateTagsError::NoTagSet { version: ProtocolVersion::V1_20_5 }.message(),
        "no tag set is defined for 1.20.5"
    );
    assert_eq!(
        UpdateTagsError::RegistryNotCompound { registry: "minecraft:block".to_owned() }.message(),
        "registry `minecraft:block` is not a compound"
    );
    assert_eq!(
        UpdateTagsError::TagNotIntList { registry: "r".to_owned(), tag: "t".to_owned() }.message(),
        "tag `t` of registry `r` is not a list of ints"
    );
    assert_eq!(
        DimensionLookupError::Unresolved { key: "minecraft:moon", version: ProtocolVersion::V1_16 }.message(),
        "the codec sent to 1.16 defines no dimension `minecraft:moon`"
    );
    assert_eq!(
        ResourceLoadError::Decompress { resource: "codec_1_16.nbt", reason: "bad header".to_owned() }.message(),
        "embedded resource `codec_1_16.nbt` is not valid gzip: bad header"
    );
    assert_eq!(
        ResourceLoadError::Parse { resource: "codec_1_16.nbt", reason: "eof".to_owned() }.message(),
        "embedded resource `codec_1_16.nbt` is not a valid nbt compound: eof"
    );
    assert_eq!(
        NbtEncodeError::Rejected { reason: "too deep".to_owned() }.message(),
        "the compound could not be encoded: too deep"
    );
}

#[test]
fn a_cloned_component_equals_the_original() {
    let mut style = Style::empty();
    style.bold = Some(true);
    let child = Component::text("child");
    let component = Component::new(
        ComponentContent::Text { text: "parent".to_owned() },
        style,
        vec![child],
    );
    assert_eq!(component.clone(), component);
}

fn gzipped(bytes: &[u8]) -> Vec<u8> {
    let mut encoder = flate2::write::GzEncoder::new(Vec::new(), flate2::Compression::default());
    encoder.write_all(bytes).expect("compress");
    encoder.finish().expect("finish")
}

#[test]
fn a_gzipped_named_root_decodes_to_its_entries_in_order() {
    let mut source = sample_compound();
    source.insert("scale", valence_nbt::List::Double(vec![1.5, -2.0]));
    let resource = gzipped(&named_root(&source));
    let decoded = codec_ladder()[0].decode(&resource).expect("valid resource");
    let keys: Vec<&str> = decoded.entries.iter().map(|(key, _)| key.as_str()).collect();
    assert_eq!(keys, vec!["height", "name", "nested", "ids", "empty", "scale"]);
    assert_eq!(decoded.entries[0].1, NbtValue::Int(384));
    assert_eq!(decoded.entries[1].1, NbtValue::String("minecraft:overworld".to_owned()));
    match &decoded.entries[2].1 {
        NbtValue::Compound(nested) => {
            assert_eq!(nested.entries[0], (key("ambient_light"), NbtValue::Float(0.0_f32.to_bits())));
        }
        other => panic!("expected a compound, got {other:?}"),
    }
    assert_eq!(decoded.entries[3].1, NbtValue::List(NbtList::Int(vec![1, 2, 3])));
    assert_eq!(decoded.entries[4].1, NbtValue::List(NbtList::End));
    assert_eq!(
        decoded.entries[5].1,
        NbtValue::List(NbtList::Double(vec![1.5_f64.to_bits(), (-2.0_f64).to_bits()]))
    );
}

#[test]
fn a_resource_that_is_gzip_but_not_nbt_is_refused_by_name() {
    match tag_ladder()[0].decode(&gzipped(b"\x08not a compound")) {
        Err(ResourceLoadError::Parse { resource, .. }) => assert_eq!(resource, "tags_26_2.nbt"),
        other => panic!("expected a parse error, got {other:?}"),
    }
    match tag_ladder()[0].decode(b"plain bytes") {
        Err(ResourceLoadError::Decompress { resource, .. }) => assert_eq!(resource, "tags_26_2.nbt"),
        other => panic!("expected a decompression error, got {other:?}"),
    }
}

#[test]
fn a_ladder_decodes_every_rung_or_reports_the_first_failure() {
    let ladder = codec_ladder();
    let good = gzipped(&named_root(&sample_compound()));
    let all: Vec<(ResourceSelection, Vec<u8>)> =
        ladder.iter().map(|selection| (*selection, good.clone())).collect();
    let decoded = ResourceSelection::decode_all(&all).expect("every rung decodes");
    assert_eq!(decoded.len(), ladder.len());

    let mut broken = all.clone();
    broken[3].1 = b"junk".to_vec();
    broken[7].1 = gzipped(b"\x01");
    match ResourceSelection::decode_all(&broken) {
        Err(ResourceLoadError::Decompress { resource, .. }) => assert_eq!(resource, ladder[3].name()),
        other => panic!("expected the fourth rung to fail, got {other:?}"),
    }
}
