use limbo::dimension_type::DimensionType;
use limbo::resource_selection::{codec_ladder, tag_ladder, ResourceSelection};
use limbo::tag_entry::TagEntry;
use limbo::tag_registry::TagRegistry;
use limbo::version::ProtocolVersion;
use limbo::version_match::VersionMatch;

fn selected_codec_name(version: ProtocolVersion) -> Option<&'static str> {
    let ladder = codec_ladder();
    ResourceSelection::select(&ladder, version)
        .and_then(|rung| ladder.get(rung))
        .map(ResourceSelection::name)
}

fn selected_tag_set_name(version: ProtocolVersion) -> Option<&'static str> {
    let ladder = tag_ladder();
    ResourceSelection::select(&ladder, version)
        .and_then(|rung| ladder.get(rung))
        .map(ResourceSelection::name)
}

#[test]
fn given_the_two_ladders_when_counted_then_every_shipped_resource_is_reachable() {
    assert_eq!(codec_ladder().len(), 19);
    assert_eq!(tag_ladder().len(), 11);
}

#[test]
fn given_a_ladder_whose_last_rung_matches_anything_when_any_version_is_offered_then_a_rung_is_found()
{
    for version in ProtocolVersion::all() {
        assert!(
            ResourceSelection::select(&codec_ladder(), version).is_some(),
            "no codec for {version:?}"
        );
        assert!(
            ResourceSelection::select(&tag_ladder(), version).is_some(),
            "no tag set for {version:?}"
        );
    }
}

#[test]
fn given_an_empty_ladder_when_a_version_is_offered_then_no_rung_is_found() {
    assert_eq!(ResourceSelection::select(&[], ProtocolVersion::V1_21), None);
}

#[test]
fn given_a_protocol_version_when_a_codec_is_selected_then_it_matches_the_java_chain() {
    let expected = [
        (ProtocolVersion::V1_7_2, "codec_1_16.nbt"),
        (ProtocolVersion::V1_15_2, "codec_1_16.nbt"),
        (ProtocolVersion::V1_16, "codec_1_16.nbt"),
        (ProtocolVersion::V1_16_1, "codec_1_16.nbt"),
        (ProtocolVersion::V1_16_2, "codec_1_16_2.nbt"),
        (ProtocolVersion::V1_16_4, "codec_1_16_2.nbt"),
        (ProtocolVersion::V1_17, "codec_1_17.nbt"),
        (ProtocolVersion::V1_18, "codec_1_17.nbt"),
        (ProtocolVersion::V1_18_2, "codec_1_18_2.nbt"),
        (ProtocolVersion::V1_19, "codec_1_19.nbt"),
        (ProtocolVersion::V1_19_1, "codec_1_19_1.nbt"),
        (ProtocolVersion::V1_19_3, "codec_1_19_1.nbt"),
        (ProtocolVersion::V1_19_4, "codec_1_19_4.nbt"),
        (ProtocolVersion::V1_20, "codec_1_20.nbt"),
        (ProtocolVersion::V1_20_2, "codec_1_20.nbt"),
        (ProtocolVersion::V1_20_3, "codec_1_20.nbt"),
        (ProtocolVersion::V1_20_5, "codec_1_20_5.nbt"),
        (ProtocolVersion::V1_21, "codec_1_21.nbt"),
        (ProtocolVersion::V1_21_2, "codec_1_21_2.nbt"),
        (ProtocolVersion::V1_21_4, "codec_1_21_4.nbt"),
        (ProtocolVersion::V1_21_5, "codec_1_21_5.nbt"),
        (ProtocolVersion::V1_21_6, "codec_1_21_6.nbt"),
        (ProtocolVersion::V1_21_7, "codec_1_21_7.nbt"),
        (ProtocolVersion::V1_21_9, "codec_1_21_9.nbt"),
        (ProtocolVersion::V1_21_11, "codec_1_21_11.nbt"),
        (ProtocolVersion::V26_1, "codec_26_1.nbt"),
        (ProtocolVersion::V26_2, "codec_26_2.nbt"),
    ];

    for (version, resource) in expected {
        assert_eq!(selected_codec_name(version), Some(resource), "{version:?}");
    }
}

#[test]
fn given_a_protocol_version_when_a_tag_set_is_selected_then_it_matches_the_java_chain() {
    let expected = [
        (ProtocolVersion::V1_20_5, "tags_1_20_5.nbt"),
        (ProtocolVersion::V1_21, "tags_1_21.nbt"),
        (ProtocolVersion::V1_21_2, "tags_1_21_2.nbt"),
        (ProtocolVersion::V1_21_4, "tags_1_21_4.nbt"),
        (ProtocolVersion::V1_21_5, "tags_1_21_5.nbt"),
        (ProtocolVersion::V1_21_6, "tags_1_21_6.nbt"),
        (ProtocolVersion::V1_21_7, "tags_1_21_7.nbt"),
        (ProtocolVersion::V1_21_9, "tags_1_21_9.nbt"),
        (ProtocolVersion::V1_21_11, "tags_1_21_11.nbt"),
        (ProtocolVersion::V26_1, "tags_26_1.nbt"),
        (ProtocolVersion::V26_2, "tags_26_2.nbt"),
    ];

    for (version, resource) in expected {
        assert_eq!(selected_tag_set_name(version), Some(resource), "{version:?}");
    }
}

#[test]
fn given_a_version_below_1_20_5_when_a_tag_set_is_selected_then_the_oldest_one_is_used() {
    for version in [ProtocolVersion::V1_7_2, ProtocolVersion::V1_20_3] {
        assert_eq!(selected_tag_set_name(version), Some("tags_1_20_5.nbt"));
    }
}

#[test]
fn given_an_exact_match_when_a_newer_version_is_offered_then_it_is_not_claimed() {
    let rung = VersionMatch::Exactly(ProtocolVersion::V1_21_9);
    assert!(rung.matches(ProtocolVersion::V1_21_9));
    assert!(!rung.matches(ProtocolVersion::V1_21_11));
    assert!(!rung.matches(ProtocolVersion::V1_21_7));
}

#[test]
fn given_a_lower_bound_when_the_release_below_it_is_offered_then_it_is_not_claimed() {
    let rung = VersionMatch::AtLeast(ProtocolVersion::V1_20);
    assert!(rung.matches(ProtocolVersion::V1_20));
    assert!(rung.matches(ProtocolVersion::V26_2));
    assert!(!rung.matches(ProtocolVersion::V1_19_4));
}

#[test]
fn given_the_trailing_rung_when_any_version_is_offered_then_it_is_claimed() {
    for version in ProtocolVersion::all() {
        assert!(VersionMatch::Any.matches(version), "{version:?}");
    }
}

#[test]
fn an_overlapping_ladder_resolves_to_the_first_claiming_rung() {
    let ladder = [
        ResourceSelection::new("exact.nbt", VersionMatch::Exactly(ProtocolVersion::V1_19)),
        ResourceSelection::new("bound.nbt", VersionMatch::AtLeast(ProtocolVersion::V1_18)),
        ResourceSelection::new("rest.nbt", VersionMatch::Any),
    ];
    assert_eq!(ResourceSelection::select(&ladder, ProtocolVersion::V1_19), Some(0));
    assert_eq!(ResourceSelection::select(&ladder, ProtocolVersion::V1_20), Some(1));
    assert_eq!(ResourceSelection::select(&ladder, ProtocolVersion::V1_8), Some(2));
    assert_eq!(ResourceSelection::select(&ladder[..2], ProtocolVersion::V1_8), None);
}

#[test]
fn dimension_types_carry_their_keys_and_legacy_ids() {
    assert_eq!(DimensionType::Overworld.key(), "minecraft:overworld");
    assert_eq!(DimensionType::TheNether.key(), "minecraft:the_nether");
    assert_eq!(DimensionType::TheEnd.key(), "minecraft:the_end");
    assert_eq!(DimensionType::Overworld.legacy_id(), 0);
    assert_eq!(DimensionType::TheNether.legacy_id(), -1);
    assert_eq!(DimensionType::TheEnd.legacy_id(), 1);
    assert_eq!(DimensionType::ALL.len(), 3);
}

#[test]
fn tags_keep_their_keys_and_members_in_order() {
    let empty = TagEntry::new("minecraft:incorrect_for_diamond_tool".to_owned(), Vec::new());
    let logs = TagEntry::new("minecraft:logs".to_owned(), vec![3, 1, 2]);
    assert_eq!(logs.key(), "minecraft:logs");
    assert_eq!(logs.entry_ids(), &[3, 1, 2]);
    assert!(empty.entry_ids().is_empty());
    let registry = TagRegistry::new("minecraft:block".to_owned(), vec![logs, empty]);
    assert_eq!(registry.key(), "minecraft:block");
    assert_eq!(registry.tags().len(), 2);
    assert_eq!(registry.tags()[0].key(), "minecraft:logs");
    assert_eq!(registry.tags()[1].key(), "minecraft:incorrect_for_diamond_tool");
}

#[test]
fn every_rung_of_both_ladders_serves_some_release() {
    for ladder in [codec_ladder(), tag_ladder()] {
        for rung in 0..ladder.len() {
            assert!(
                ProtocolVersion::all()
                    .into_iter()
                    .any(|version| ResourceSelection::select(&ladder, version) == Some(rung)),
                "rung {rung} serves nothing"
            );
        }
    }
}
