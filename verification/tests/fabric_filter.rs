use asha_services::fabric_codec::{
    admit_canonical_payload, gameplay_canonical_codec_id, gameplay_canonical_payload_hash,
    gameplay_schema_hash, stable_identity, GameplayCodecError,
};
use asha_services::fabric_filter::{
    descriptor_matches_contract, filter_request_gate, FilterGate, GameplayEventFilterDescriptor,
    GameplayEventFilterFieldDescriptor, GameplayEventFilterFieldShape,
    GameplayEventFilterValueKind,
};

fn field(name: &str, kind: GameplayEventFilterValueKind, required: bool) -> GameplayEventFilterFieldDescriptor {
    GameplayEventFilterFieldDescriptor {
        name: name.to_owned(),
        value_kind: kind,
        required,
    }
}

fn shape(name: &str, kind: GameplayEventFilterValueKind) -> GameplayEventFilterFieldShape {
    GameplayEventFilterFieldShape {
        name: name.to_owned(),
        value_kind: kind,
    }
}

fn amount_descriptor() -> GameplayEventFilterDescriptor {
    GameplayEventFilterDescriptor {
        fields: vec![field("amount", GameplayEventFilterValueKind::Integer, true)],
    }
}

#[test]
fn filter_shapes_are_checked_against_the_published_descriptor() {
    let descriptor = amount_descriptor();
    assert_eq!(
        descriptor.validates(&[]),
        Err("required filter field `amount` is missing".to_owned())
    );
    assert_eq!(
        descriptor.validates(&[shape("damage", GameplayEventFilterValueKind::Integer)]),
        Err("filter field `damage` is not published".to_owned())
    );
    assert_eq!(
        descriptor.validates(&[shape("amount", GameplayEventFilterValueKind::Text)]),
        Err("filter field `amount` requires `integer` rather than `text`".to_owned())
    );
    assert_eq!(
        descriptor.validates(&[shape("amount", GameplayEventFilterValueKind::Integer)]),
        Ok(())
    );
    assert_eq!(
        descriptor.validates(&[
            shape("amount", GameplayEventFilterValueKind::Integer),
            shape("amount", GameplayEventFilterValueKind::Integer),
        ]),
        Err("filter field `amount` is duplicated".to_owned())
    );
}

#[test]
fn shape_errors_come_before_missing_fields() {
    let descriptor = GameplayEventFilterDescriptor {
        fields: vec![
            field("target", GameplayEventFilterValueKind::Entity, true),
            field("amount", GameplayEventFilterValueKind::Integer, false),
        ],
    };
    assert_eq!(
        descriptor.validates(&[shape("amount", GameplayEventFilterValueKind::Boolean)]),
        Err("filter field `amount` requires `integer` rather than `boolean`".to_owned())
    );
    assert_eq!(
        descriptor.validates(&[shape("amount", GameplayEventFilterValueKind::Integer)]),
        Err("required filter field `target` is missing".to_owned())
    );
}

#[test]
fn filter_requests_pass_through_the_gate() {
    let descriptor = amount_descriptor();
    for fields in [
        Vec::new(),
        vec![shape("damage", GameplayEventFilterValueKind::Integer)],
        vec![shape("amount", GameplayEventFilterValueKind::Text)],
    ] {
        assert!(matches!(
            filter_request_gate("game.combat.damage-applied@1", Some(&descriptor), &fields),
            Err(GameplayCodecError::InvalidFilter { .. })
        ));
    }
    let valid = vec![shape("amount", GameplayEventFilterValueKind::Integer)];
    assert_eq!(
        filter_request_gate("c", Some(&descriptor), &valid),
        Ok(FilterGate::EvaluateFields)
    );
    assert_eq!(filter_request_gate("c", None, &[]), Ok(FilterGate::MatchesAll));
    assert_eq!(
        filter_request_gate("c", None, &valid),
        Err(GameplayCodecError::InvalidFilter {
            contract: "c".to_owned(),
            message: "the published event does not expose filter fields".to_owned()
        })
    );
}

#[test]
fn filter_identity_sorts_fields_by_name() {
    let a = GameplayEventFilterDescriptor {
        fields: vec![
            field("target", GameplayEventFilterValueKind::Entity, true),
            field("amount", GameplayEventFilterValueKind::Integer, false),
        ],
    };
    let b = GameplayEventFilterDescriptor {
        fields: vec![
            field("amount", GameplayEventFilterValueKind::Integer, false),
            field("target", GameplayEventFilterValueKind::Entity, true),
        ],
    };
    let expected = stable_identity(&[
        "asha.gameplay-event-filter.v1|amount:integer:optional|target:entity:required",
    ]);
    assert_eq!(a.identity(), expected);
    assert_eq!(b.identity(), expected);
}

#[test]
fn filter_identity_keeps_listing_order_among_equal_names() {
    let d = GameplayEventFilterDescriptor {
        fields: vec![
            field("b", GameplayEventFilterValueKind::Text, true),
            field("a", GameplayEventFilterValueKind::Vector3, false),
            field("b", GameplayEventFilterValueKind::Number, false),
            field("ab", GameplayEventFilterValueKind::PrefabPart, true),
        ],
    };
    let expected = stable_identity(&[
        "asha.gameplay-event-filter.v1|a:vector3:optional|ab:prefabPart:required|b:text:required|b:number:optional",
    ]);
    assert_eq!(d.identity(), expected);
    let empty = GameplayEventFilterDescriptor { fields: Vec::new() };
    assert_eq!(empty.identity(), stable_identity(&["asha.gameplay-event-filter.v1"]));
}

#[test]
fn well_formed_descriptors_name_each_field_once() {
    assert!(amount_descriptor().is_well_formed());
    assert!(!GameplayEventFilterDescriptor { fields: Vec::new() }.is_well_formed());
    let blank = GameplayEventFilterDescriptor {
        fields: vec![field(" \t", GameplayEventFilterValueKind::Boolean, false)],
    };
    assert!(!blank.is_well_formed());
    let twice = GameplayEventFilterDescriptor {
        fields: vec![
            field("amount", GameplayEventFilterValueKind::Integer, true),
            field("amount", GameplayEventFilterValueKind::Text, false),
        ],
    };
    assert!(!twice.is_well_formed());
}

#[test]
fn value_kinds_have_canonical_names() {
    let names: Vec<&str> = [
        GameplayEventFilterValueKind::Entity,
        GameplayEventFilterValueKind::PrefabPart,
        GameplayEventFilterValueKind::Text,
        GameplayEventFilterValueKind::Boolean,
        GameplayEventFilterValueKind::Integer,
        GameplayEventFilterValueKind::Number,
        GameplayEventFilterValueKind::Vector3,
    ]
    .iter()
    .map(|k| k.identity())
    .collect();
    assert_eq!(
        names,
        vec!["entity", "prefabPart", "text", "boolean", "integer", "number", "vector3"]
    );
}

#[test]
fn codec_descriptor_must_match_its_contract() {
    let descriptor = "fixture:game.combat.damage-applied;canonical-json-v1";
    let schema_hash = gameplay_schema_hash(descriptor);
    let codec_id = gameplay_canonical_codec_id(&schema_hash);
    assert!(descriptor_matches_contract(&schema_hash, &codec_id, descriptor, None));
    assert!(!descriptor_matches_contract(
        &schema_hash,
        &codec_id,
        "wrong-schema-descriptor",
        None
    ));
    assert!(!descriptor_matches_contract(&schema_hash, "asha.canonical-codec.x", descriptor, None));
    let bad_filter = GameplayEventFilterDescriptor { fields: Vec::new() };
    assert!(!descriptor_matches_contract(
        &schema_hash,
        &codec_id,
        descriptor,
        Some(&bad_filter)
    ));
    assert!(descriptor_matches_contract(
        &schema_hash,
        &codec_id,
        descriptor,
        Some(&amount_descriptor())
    ));
}

#[test]
fn admission_rejects_noncanonical_and_wrong_hash_payloads() {
    let canonical = br#"{"amount":17}"#.to_vec();
    let noncanonical = br#"{ "amount": 17 }"#;
    assert_eq!(
        admit_canonical_payload(
            "game.combat.damage-applied@1",
            true,
            Ok(canonical.clone()),
            noncanonical,
            &gameplay_canonical_payload_hash(noncanonical),
        ),
        Err(GameplayCodecError::NonCanonical {
            contract: "game.combat.damage-applied@1".to_owned()
        })
    );
    assert_eq!(
        admit_canonical_payload("c", true, Ok(canonical.clone()), &canonical, "fnv1a64:0000000000000000"),
        Err(GameplayCodecError::PayloadHashMismatch {
            contract: "c".to_owned()
        })
    );
    assert_eq!(
        admit_canonical_payload(
            "c",
            true,
            Ok(canonical.clone()),
            &canonical,
            &gameplay_canonical_payload_hash(&canonical)
        ),
        Ok(())
    );
    assert_eq!(
        admit_canonical_payload(
            "c",
            false,
            Ok(canonical.clone()),
            &canonical,
            &gameplay_canonical_payload_hash(&canonical)
        ),
        Err(GameplayCodecError::SchemaDescriptorMismatch {
            contract: "c".to_owned()
        })
    );
    let decode = GameplayCodecError::Decode {
        contract: "c".to_owned(),
        message: "bad json".to_owned(),
    };
    assert_eq!(
        admit_canonical_payload("c", true, Err(decode.clone()), &canonical, "x"),
        Err(decode)
    );
}

#[test]
fn codec_errors_read_as_sentences() {
    let c = || "game.combat.damage-applied@1".to_owned();
    assert_eq!(
        GameplayCodecError::UnknownContract { contract: c() }.to_string(),
        "no codec for contract `game.combat.damage-applied@1`"
    );
    assert_eq!(
        GameplayCodecError::WrongPayloadType { contract: c() }.to_string(),
        "payload type does not match codec for `game.combat.damage-applied@1`"
    );
    assert_eq!(
        GameplayCodecError::Encode { contract: c(), message: "boom".to_owned() }.to_string(),
        "codec for `game.combat.damage-applied@1` could not encode: boom"
    );
    assert_eq!(
        GameplayCodecError::Decode { contract: c(), message: "eof".to_owned() }.to_string(),
        "codec for `game.combat.damage-applied@1` could not decode: eof"
    );
    assert_eq!(
        GameplayCodecError::SchemaDescriptorMismatch { contract: c() }.to_string(),
        "codec schema descriptor does not match `game.combat.damage-applied@1`"
    );
    assert_eq!(
        GameplayCodecError::NonCanonical { contract: c() }.to_string(),
        "payload bytes are not canonical for `game.combat.damage-applied@1`"
    );
    assert_eq!(
        GameplayCodecError::PayloadHashMismatch { contract: c() }.to_string(),
        "payload hash does not match canonical bytes for `game.combat.damage-applied@1`"
    );
    assert_eq!(
        GameplayCodecError::InvalidFilter { contract: c(), message: "no".to_owned() }.to_string(),
        "filter for `game.combat.damage-applied@1` is invalid: no"
    );
}
