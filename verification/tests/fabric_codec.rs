use asha_services::ids::is_hash;
use asha_services::fabric_codec::{
    gameplay_canonical_codec_id, gameplay_canonical_payload_hash, gameplay_schema_hash,
    stable_bytes_identity, stable_digest, stable_identity, admit_payload, GameplayCodecError,
};

fn fnv_reference(bytes: &[u8]) -> u64 {
    let mut h = 0xcbf2_9ce4_8422_2325u64;
    for b in bytes {
        h ^= *b as u64;
        h = h.wrapping_mul(0x0000_0100_0000_01b3);
    }
    h
}

fn framed(parts: &[&[u8]]) -> Vec<u8> {
    let mut out = Vec::new();
    for p in parts {
        out.extend_from_slice(&(p.len() as u64).to_le_bytes());
        out.extend_from_slice(p);
    }
    out
}

#[test]
fn stable_identity_matches_framed_fnv_label() {
    let expected = format!("fnv1a64:{:016x}", fnv_reference(&framed(&[b"sdk", b"combat"])));
    assert_eq!(stable_identity(&["sdk", "combat"]), expected);
    assert_eq!(stable_bytes_identity(&[b"sdk", b"combat"]), expected);
}

#[test]
fn stable_identity_frames_part_boundaries() {
    assert_ne!(stable_identity(&["ab", "c"]), stable_identity(&["a", "bc"]));
}

#[test]
fn empty_identity_is_the_offset_basis() {
    assert_eq!(stable_identity(&[]), "fnv1a64:cbf29ce484222325");
}

#[test]
fn payload_hash_is_single_part_identity() {
    let payload = b"{\"amount\":17}";
    assert_eq!(
        gameplay_canonical_payload_hash(payload),
        stable_bytes_identity(&[payload])
    );
    assert_eq!(
        gameplay_canonical_payload_hash(payload),
        format!("fnv1a64:{:016x}", fnv_reference(&framed(&[payload])))
    );
}

#[test]
fn schema_hash_prefixes_the_schema_domain() {
    assert_eq!(
        gameplay_schema_hash("damage-applied:v1"),
        stable_identity(&["asha.gameplay-schema.v1", "damage-applied:v1"])
    );
}

#[test]
fn codec_id_names_the_schema_hash() {
    let hash = gameplay_schema_hash("x");
    assert_eq!(
        gameplay_canonical_codec_id(&hash),
        format!("asha.canonical-codec.{hash}")
    );
}

#[test]
fn stable_digest_hashes_unframed_text() {
    assert_eq!(
        stable_digest("order a -> b"),
        format!("fnv1a64:{:016x}", fnv_reference(b"order a -> b"))
    );
}

#[test]
fn unregistered_contracts_are_refused_before_any_check() {
    let r = admit_payload("game.event@1", false, true, Ok(vec![1, 2]), &[1, 2], "x");
    assert_eq!(
        r,
        Err(GameplayCodecError::UnknownContract { contract: "game.event@1".to_owned() })
    );
    let bytes = [1u8, 2];
    let hash = gameplay_canonical_payload_hash(&bytes);
    assert_eq!(admit_payload("game.event@1", true, true, Ok(bytes.to_vec()), &bytes, &hash), Ok(()));
}

#[test]
fn identities_and_schema_hashes_are_well_formed_hashes() {
    assert!(is_hash(&gameplay_schema_hash("{\"fields\":[]}")));
    assert!(is_hash(&stable_identity(&["a", "b"])));
    assert!(is_hash(&stable_digest("")));
    assert!(is_hash(&gameplay_canonical_payload_hash(b"payload")));
}
