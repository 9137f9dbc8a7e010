use asha_services::content::{document_set_hash, CanonicalFileKey};
use asha_services::fabric_codec::stable_digest;

#[test]
fn document_set_hash_binds_paths_ids_and_hashes() {
    let files = vec![
        CanonicalFileKey {
            source_path: Some("content/main.json".to_owned()),
            document_id: "main".to_owned(),
            content_hash: "fnv1a64:0000000000000001".to_owned(),
        },
        CanonicalFileKey {
            source_path: None,
            document_id: "generated".to_owned(),
            content_hash: "fnv1a64:0000000000000002".to_owned(),
        },
    ];
    assert_eq!(
        document_set_hash(&files),
        stable_digest(
            "project-content-set-v1|content/main.json|main|fnv1a64:0000000000000001|-|generated|fnv1a64:0000000000000002"
        )
    );
    assert_eq!(document_set_hash(&[]), stable_digest("project-content-set-v1"));
}

