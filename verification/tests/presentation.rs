use asha_services::presentation::{
    validate_presentation, AnimatedMeshDescriptor, AnimationClip, CatalogAsset, MeshMaterialSlot,
    PresentationCatalog, PresentationCue, PresentationDiagnostic, PresentationDiagnosticCode,
    PresentationResource, PresentationSignal, ProjectPresentationResourceKind,
    ProjectPresentationSignalDomain,
};

fn asset(id: &str, path: &str, hash: &str) -> CatalogAsset {
    CatalogAsset { id: id.to_owned(), source_path: Some(path.to_owned()), hash: Some(hash.to_owned()) }
}

fn assets() -> Vec<CatalogAsset> {
    vec![
        asset("mesh/door", "meshes/door.glb", "fnv1a64:0000000000000001"),
        asset("audio/creak", "audio/creak.ogg", "fnv1a64:0000000000000002"),
        asset("sprite/dust", "sprites/dust.png", "fnv1a64:0000000000000003"),
    ]
}

fn mesh() -> PresentationResource {
    PresentationResource {
        resource_id: "door-mesh".to_owned(),
        kind: ProjectPresentationResourceKind::AnimatedMesh,
        asset_id: "mesh/door".to_owned(),
        source_path: "meshes/door.glb".to_owned(),
        content_hash: "fnv1a64:0000000000000001".to_owned(),
        animated_mesh: Some(AnimatedMeshDescriptor {
            asset: "mesh/door".to_owned(),
            content_hash: Some("fnv1a64:0000000000000001".to_owned()),
            clips: vec![
                AnimationClip { id: "open".to_owned(), duration_valid: true },
                AnimationClip { id: "close".to_owned(), duration_valid: true },
            ],
            default_clip: Some("open".to_owned()),
            material_slots: vec![MeshMaterialSlot { slot: 0, material: "wood".to_owned() }],
            bounds_valid: true,
        }),
    }
}

fn simple(id: &str, kind: ProjectPresentationResourceKind, asset_id: &str, path: &str, hash: &str) -> PresentationResource {
    PresentationResource {
        resource_id: id.to_owned(),
        kind,
        asset_id: asset_id.to_owned(),
        source_path: path.to_owned(),
        content_hash: hash.to_owned(),
        animated_mesh: None,
    }
}

fn catalog() -> PresentationCatalog {
    PresentationCatalog {
        schema_version: 1,
        resources: vec![
            mesh(),
            simple("creak", ProjectPresentationResourceKind::Audio, "audio/creak", "audio/creak.ogg", "fnv1a64:0000000000000002"),
            simple("dust", ProjectPresentationResourceKind::Particle, "sprite/dust", "sprites/dust.png", "fnv1a64:0000000000000003"),
        ],
        cues: vec![
            PresentationCue::Animation {
                cue_id: "door-open".to_owned(),
                resource_id: "door-mesh".to_owned(),
                clip_id: "open".to_owned(),
                at_seconds_valid: true,
                signal: PresentationSignal { domain: ProjectPresentationSignalDomain::Audio, signal_id: "creak".to_owned() },
            },
            PresentationCue::Audio {
                cue_id: "creak-audio".to_owned(),
                signal_id: "creak".to_owned(),
                resource_id: "creak".to_owned(),
                gain_valid: true,
            },
            PresentationCue::Particle {
                cue_id: "dust-burst".to_owned(),
                signal_id: "dust".to_owned(),
                resource_id: "dust".to_owned(),
                scale_valid: true,
            },
            PresentationCue::Overlay { cue_id: "hud".to_owned(), resource_id: "dust".to_owned() },
        ],
    }
}

fn check(cat: PresentationCatalog) -> Vec<PresentationDiagnostic> {
    validate_presentation(&vec![cat], &assets(), 1)
}

#[test]
fn a_consistent_catalog_passes() {
    assert!(check(catalog()).is_empty());
}

#[test]
fn resources_must_match_their_catalog_assets() {
    let mut cat = catalog();
    cat.resources[1].kind = ProjectPresentationResourceKind::Font;
    cat.resources[2].content_hash = "fnv1a64:ffffffffffffffff".to_owned();
    cat.resources.push(simple("ghost", ProjectPresentationResourceKind::Overlay, "sprite/ghost", "x.png", "h"));
    let mut broken_mesh = mesh();
    broken_mesh.resource_id = "door-mesh-2".to_owned();
    if let Some(desc) = broken_mesh.animated_mesh.as_mut() {
        desc.default_clip = Some("slam".to_owned());
    }
    cat.resources.push(broken_mesh);
    let diagnostics = check(cat);
    assert_eq!(
        diagnostics,
        vec![
            PresentationDiagnostic::AssetKindMismatch { document: 0, resource: 1 },
            PresentationDiagnostic::AssetIdentityMismatch { document: 0, resource: 2 },
            PresentationDiagnostic::UnresolvedResource { document: 0, resource: 3 },
            PresentationDiagnostic::InvalidAnimatedMesh { document: 0, resource: 4 },
            PresentationDiagnostic::NotAudioResource { document: 0, cue: 1 },
        ]
    );
    assert_eq!(diagnostics[0].code(), PresentationDiagnosticCode::InvalidField);
    assert_eq!(diagnostics[2].code(), PresentationDiagnosticCode::UnknownReference);
}

#[test]
fn cues_must_resolve_and_bind_signals_once() {
    let mut cat = catalog();
    cat.cues.push(PresentationCue::Audio {
        cue_id: "creak-audio".to_owned(),
        signal_id: "creak".to_owned(),
        resource_id: "dust".to_owned(),
        gain_valid: false,
    });
    cat.cues.push(PresentationCue::Animation {
        cue_id: "door-slam".to_owned(),
        resource_id: "door-mesh".to_owned(),
        clip_id: "slam".to_owned(),
        at_seconds_valid: false,
        signal: PresentationSignal { domain: ProjectPresentationSignalDomain::Particle, signal_id: "creak".to_owned() },
    });
    cat.cues.push(PresentationCue::Particle {
        cue_id: " ".to_owned(),
        signal_id: "".to_owned(),
        resource_id: "missing".to_owned(),
        scale_valid: false,
    });
    let diagnostics = check(cat);
    assert_eq!(
        diagnostics,
        vec![
            PresentationDiagnostic::InvalidGain { document: 0, cue: 4 },
            PresentationDiagnostic::InvalidSignalBinding { document: 0, cue: 4 },
            PresentationDiagnostic::NotAudioResource { document: 0, cue: 4 },
            PresentationDiagnostic::InvalidCueId { document: 0, cue: 4 },
            PresentationDiagnostic::UnknownAnimationClip { document: 0, cue: 5 },
            PresentationDiagnostic::InvalidSampleTime { document: 0, cue: 5 },
            PresentationDiagnostic::UnrealizableSignal { document: 0, cue: 5 },
            PresentationDiagnostic::InvalidScale { document: 0, cue: 6 },
            PresentationDiagnostic::InvalidSignalBinding { document: 0, cue: 6 },
            PresentationDiagnostic::NotParticleResource { document: 0, cue: 6 },
            PresentationDiagnostic::InvalidCueId { document: 0, cue: 6 },
            PresentationDiagnostic::UnknownCueResource { document: 0, cue: 6 },
        ]
    );
}

#[test]
fn an_unsupported_catalog_schema_is_reported() {
    let mut cat = catalog();
    cat.schema_version = 2;
    assert_eq!(check(cat), vec![PresentationDiagnostic::UnsupportedCatalogSchema { document: 0 }]);
}
