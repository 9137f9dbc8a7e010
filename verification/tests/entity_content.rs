use asha_services::entity_content::{validate_entities, EntityContentCode, EntityContentDiagnostic};
use asha_services::entity_definition::{AppearanceFacts, CapabilityFacts, DefinitionProblem, EntityDefinitionFacts};
use asha_services::presentation::{AnimatedMeshDescriptor, AnimationClip, PresentationResource, ProjectPresentationResourceKind};

fn resource(id: &str, clips: Option<Vec<&str>>) -> PresentationResource {
    PresentationResource {
        resource_id: id.to_owned(),
        kind: if clips.is_some() { ProjectPresentationResourceKind::AnimatedMesh } else { ProjectPresentationResourceKind::Overlay },
        asset_id: format!("mesh/{id}"),
        source_path: "a".to_owned(),
        content_hash: "h".to_owned(),
        animated_mesh: clips.map(|cs| AnimatedMeshDescriptor {
            asset: format!("mesh/{id}"),
            content_hash: Some("h".to_owned()),
            clips: cs.iter().map(|c| AnimationClip { id: (*c).to_owned(), duration_valid: true }).collect(),
            default_clip: None,
            material_slots: Vec::new(),
            bounds_valid: true,
        }),
    }
}

fn projection(resource_id: &str, clip: Option<&str>) -> CapabilityFacts {
    CapabilityFacts::RenderProjection {
        projection_id: "proj".to_owned(),
        appearance: Some(AppearanceFacts {
            resource_id: resource_id.to_owned(),
            initial_clip_id: clip.map(|c| c.to_owned()),
            model_scale_positive: true,
        }),
    }
}

fn definition(capabilities: Vec<CapabilityFacts>) -> EntityDefinitionFacts {
    EntityDefinitionFacts {
        stable_id: "actor/door".to_owned(),
        display_name: "Door".to_owned(),
        project_bundle: "asha-demo".to_owned(),
        relative_path: "entities/door.json".to_owned(),
        capabilities,
    }
}

#[test]
fn appearances_must_reference_animated_meshes_and_their_clips() {
    let resources = vec![resource("door", Some(vec!["open"])), resource("hud", None)];
    assert!(validate_entities(&vec![definition(vec![projection("door", Some("open"))])], &resources).is_empty());
    let defs = vec![
        definition(vec![projection("door", Some("slam"))]),
        definition(vec![CapabilityFacts::Render, projection("hud", None)]),
        definition(vec![projection("missing", None), CapabilityFacts::Health { current: 1, max: 0 }]),
    ];
    let diagnostics = validate_entities(&defs, &resources);
    assert_eq!(
        diagnostics,
        vec![
            EntityContentDiagnostic::UnknownInitialClip { document: 0, capability: 0 },
            EntityContentDiagnostic::AppearanceNotAnimatedMesh { document: 1, capability: 1 },
            EntityContentDiagnostic::Definition { document: 2, problem: DefinitionProblem::InvalidHealth { index: 1 } },
            EntityContentDiagnostic::UnknownAppearanceResource { document: 2, capability: 0 },
        ]
    );
    assert_eq!(diagnostics[1].code(), EntityContentCode::InvalidField);
    assert_eq!(diagnostics[2].code(), EntityContentCode::InvalidDocument);
}
