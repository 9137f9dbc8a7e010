//! The editor's field metadata of a project-content set: which fields of
//! each document are editable, with their labels, value kinds and bounds,
//! and the reference options a reference field offers.
//!
//! Number bounds are floating-point values; a row names the range it takes
//! them from, and its caller writes the numbers.

use vstd::prelude::*;
use crate::gameplay_content::{reference_exists, reference_exists_exec, ProjectContentReferenceKind, ReferenceIndexFacts};
use crate::readout::{
    lemma_text_lt, text_lt,
    edge_view, edge_views, lemma_edge_leq_total, sort_edges, sorted_edges, edge_leq, TopologyEdge,
};
use crate::text::{dec_digits, push_dec};
use crate::topology::text_less;
use crate::entity_definition::{AppearanceFacts, CapabilityFacts};
use crate::gameplay_content::{ProjectConfigurationSchema, ProjectConfigurationValueKind, ProjectGameplayConfiguration};
use crate::presentation::{PresentationCue, ProjectPresentationResourceKind};

verus! {

// ---------------------------------------------------------------------------
// Reference options.

/// One option a reference field offers: the target id and its label.
#[derive(Debug, Clone, PartialEq, Eq)]
pub struct ReferenceOption {
    pub target_id: String,
    pub label: String,
}

/// An asset catalog entry: its id and label.
#[derive(Debug, Clone, PartialEq, Eq)]
pub struct AssetEntryFacts {
    pub id: String,
    pub label: Option<String>,
}

/// An entity definition: its stable id and display name.
#[derive(Debug, Clone, PartialEq, Eq)]
pub struct EntityOptionFacts {
    pub stable_id: String,
    pub display_name: String,
}

/// A scene entity instance: its id and its node's label.
#[derive(Debug, Clone, PartialEq, Eq)]
pub struct InstanceOptionFacts {
    pub instance_id: String,
    pub node_label: Option<String>,
}

/// A prefab definition: its id, display name and part roles.
#[derive(Debug, Clone, PartialEq, Eq)]
pub struct PrefabOptionFacts {
    pub prefab_id: u64,
    pub display_name: String,
    pub roles: Vec<String>,
}

/// What reference options are drawn from, each in document order (scene
/// instances in scene, then node order).
#[derive(Debug, Clone, PartialEq, Eq)]
pub struct OptionSources {
    pub asset_entries: Vec<AssetEntryFacts>,
    pub entities: Vec<EntityOptionFacts>,
    pub scene_instances: Vec<InstanceOptionFacts>,
    pub prefabs: Vec<PrefabOptionFacts>,
    pub presentation_resources: Vec<String>,
}

pub open spec fn label_or(label: Option<String>, id: Seq<char>) -> Seq<char> {
    match label {
        Some(l) => l@,
        None => id,
    }
}

pub open spec fn is_entity_kind(kind: ProjectContentReferenceKind) -> bool {
    ||| kind == ProjectContentReferenceKind::EntityDefinition
    ||| kind == ProjectContentReferenceKind::InstantiatedEntityDefinition
    ||| kind == ProjectContentReferenceKind::InstantiatedBoundedEntityDefinition
    ||| kind == ProjectContentReferenceKind::EntrySceneFpsPlayerEntityDefinition
}

/// The entity definitions that resolve as references of `kind`, as options.
pub open spec fn entity_options(es: Seq<EntityOptionFacts>, kind: ProjectContentReferenceKind, index: ReferenceIndexFacts) -> Seq<(Seq<char>, Seq<char>)>
    decreases es.len(),
{
    if es.len() == 0 {
        Seq::empty()
    } else {
        let e = es.last();
        entity_options(es.drop_last(), kind, index) + if reference_exists(kind, e.stable_id, index) {
            seq![(e.stable_id@, e.display_name@)]
        } else {
            Seq::empty()
        }
    }
}

/// The part options of prefab definitions: `id:role`, labelled
/// `name · role`.
pub open spec fn part_options(ps: Seq<PrefabOptionFacts>) -> Seq<(Seq<char>, Seq<char>)>
    decreases ps.len(),
{
    if ps.len() == 0 {
        Seq::empty()
    } else {
        let p = ps.last();
        part_options(ps.drop_last()) + p.roles@.map_values(|r: String|
            (dec_digits(p.prefab_id as nat) + ":"@ + r@, p.display_name@ + " · "@ + r@))
    }
}

/// The options of `kind`, before ordering.
pub open spec fn candidate_options(kind: ProjectContentReferenceKind, s: OptionSources, index: ReferenceIndexFacts) -> Seq<(Seq<char>, Seq<char>)> {
    match kind {
        ProjectContentReferenceKind::Asset => s.asset_entries@.map_values(|e: AssetEntryFacts| (e.id@, label_or(e.label, e.id@))),
        ProjectContentReferenceKind::SceneInstance => s.scene_instances@.map_values(|i: InstanceOptionFacts|
            (i.instance_id@, label_or(i.node_label, i.instance_id@))),
        ProjectContentReferenceKind::Prefab => s.prefabs@.map_values(|p: PrefabOptionFacts| (dec_digits(p.prefab_id as nat), p.display_name@)),
        ProjectContentReferenceKind::PrefabPart => part_options(s.prefabs@),
        ProjectContentReferenceKind::PresentationResource => s.presentation_resources@.map_values(|r: String| (r@, r@)),
        _ => entity_options(s.entities@, kind, index),
    }
}

pub open spec fn option_edge(o: (Seq<char>, Seq<char>)) -> (Seq<char>, Seq<char>, Seq<char>, Option<Seq<char>>) {
    (Seq::empty(), o.0, o.1, None)
}

/// The options ordered by target id, then label.
pub open spec fn sorted_options(xs: Seq<(Seq<char>, Seq<char>)>) -> Seq<(Seq<char>, Seq<char>)> {
    sorted_edges(xs.map_values(|o: (Seq<char>, Seq<char>)| option_edge(o)))
        .map_values(|e: (Seq<char>, Seq<char>, Seq<char>, Option<Seq<char>>)| (e.1, e.2))
}

/// Each run of options with one target id reduced to its first.
pub open spec fn dedup_targets(xs: Seq<(Seq<char>, Seq<char>)>) -> Seq<(Seq<char>, Seq<char>)>
    decreases xs.len(),
{
    if xs.len() == 0 {
        Seq::empty()
    } else {
        let rest = dedup_targets(xs.drop_last());
        if xs.len() >= 2 && xs[xs.len() - 2].0 == xs.last().0 {
            rest
        } else {
            rest.push(xs.last())
        }
    }
}

pub open spec fn option_view(o: ReferenceOption) -> (Seq<char>, Seq<char>) {
    (o.target_id@, o.label@)
}

pub open spec fn option_views(v: Seq<ReferenceOption>) -> Seq<(Seq<char>, Seq<char>)> {
    v.map_values(|o: ReferenceOption| option_view(o))
}

fn option_edge_exec(target: String, label: String) -> (r: TopologyEdge)
    ensures
        edge_view(r) == option_edge((target@, label@)),
{
    TopologyEdge { kind: String::new(), from: target, to: label, contract: None }
}

fn entity_candidates(es_in: &Vec<EntityOptionFacts>, kind: ProjectContentReferenceKind, index: &ReferenceIndexFacts) -> (es: Vec<TopologyEdge>)
    ensures
        edge_views(es@) == entity_options(es_in@, kind, *index).map_values(|o: (Seq<char>, Seq<char>)| option_edge(o)),
{
    let mut es: Vec<TopologyEdge> = Vec::new();
    let mut k: usize = 0;
    while k < es_in.len()
        invariant
            k <= es_in@.len(),
            edge_views(es@) == entity_options(es_in@.take(k as int), kind, *index).map_values(|o: (Seq<char>, Seq<char>)| option_edge(o)),
        decreases es_in@.len() - k,
    {
        let x = &es_in[k];
        let ghost before = edge_views(es@);
        proof {
            assert(es_in@.take(k + 1).drop_last() =~= es_in@.take(k as int));
            assert(es_in@.take(k + 1).last() == es_in@[k as int]);
        }
        if reference_exists_exec(kind, &x.stable_id, index) {
            es.push(option_edge_exec(x.stable_id.clone(), x.display_name.clone()));
            proof {
                assert(edge_views(es@) =~= before.push(option_edge((x.stable_id@, x.display_name@))));
                assert(entity_options(es_in@.take(k + 1), kind, *index).map_values(|o: (Seq<char>, Seq<char>)| option_edge(o))
                    =~= entity_options(es_in@.take(k as int), kind, *index).map_values(|o: (Seq<char>, Seq<char>)| option_edge(o))
                        .push(option_edge((x.stable_id@, x.display_name@))));
            }
        } else {
            proof {
                assert(entity_options(es_in@.take(k + 1), kind, *index) =~= entity_options(es_in@.take(k as int), kind, *index));
            }
        }
        k = k + 1;
    }
    assert(es_in@.take(k as int) =~= es_in@);
    es
}

fn part_candidates(ps: &Vec<PrefabOptionFacts>) -> (es: Vec<TopologyEdge>)
    ensures
        edge_views(es@) == part_options(ps@).map_values(|o: (Seq<char>, Seq<char>)| option_edge(o)),
{
    let mut es: Vec<TopologyEdge> = Vec::new();
    let mut i: usize = 0;
    while i < ps.len()
        invariant
            i <= ps@.len(),
            edge_views(es@) == part_options(ps@.take(i as int)).map_values(|o: (Seq<char>, Seq<char>)| option_edge(o)),
        decreases ps@.len() - i,
    {
        let p = &ps[i];
        let ghost base = edge_views(es@);
        let ghost roles = p.roles@.map_values(|r: String|
            (dec_digits(p.prefab_id as nat) + ":"@ + r@, p.display_name@ + " · "@ + r@));
        let mut k: usize = 0;
        while k < p.roles.len()
            invariant
                i < ps@.len(),
                p == &ps@[i as int],
                k <= p.roles@.len(),
                roles == p.roles@.map_values(|r: String|
                    (dec_digits(p.prefab_id as nat) + ":"@ + r@, p.display_name@ + " · "@ + r@)),
                edge_views(es@) == base + roles.take(k as int).map_values(|o: (Seq<char>, Seq<char>)| option_edge(o)),
            decreases p.roles@.len() - k,
        {
            let mut t = String::new();
            push_dec(&mut t, p.prefab_id);
            t.append(":");
            t.append(p.roles[k].as_str());
            let mut l = p.display_name.clone();
            l.append(" · ");
            l.append(p.roles[k].as_str());
            let ghost before = edge_views(es@);
            es.push(option_edge_exec(t, l));
            proof {
                assert(roles[k as int] == (dec_digits(p.prefab_id as nat) + ":"@ + p.roles@[k as int]@, p.display_name@ + " · "@ + p.roles@[k as int]@));
                assert(edge_views(es@) =~= before.push(option_edge(roles[k as int])));
                assert(roles.take(k + 1).map_values(|o: (Seq<char>, Seq<char>)| option_edge(o))
                    =~= roles.take(k as int).map_values(|o: (Seq<char>, Seq<char>)| option_edge(o)).push(option_edge(roles[k as int])));
            }
            k = k + 1;
        }
        proof {
            assert(roles.take(k as int) =~= roles);
            assert(ps@.take(i + 1).drop_last() =~= ps@.take(i as int));
            assert(ps@.take(i + 1).last() == ps@[i as int]);
            assert(part_options(ps@.take(i + 1)) == part_options(ps@.take(i as int)) + roles);
            assert((part_options(ps@.take(i as int)) + roles).map_values(|o: (Seq<char>, Seq<char>)| option_edge(o))
                =~= part_options(ps@.take(i as int)).map_values(|o: (Seq<char>, Seq<char>)| option_edge(o))
                    + roles.map_values(|o: (Seq<char>, Seq<char>)| option_edge(o)));
        }
        i = i + 1;
    }
    assert(ps@.take(i as int) =~= ps@);
    es
}

fn candidate_edges(kind: ProjectContentReferenceKind, s: &OptionSources, index: &ReferenceIndexFacts) -> (es: Vec<TopologyEdge>)
    ensures
        edge_views(es@) == candidate_options(kind, *s, *index).map_values(|o: (Seq<char>, Seq<char>)| option_edge(o)),
{
    match kind {
        ProjectContentReferenceKind::Asset => {
            let mut es: Vec<TopologyEdge> = Vec::new();
            let mut k: usize = 0;
            while k < s.asset_entries.len()
                invariant
                    k <= s.asset_entries@.len(),
                    edge_views(es@) == s.asset_entries@.take(k as int).map_values(|x: AssetEntryFacts| option_edge((x.id@, label_or(x.label, x.id@)))),
                decreases s.asset_entries@.len() - k,
            {
                let x = &s.asset_entries[k];
                let t = x.id.clone();
                let l = match &x.label {
                    Some(l) => l.clone(),
                    None => x.id.clone(),
                };
                let ghost before = edge_views(es@);
                es.push(option_edge_exec(t, l));
                proof {
                    assert(edge_views(es@) =~= before.push(option_edge((s.asset_entries@[k as int].id@, label_or(s.asset_entries@[k as int].label, s.asset_entries@[k as int].id@)))));
                    assert(s.asset_entries@.take(k + 1).map_values(|x: AssetEntryFacts| option_edge((x.id@, label_or(x.label, x.id@))))
                        =~= s.asset_entries@.take(k as int).map_values(|x: AssetEntryFacts| option_edge((x.id@, label_or(x.label, x.id@)))).push(option_edge((s.asset_entries@[k as int].id@, label_or(s.asset_entries@[k as int].label, s.asset_entries@[k as int].id@)))));
                }
                k = k + 1;
            }
            assert(s.asset_entries@.take(k as int) =~= s.asset_entries@);
            proof {
                assert(s.asset_entries@.map_values(|x: AssetEntryFacts| option_edge((x.id@, label_or(x.label, x.id@))))
                    =~= candidate_options(kind, *s, *index).map_values(|o: (Seq<char>, Seq<char>)| option_edge(o)));
            }
            es
        },
        ProjectContentReferenceKind::SceneInstance => {
            let mut es: Vec<TopologyEdge> = Vec::new();
            let mut k: usize = 0;
            while k < s.scene_instances.len()
                invariant
                    k <= s.scene_instances@.len(),
                    edge_views(es@) == s.scene_instances@.take(k as int).map_values(|x: InstanceOptionFacts| option_edge((x.instance_id@, label_or(x.node_label, x.instance_id@)))),
                decreases s.scene_instances@.len() - k,
            {
                let x = &s.scene_instances[k];
                let t = x.instance_id.clone();
                let l = match &x.node_label {
                    Some(l) => l.clone(),
                    None => x.instance_id.clone(),
                };
                let ghost before = edge_views(es@);
                es.push(option_edge_exec(t, l));
                proof {
                    assert(edge_views(es@) =~= before.push(option_edge((s.scene_instances@[k as int].instance_id@, label_or(s.scene_instances@[k as int].node_label, s.scene_instances@[k as int].instance_id@)))));
                    assert(s.scene_instances@.take(k + 1).map_values(|x: InstanceOptionFacts| option_edge((x.instance_id@, label_or(x.node_label, x.instance_id@))))
                        =~= s.scene_instances@.take(k as int).map_values(|x: InstanceOptionFacts| option_edge((x.instance_id@, label_or(x.node_label, x.instance_id@)))).push(option_edge((s.scene_instances@[k as int].instance_id@, label_or(s.scene_instances@[k as int].node_label, s.scene_instances@[k as int].instance_id@)))));
                }
                k = k + 1;
            }
            assert(s.scene_instances@.take(k as int) =~= s.scene_instances@);
            proof {
                assert(s.scene_instances@.map_values(|x: InstanceOptionFacts| option_edge((x.instance_id@, label_or(x.node_label, x.instance_id@))))
                    =~= candidate_options(kind, *s, *index).map_values(|o: (Seq<char>, Seq<char>)| option_edge(o)));
            }
            es
        },
        ProjectContentReferenceKind::Prefab => {
            let mut es: Vec<TopologyEdge> = Vec::new();
            let mut k: usize = 0;
            while k < s.prefabs.len()
                invariant
                    k <= s.prefabs@.len(),
                    edge_views(es@) == s.prefabs@.take(k as int).map_values(|x: PrefabOptionFacts| option_edge((dec_digits(x.prefab_id as nat), x.display_name@))),
                decreases s.prefabs@.len() - k,
            {
                let x = &s.prefabs[k];
                let mut t = String::new();
                push_dec(&mut t, x.prefab_id);
                let l = x.display_name.clone();
                let ghost before = edge_views(es@);
                es.push(option_edge_exec(t, l));
                proof {
                    assert(edge_views(es@) =~= before.push(option_edge((dec_digits(s.prefabs@[k as int].prefab_id as nat), s.prefabs@[k as int].display_name@))));
                    assert(s.prefabs@.take(k + 1).map_values(|x: PrefabOptionFacts| option_edge((dec_digits(x.prefab_id as nat), x.display_name@)))
                        =~= s.prefabs@.take(k as int).map_values(|x: PrefabOptionFacts| option_edge((dec_digits(x.prefab_id as nat), x.display_name@))).push(option_edge((dec_digits(s.prefabs@[k as int].prefab_id as nat), s.prefabs@[k as int].display_name@))));
                }
                k = k + 1;
            }
            assert(s.prefabs@.take(k as int) =~= s.prefabs@);
            proof {
                assert(s.prefabs@.map_values(|x: PrefabOptionFacts| option_edge((dec_digits(x.prefab_id as nat), x.display_name@)))
                    =~= candidate_options(kind, *s, *index).map_values(|o: (Seq<char>, Seq<char>)| option_edge(o)));
            }
            es
        },
        ProjectContentReferenceKind::PrefabPart => part_candidates(&s.prefabs),
        ProjectContentReferenceKind::PresentationResource => {
            let mut es: Vec<TopologyEdge> = Vec::new();
            let mut k: usize = 0;
            while k < s.presentation_resources.len()
                invariant
                    k <= s.presentation_resources@.len(),
                    edge_views(es@) == s.presentation_resources@.take(k as int).map_values(|x: String| option_edge((x@, x@))),
                decreases s.presentation_resources@.len() - k,
            {
                let x = &s.presentation_resources[k];
                let t = x.clone();
                let l = x.clone();
                let ghost before = edge_views(es@);
                es.push(option_edge_exec(t, l));
                proof {
                    assert(edge_views(es@) =~= before.push(option_edge((s.presentation_resources@[k as int]@, s.presentation_resources@[k as int]@))));
                    assert(s.presentation_resources@.take(k + 1).map_values(|x: String| option_edge((x@, x@)))
                        =~= s.presentation_resources@.take(k as int).map_values(|x: String| option_edge((x@, x@))).push(option_edge((s.presentation_resources@[k as int]@, s.presentation_resources@[k as int]@))));
                }
                k = k + 1;
            }
            assert(s.presentation_resources@.take(k as int) =~= s.presentation_resources@);
            proof {
                assert(s.presentation_resources@.map_values(|x: String| option_edge((x@, x@)))
                    =~= candidate_options(kind, *s, *index).map_values(|o: (Seq<char>, Seq<char>)| option_edge(o)));
            }
            es
        },
        _ => entity_candidates(&s.entities, kind, index),
    }
}

/// The options a reference field of `kind` offers: the assets of the
/// catalogs, the entity definitions that resolve as that kind, the scene
/// instances, the prefabs, their parts, or the presentation resources;
/// ordered by target id, then label, and one per target id.
pub fn reference_options(kind: ProjectContentReferenceKind, sources: &OptionSources, index: &ReferenceIndexFacts) -> (r: Vec<ReferenceOption>)
    ensures
        option_views(r@) == dedup_targets(sorted_options(candidate_options(kind, *sources, *index))),
{
    let candidates = candidate_edges(kind, sources, index);
    let sorted = sort_edges(candidates);
    let ghost sv = edge_views(sorted@).map_values(|e: (Seq<char>, Seq<char>, Seq<char>, Option<Seq<char>>)| (e.1, e.2));
    proof {
        assert(candidate_options(kind, *sources, *index).map_values(|o: (Seq<char>, Seq<char>)| option_edge(o)) == edge_views(candidates@));
        assert(sv == sorted_options(candidate_options(kind, *sources, *index)));
    }
    let mut out: Vec<ReferenceOption> = Vec::new();
    let mut k: usize = 0;
    while k < sorted.len()
        invariant
            k <= sorted@.len(),
            sv == edge_views(sorted@).map_values(|e: (Seq<char>, Seq<char>, Seq<char>, Option<Seq<char>>)| (e.1, e.2)),
            option_views(out@) == dedup_targets(sv.take(k as int)),
        decreases sorted@.len() - k,
    {
        let ghost before = option_views(out@);
        proof {
            assert(sv.take(k + 1).drop_last() =~= sv.take(k as int));
            assert(sv.take(k + 1).last() == (sorted@[k as int].from@, sorted@[k as int].to@));
            if k >= 1 {
                assert(sv.take(k + 1)[k - 1] == (sorted@[k - 1].from@, sorted@[k - 1].to@));
            }
        }
        if k == 0 || sorted[k].from != sorted[k - 1].from {
            out.push(ReferenceOption { target_id: sorted[k].from.clone(), label: sorted[k].to.clone() });
            proof {
                assert(option_views(out@) =~= before.push((sorted@[k as int].from@, sorted@[k as int].to@)));
            }
        }
        k = k + 1;
    }
    assert(sv.take(k as int) =~= sv);
    out
}

// ---------------------------------------------------------------------------
// Field rows.

/// Where a number field takes its bounds from.
#[derive(Debug, Clone, Copy, PartialEq, Eq, Structural)]
pub enum NumberRange {
    /// A material colour channel or roughness: `0..=1`.
    MaterialChannel,
    /// Emission intensity: `0..=16`.
    Emission,
    /// An animation sample time: `0..=3600` seconds.
    AnimationTime,
    /// An audio gain: `0..=1`.
    AudioGain,
    /// A particle scale: `0.000001..=16`.
    ParticleScale,
    /// A model-scale axis: `0.0001..=1000`.
    ModelScale,
    /// The bounds the provider schema field declares.
    SchemaField,
}

/// The metadata of one editable field.
#[derive(Debug, Clone, PartialEq, Eq)]
pub struct FieldMetadata {
    pub document_id: String,
    pub field_id: String,
    pub path: String,
    pub label: String,
    pub value_kind: ProjectConfigurationValueKind,
    pub required: bool,
    pub reference_kind: Option<ProjectContentReferenceKind>,
    pub reference_options: Vec<ReferenceOption>,
    pub configuration_id: Option<String>,
    pub schema_id: Option<String>,
    pub module_id: Option<String>,
    pub provider_id: Option<String>,
    /// The row carries its provider schema's contract.
    pub contract_from_schema: bool,
    pub codec_id: Option<String>,
    pub integer_min: Option<i64>,
    pub integer_max: Option<i64>,
    pub number_range: Option<NumberRange>,
}

/// A field row as text.
pub struct FieldView {
    pub document_id: Seq<char>,
    pub field_id: Seq<char>,
    pub path: Seq<char>,
    pub label: Seq<char>,
    pub value_kind: ProjectConfigurationValueKind,
    pub required: bool,
    pub reference_kind: Option<ProjectContentReferenceKind>,
    pub reference_options: Seq<(Seq<char>, Seq<char>)>,
    pub configuration_id: Option<Seq<char>>,
    pub schema_id: Option<Seq<char>>,
    pub module_id: Option<Seq<char>>,
    pub provider_id: Option<Seq<char>>,
    pub contract_from_schema: bool,
    pub codec_id: Option<Seq<char>>,
    pub integer_min: Option<i64>,
    pub integer_max: Option<i64>,
    pub number_range: Option<NumberRange>,
}

pub open spec fn opt_str(o: Option<String>) -> Option<Seq<char>> {
    match o {
        Some(s) => Some(s@),
        None => None,
    }
}

pub open spec fn field_view(f: FieldMetadata) -> FieldView {
    FieldView {
        document_id: f.document_id@,
        field_id: f.field_id@,
        path: f.path@,
        label: f.label@,
        value_kind: f.value_kind,
        required: f.required,
        reference_kind: f.reference_kind,
        reference_options: option_views(f.reference_options@),
        configuration_id: opt_str(f.configuration_id),
        schema_id: opt_str(f.schema_id),
        module_id: opt_str(f.module_id),
        provider_id: opt_str(f.provider_id),
        contract_from_schema: f.contract_from_schema,
        codec_id: opt_str(f.codec_id),
        integer_min: f.integer_min,
        integer_max: f.integer_max,
        number_range: f.number_range,
    }
}

pub open spec fn field_views(v: Seq<FieldMetadata>) -> Seq<FieldView> {
    v.map_values(|f: FieldMetadata| field_view(f))
}

/// A required field of a document's own content.
pub open spec fn plain_row(
    doc: Seq<char>,
    field_id: Seq<char>,
    path: Seq<char>,
    label: Seq<char>,
    value_kind: ProjectConfigurationValueKind,
    reference_kind: Option<ProjectContentReferenceKind>,
) -> FieldView {
    FieldView {
        document_id: doc,
        field_id,
        path,
        label,
        value_kind,
        required: true,
        reference_kind,
        reference_options: Seq::empty(),
        configuration_id: None,
        schema_id: None,
        module_id: None,
        provider_id: None,
        contract_from_schema: false,
        codec_id: None,
        integer_min: None,
        integer_max: None,
        number_range: None,
    }
}

/// `prefix[index]` followed by `suffix`.
pub open spec fn indexed_path(prefix: Seq<char>, index: nat, suffix: Seq<char>) -> Seq<char> {
    prefix + "["@ + dec_digits(index) + "]"@ + suffix
}

/// A number field of one of the built-in configurable documents.
pub open spec fn builtin_number_row(
    doc: Seq<char>,
    field_id: Seq<char>,
    path: Seq<char>,
    label: Seq<char>,
    configuration_id: Seq<char>,
    schema_id: Seq<char>,
    provider_id: Seq<char>,
    codec_id: Seq<char>,
    range: NumberRange,
) -> FieldView {
    FieldView {
        document_id: doc,
        field_id,
        path,
        label,
        value_kind: ProjectConfigurationValueKind::Number,
        required: true,
        reference_kind: None,
        reference_options: Seq::empty(),
        configuration_id: Some(configuration_id),
        schema_id: Some(schema_id),
        module_id: None,
        provider_id: Some(provider_id),
        contract_from_schema: false,
        codec_id: Some(codec_id),
        integer_min: None,
        integer_max: None,
        number_range: Some(range),
    }
}

// ---------------------------------------------------------------------------
// Entity appearance rows.

#[derive(Debug, Clone, PartialEq, Eq)]
pub struct MeshClipFacts {
    pub id: String,
    pub name: Option<String>,
}

/// An animated-mesh descriptor: its default clip and clips.
#[derive(Debug, Clone, PartialEq, Eq)]
pub struct MeshDescriptorFacts {
    pub default_clip: Option<String>,
    pub clips: Vec<MeshClipFacts>,
}

/// A presentation resource, as appearance fields read it.
#[derive(Debug, Clone, PartialEq, Eq)]
pub struct MeshOptionFacts {
    pub resource_id: String,
    pub asset_id: String,
    pub kind: ProjectPresentationResourceKind,
    pub descriptor: Option<MeshDescriptorFacts>,
}

pub open spec fn is_animated(m: MeshOptionFacts) -> bool {
    m.kind == ProjectPresentationResourceKind::AnimatedMesh && m.descriptor is Some
}

/// The animated meshes with a descriptor, in order.
pub open spec fn animated_meshes(ms: Seq<MeshOptionFacts>) -> Seq<MeshOptionFacts>
    decreases ms.len(),
{
    if ms.len() == 0 {
        Seq::empty()
    } else {
        animated_meshes(ms.drop_last()) + if is_animated(ms.last()) {
            seq![ms.last()]
        } else {
            Seq::empty()
        }
    }
}

pub open spec fn resource_choices(ms: Seq<MeshOptionFacts>) -> Seq<(Seq<char>, Seq<char>)> {
    animated_meshes(ms).map_values(|m: MeshOptionFacts| (m.resource_id@, m.resource_id@ + " · "@ + m.asset_id@))
}

/// The first mesh of `am` with resource id `rid`.
pub open spec fn select_mesh(am: Seq<MeshOptionFacts>, rid: Seq<char>) -> Option<MeshOptionFacts>
    decreases am.len(),
{
    if am.len() == 0 {
        None
    } else {
        match select_mesh(am.drop_last(), rid) {
            Some(m) => Some(m),
            None => if am.last().resource_id@ == rid {
                Some(am.last())
            } else {
                None
            },
        }
    }
}

pub open spec fn clip_choice(c: MeshClipFacts) -> (Seq<char>, Seq<char>) {
    (c.id@, match c.name {
        Some(n) => c.id@ + " · "@ + n@,
        None => c.id@,
    })
}

/// The clip options of a binding to `rid`: the resource default, then the
/// selected mesh's clips.
pub open spec fn clip_choices(ms: Seq<MeshOptionFacts>, rid: Seq<char>) -> Seq<(Seq<char>, Seq<char>)> {
    let sel = select_mesh(animated_meshes(ms), rid);
    let default_text = match sel {
        Some(m) => match m.descriptor->0.default_clip {
            Some(d) => d@,
            None => "none"@,
        },
        None => "none"@,
    };
    seq![(Seq::<char>::empty(), "Resource default ("@ + default_text + ")"@)] + match sel {
        Some(m) => m.descriptor->0.clips@.map_values(|c: MeshClipFacts| clip_choice(c)),
        None => Seq::empty(),
    }
}

pub open spec fn appearance_row(
    doc: Seq<char>,
    projection_id: Seq<char>,
    field_id: Seq<char>,
    path: Seq<char>,
    label: Seq<char>,
    value_kind: ProjectConfigurationValueKind,
    required: bool,
    reference_kind: Option<ProjectContentReferenceKind>,
    options: Seq<(Seq<char>, Seq<char>)>,
    range: Option<NumberRange>,
) -> FieldView {
    FieldView {
        document_id: doc,
        field_id,
        path,
        label,
        value_kind,
        required,
        reference_kind,
        reference_options: options,
        configuration_id: Some(projection_id),
        schema_id: Some("asha.entity-appearance.v1"@),
        module_id: None,
        provider_id: Some("provider.asha.entity-appearance"@),
        contract_from_schema: false,
        codec_id: Some("svc-project-content.entity-appearance.v1"@),
        integer_min: None,
        integer_max: None,
        number_range: range,
    }
}

pub open spec fn scale_row(doc: Seq<char>, pid: Seq<char>, base: Seq<char>, axis: nat, letter: Seq<char>) -> FieldView {
    appearance_row(doc, pid, "modelScale"@ + letter, base + ".modelScale["@ + dec_digits(axis) + "]"@,
        "Model scale "@ + letter, ProjectConfigurationValueKind::Number, true, None, Seq::empty(), Some(NumberRange::ModelScale))
}

/// The appearance rows of render projection `pid`, capability `c`.
pub open spec fn appearance_rows(doc: Seq<char>, c: nat, pid: Seq<char>, binding: Option<AppearanceFacts>, ms: Seq<MeshOptionFacts>) -> Seq<FieldView> {
    let base = indexed_path("definition.capabilities"@, c, ".appearance"@);
    seq![appearance_row(doc, pid, "resourceId"@, base + ".resourceId"@, "Appearance resource"@,
        ProjectConfigurationValueKind::Reference, true, Some(ProjectContentReferenceKind::PresentationResource),
        resource_choices(ms), None)] + match binding {
        None => Seq::empty(),
        Some(b) => seq![
            appearance_row(doc, pid, "initialClipId"@, base + ".initialClipId"@, "Initial animation clip"@,
                ProjectConfigurationValueKind::String, false, None, clip_choices(ms, b.resource_id@), None),
            scale_row(doc, pid, base, 0, "X"@),
            scale_row(doc, pid, base, 1, "Y"@),
            scale_row(doc, pid, base, 2, "Z"@),
        ],
    }
}

/// The appearance rows of the first `n` capabilities.
pub open spec fn entity_appearance_rows(doc: Seq<char>, caps: Seq<CapabilityFacts>, ms: Seq<MeshOptionFacts>, n: int) -> Seq<FieldView>
    decreases n,
{
    if n <= 0 {
        Seq::empty()
    } else {
        entity_appearance_rows(doc, caps, ms, n - 1) + match caps[n - 1] {
            CapabilityFacts::RenderProjection { projection_id, appearance } => appearance_rows(doc, (n - 1) as nat, projection_id@, appearance, ms),
            _ => Seq::empty(),
        }
    }
}

fn concat(a: &str, b: &String) -> (r: String)
    ensures
        r@ == a@ + b@,
{
    let mut t = String::new();
    t.append(a);
    t.append(b.as_str());
    t
}

fn text(a: &str) -> (r: String)
    ensures
        r@ == a@,
{
    let mut t = String::new();
    t.append(a);
    t
}

fn copy_options(v: &Vec<ReferenceOption>) -> (r: Vec<ReferenceOption>)
    ensures
        option_views(r@) == option_views(v@),
{
    let mut out: Vec<ReferenceOption> = Vec::new();
    let mut i: usize = 0;
    while i < v.len()
        invariant
            i <= v@.len(),
            option_views(out@) == option_views(v@.take(i as int)),
        decreases v@.len() - i,
    {
        let ghost before = option_views(out@);
        out.push(ReferenceOption { target_id: v[i].target_id.clone(), label: v[i].label.clone() });
        proof {
            assert(option_views(out@) =~= before.push(option_view(v@[i as int])));
            assert(option_views(v@.take(i + 1)) =~= option_views(v@.take(i as int)).push(option_view(v@[i as int])));
        }
        i = i + 1;
    }
    assert(v@.take(i as int) =~= v@);
    out
}

fn is_animated_exec(m: &MeshOptionFacts) -> (r: bool)
    ensures
        r == is_animated(*m),
{
    m.kind == ProjectPresentationResourceKind::AnimatedMesh && m.descriptor.is_some()
}

/// The resource options of appearance fields.
fn resource_choices_exec(ms: &Vec<MeshOptionFacts>) -> (r: Vec<ReferenceOption>)
    ensures
        option_views(r@) == resource_choices(ms@),
{
    let mut out: Vec<ReferenceOption> = Vec::new();
    let mut i: usize = 0;
    while i < ms.len()
        invariant
            i <= ms@.len(),
            option_views(out@) == resource_choices(ms@.take(i as int)),
        decreases ms@.len() - i,
    {
        let ghost before = option_views(out@);
        proof {
            assert(ms@.take(i + 1).drop_last() =~= ms@.take(i as int));
            assert(ms@.take(i + 1).last() == ms@[i as int]);
        }
        if is_animated_exec(&ms[i]) {
            let mut l = ms[i].resource_id.clone();
            l.append(" · ");
            l.append(ms[i].asset_id.as_str());
            out.push(ReferenceOption { target_id: ms[i].resource_id.clone(), label: l });
            proof {
                assert(animated_meshes(ms@.take(i + 1)) =~= animated_meshes(ms@.take(i as int)).push(ms@[i as int]));
                assert(option_views(out@) =~= before.push((ms@[i as int].resource_id@, ms@[i as int].resource_id@ + " · "@ + ms@[i as int].asset_id@)));
                assert(resource_choices(ms@.take(i + 1)) =~= resource_choices(ms@.take(i as int))
                    .push((ms@[i as int].resource_id@, ms@[i as int].resource_id@ + " · "@ + ms@[i as int].asset_id@)));
            }
        } else {
            proof {
                assert(animated_meshes(ms@.take(i + 1)) =~= animated_meshes(ms@.take(i as int)));
            }
        }
        i = i + 1;
    }
    assert(ms@.take(i as int) =~= ms@);
    out
}

/// The first animated mesh with resource id `rid`.
fn select_mesh_exec(ms: &Vec<MeshOptionFacts>, rid: &String) -> (r: Option<usize>)
    ensures
        match r {
            Some(i) => i < ms@.len() && select_mesh(animated_meshes(ms@), rid@) == Some(ms@[i as int]),
            None => select_mesh(animated_meshes(ms@), rid@) is None,
        },
{
    let mut i: usize = 0;
    while i < ms.len()
        invariant
            i <= ms@.len(),
            select_mesh(animated_meshes(ms@.take(i as int)), rid@) is None,
        decreases ms@.len() - i,
    {
        proof {
            assert(ms@.take(i + 1).drop_last() =~= ms@.take(i as int));
            assert(ms@.take(i + 1).last() == ms@[i as int]);
        }
        if is_animated_exec(&ms[i]) && ms[i].resource_id == *rid {
            proof {
                let am = animated_meshes(ms@.take(i + 1));
                assert(am =~= animated_meshes(ms@.take(i as int)).push(ms@[i as int]));
                assert(am.drop_last() =~= animated_meshes(ms@.take(i as int)));
                lemma_select_extends(ms@, i as int + 1, rid@);
            }
            return Some(i);
        }
        proof {
            if is_animated(ms@[i as int]) {
                let am = animated_meshes(ms@.take(i + 1));
                assert(am =~= animated_meshes(ms@.take(i as int)).push(ms@[i as int]));
                assert(am.drop_last() =~= animated_meshes(ms@.take(i as int)));
            } else {
                assert(animated_meshes(ms@.take(i + 1)) =~= animated_meshes(ms@.take(i as int)));
            }
        }
        i = i + 1;
    }
    assert(ms@.take(i as int) =~= ms@);
    None
}

/// Once the first `n` meshes select a mesh, the whole list selects it.
proof fn lemma_select_extends(ms: Seq<MeshOptionFacts>, n: int, rid: Seq<char>)
    requires
        0 <= n <= ms.len(),
        select_mesh(animated_meshes(ms.take(n)), rid) is Some,
    ensures
        select_mesh(animated_meshes(ms), rid) == select_mesh(animated_meshes(ms.take(n)), rid),
    decreases ms.len() - n,
{
    if n < ms.len() {
        let am = animated_meshes(ms.take(n + 1));
        assert(ms.take(n + 1).drop_last() =~= ms.take(n));
        assert(ms.take(n + 1).last() == ms[n]);
        if is_animated(ms[n]) {
            assert(am =~= animated_meshes(ms.take(n)).push(ms[n]));
            assert(am.drop_last() =~= animated_meshes(ms.take(n)));
        } else {
            assert(am =~= animated_meshes(ms.take(n)));
        }
        lemma_select_extends(ms, n + 1, rid);
    } else {
        assert(ms.take(n) =~= ms);
    }
}

proof fn lemma_animated_all(ms: Seq<MeshOptionFacts>)
    ensures
        forall|k: int| 0 <= k < animated_meshes(ms).len() ==> is_animated(#[trigger] animated_meshes(ms)[k]),
    decreases ms.len(),
{
    if ms.len() > 0 {
        lemma_animated_all(ms.drop_last());
        let prev = animated_meshes(ms.drop_last());
        assert forall|k: int| 0 <= k < animated_meshes(ms).len() implies is_animated(#[trigger] animated_meshes(ms)[k]) by {
            if k < prev.len() {
                assert(animated_meshes(ms)[k] == prev[k]);
            }
        }
    }
}

proof fn lemma_select_member(am: Seq<MeshOptionFacts>, rid: Seq<char>)
    ensures
        select_mesh(am, rid) matches Some(m) ==> am.contains(m),
    decreases am.len(),
{
    if am.len() > 0 {
        lemma_select_member(am.drop_last(), rid);
        if let Some(m) = select_mesh(am.drop_last(), rid) {
            let k = choose|k: int| 0 <= k < am.drop_last().len() && am.drop_last()[k] == m;
            assert(am[k] == m);
        } else if am.last().resource_id@ == rid {
            assert(am[am.len() - 1] == am.last());
        }
    }
}

proof fn lemma_select_animated(ms: Seq<MeshOptionFacts>, rid: Seq<char>)
    ensures
        select_mesh(animated_meshes(ms), rid) matches Some(m) ==> is_animated(m),
{
    lemma_animated_all(ms);
    lemma_select_member(animated_meshes(ms), rid);
}

fn clip_choices_exec(ms: &Vec<MeshOptionFacts>, rid: &String) -> (r: Vec<ReferenceOption>)
    ensures
        option_views(r@) == clip_choices(ms@, rid@),
{
    let sel = select_mesh_exec(ms, rid);
    proof {
        lemma_select_animated(ms@, rid@);
    }
    let mut label = text("Resource default (");
    match sel {
        Some(i) => match &ms[i].descriptor {
            Some(d) => match &d.default_clip {
                Some(c) => label.append(c.as_str()),
                None => label.append("none"),
            },
            None => label.append("none"),
        },
        None => label.append("none"),
    }
    label.append(")");
    let mut out: Vec<ReferenceOption> = Vec::new();
    out.push(ReferenceOption { target_id: String::new(), label });
    let ghost head = option_views(out@);
    match sel {
        Some(i) => {
            match &ms[i].descriptor {
                Some(d) => {
                    let clips = &d.clips;
                    let mut k: usize = 0;
                    while k < clips.len()
                        invariant
                            k <= clips@.len(),
                            option_views(out@) == head + clips@.take(k as int).map_values(|c: MeshClipFacts| clip_choice(c)),
                        decreases clips@.len() - k,
                    {
                        let c = &clips[k];
                        let l = match &c.name {
                            Some(n) => {
                                let mut l = c.id.clone();
                                l.append(" · ");
                                l.append(n.as_str());
                                l
                            },
                            None => c.id.clone(),
                        };
                        let ghost before = option_views(out@);
                        out.push(ReferenceOption { target_id: c.id.clone(), label: l });
                        proof {
                            assert(option_views(out@) =~= before.push(clip_choice(clips@[k as int])));
                            assert(clips@.take(k + 1).map_values(|c: MeshClipFacts| clip_choice(c))
                                =~= clips@.take(k as int).map_values(|c: MeshClipFacts| clip_choice(c)).push(clip_choice(clips@[k as int])));
                        }
                        k = k + 1;
                    }
                    assert(clips@.take(k as int) =~= clips@);
                },
                None => {},
            }
        },
        None => {},
    }
    assert(option_views(out@) =~= clip_choices(ms@, rid@));
    out
}

fn appearance_row_exec(
    doc: &String,
    pid: &String,
    field_id: String,
    path: String,
    label: String,
    value_kind: ProjectConfigurationValueKind,
    required: bool,
    reference_kind: Option<ProjectContentReferenceKind>,
    options: Vec<ReferenceOption>,
    range: Option<NumberRange>,
) -> (r: FieldMetadata)
    ensures
        field_view(r) == appearance_row(doc@, pid@, field_id@, path@, label@, value_kind, required, reference_kind, option_views(options@), range),
{
    FieldMetadata {
        document_id: doc.clone(),
        field_id,
        path,
        label,
        value_kind,
        required,
        reference_kind,
        reference_options: options,
        configuration_id: Some(pid.clone()),
        schema_id: Some(text("asha.entity-appearance.v1")),
        module_id: None,
        provider_id: Some(text("provider.asha.entity-appearance")),
        contract_from_schema: false,
        codec_id: Some(text("svc-project-content.entity-appearance.v1")),
        integer_min: None,
        integer_max: None,
        number_range: range,
    }
}

fn indexed_path_exec(prefix: &str, index: usize, suffix: &str) -> (r: String)
    ensures
        r@ == indexed_path(prefix@, index as nat, suffix@),
{
    let mut t = text(prefix);
    t.append("[");
    push_dec(&mut t, index as u64);
    t.append("]");
    t.append(suffix);
    assert(t@ =~= indexed_path(prefix@, index as nat, suffix@));
    t
}

fn scale_row_exec(doc: &String, pid: &String, base: &String, axis: usize, letter: &str) -> (r: FieldMetadata)
    requires
        axis <= 2,
    ensures
        field_view(r) == scale_row(doc@, pid@, base@, axis as nat, letter@),
{
    let mut path = base.clone();
    path.append(".modelScale[");
    push_dec(&mut path, axis as u64);
    path.append("]");
    let mut field_id = text("modelScale");
    field_id.append(letter);
    let mut label = text("Model scale ");
    label.append(letter);
    let r = appearance_row_exec(doc, pid, field_id, path, label, ProjectConfigurationValueKind::Number, true, None, Vec::new(),
        Some(NumberRange::ModelScale));
    assert(option_views(Seq::<ReferenceOption>::empty()) =~= Seq::<(Seq<char>, Seq<char>)>::empty());
    assert(field_view(r) =~~= scale_row(doc@, pid@, base@, axis as nat, letter@));
    r
}

fn push_appearance_rows(
    rows: &mut Vec<FieldMetadata>,
    doc: &String,
    c: usize,
    pid: &String,
    binding: &Option<AppearanceFacts>,
    ms: &Vec<MeshOptionFacts>,
)
    ensures
        field_views(final(rows)@) == field_views(old(rows)@) + appearance_rows(doc@, c as nat, pid@, *binding, ms@),
{
    let ghost start = field_views(rows@);
    let base = indexed_path_exec("definition.capabilities", c, ".appearance");
    let mut path = base.clone();
    path.append(".resourceId");
    let row = appearance_row_exec(doc, pid, text("resourceId"), path, text("Appearance resource"),
        ProjectConfigurationValueKind::Reference, true, Some(ProjectContentReferenceKind::PresentationResource),
        resource_choices_exec(ms), None);
    rows.push(row);
    match binding {
        None => {},
        Some(b) => {
            let mut clip_path = base.clone();
            clip_path.append(".initialClipId");
            rows.push(appearance_row_exec(doc, pid, text("initialClipId"), clip_path, text("Initial animation clip"),
                ProjectConfigurationValueKind::String, false, None, clip_choices_exec(ms, &b.resource_id), None));
            rows.push(scale_row_exec(doc, pid, &base, 0, "X"));
            rows.push(scale_row_exec(doc, pid, &base, 1, "Y"));
            rows.push(scale_row_exec(doc, pid, &base, 2, "Z"));
        },
    }
    assert(field_views(rows@) =~~= start + appearance_rows(doc@, c as nat, pid@, *binding, ms@));
}

// ---------------------------------------------------------------------------
// The rows of each document.

/// An asset catalog entry: its id, label, and whether it has a material.
#[derive(Debug, Clone, PartialEq, Eq)]
pub struct CatalogEntryFields {
    pub id: String,
    pub label: Option<String>,
    pub has_material: bool,
}

/// What the field metadata reads of a document.
#[derive(Debug, Clone, PartialEq, Eq)]
pub enum DocumentFields {
    EntityDefinition { capabilities: Vec<CapabilityFacts> },
    AssetCatalog { entries: Vec<CatalogEntryFields> },
    /// The number of prefab definitions.
    PrefabRegistry { definitions: usize },
    GameplayConfiguration { configurations: Vec<ProjectGameplayConfiguration> },
    /// The number of resources, and the cues.
    PresentationCatalog { resources: usize, cues: Vec<PresentationCue> },
    InputCatalog { actions: Vec<String>, contexts: Vec<String>, bindings: Vec<String> },
    BehaviorPackage,
}

#[derive(Debug, Clone, PartialEq, Eq)]
pub struct FieldDocument {
    pub document_id: String,
    pub fields: DocumentFields,
}

/// The rows of an entity definition: its identity and source fields, then
/// the appearance of each render projection.
pub open spec fn entity_rows(doc: Seq<char>, caps: Seq<CapabilityFacts>, ms: Seq<MeshOptionFacts>) -> Seq<FieldView> {
    seq![
        plain_row(doc, "stableId"@, "definition.stableId"@, "Stable id"@, ProjectConfigurationValueKind::String, None),
        plain_row(doc, "displayName"@, "definition.displayName"@, "Display name"@, ProjectConfigurationValueKind::String, None),
        plain_row(doc, "relativePath"@, "definition.source.relativePath"@, "Source path"@, ProjectConfigurationValueKind::String, None),
    ] + entity_appearance_rows(doc, caps, ms, caps.len() as int)
}

/// The material style fields, with their labels.
pub open spec fn material_fields() -> Seq<(Seq<char>, Seq<char>)> {
    seq![
        ("color.r"@, "Base color red"@),
        ("color.g"@, "Base color green"@),
        ("color.b"@, "Base color blue"@),
        ("color.a"@, "Base color alpha"@),
        ("roughness"@, "Roughness"@),
        ("emissionColor.r"@, "Emission red"@),
        ("emissionColor.g"@, "Emission green"@),
        ("emissionColor.b"@, "Emission blue"@),
        ("emissionColor.a"@, "Emission alpha"@),
        ("emissive"@, "Emission intensity"@),
    ]
}

pub open spec fn material_row(doc: Seq<char>, i: nat, e: CatalogEntryFields, f: (Seq<char>, Seq<char>)) -> FieldView {
    builtin_number_row(doc, f.0, indexed_path("catalog.entries"@, i, ".material.style."@) + f.0,
        label_or(e.label, e.id@) + " · "@ + f.1, e.id@, "asha.material.v1"@, "provider.asha.material-catalog"@,
        "svc-project-content.material.v1"@, if f.0 == "emissive"@ { NumberRange::Emission } else { NumberRange::MaterialChannel })
}

pub open spec fn entry_rows(doc: Seq<char>, i: nat, e: CatalogEntryFields) -> Seq<FieldView> {
    seq![plain_row(doc, "id"@, indexed_path("catalog.entries"@, i, ".id"@), "Asset id"@,
        ProjectConfigurationValueKind::Reference, Some(ProjectContentReferenceKind::Asset))]
        + if e.has_material {
            material_fields().map_values(|f: (Seq<char>, Seq<char>)| material_row(doc, i, e, f))
        } else {
            Seq::empty()
        }
}

pub open spec fn catalog_rows(doc: Seq<char>, es: Seq<CatalogEntryFields>, n: int) -> Seq<FieldView>
    decreases n,
{
    if n <= 0 {
        Seq::empty()
    } else {
        catalog_rows(doc, es, n - 1) + entry_rows(doc, (n - 1) as nat, es[n - 1])
    }
}

pub open spec fn prefab_rows(doc: Seq<char>, n: int) -> Seq<FieldView>
    decreases n,
{
    if n <= 0 {
        Seq::empty()
    } else {
        prefab_rows(doc, n - 1).push(plain_row(doc, "displayName"@,
            indexed_path("registry.definitions"@, (n - 1) as nat, ".displayName"@), "Prefab display name"@,
            ProjectConfigurationValueKind::String, None))
    }
}

/// The first schema with id `sid`.
pub open spec fn schema_named(ss: Seq<ProjectConfigurationSchema>, sid: Seq<char>) -> Option<ProjectConfigurationSchema>
    decreases ss.len(),
{
    if ss.len() == 0 {
        None
    } else {
        match schema_named(ss.drop_last(), sid) {
            Some(x) => Some(x),
            None => if ss.last().schema_id@ == sid {
                Some(ss.last())
            } else {
                None
            },
        }
    }
}

pub open spec fn schema_field_row(
    doc: Seq<char>,
    ci: nat,
    c: ProjectGameplayConfiguration,
    schema: ProjectConfigurationSchema,
    f: crate::gameplay_content::ProjectConfigurationField,
    sources: OptionSources,
    index: ReferenceIndexFacts,
) -> FieldView {
    FieldView {
        document_id: doc,
        field_id: f.field_id@,
        path: indexed_path("document.configurations"@, ci, ".values."@) + f.field_id@,
        label: f.label@,
        value_kind: f.value_kind,
        required: f.required,
        reference_kind: f.reference_kind,
        reference_options: match f.reference_kind {
            Some(k) => dedup_targets(sorted_options(candidate_options(k, sources, index))),
            None => Seq::empty(),
        },
        configuration_id: Some(c.configuration_id@),
        schema_id: Some(schema.schema_id@),
        module_id: Some(schema.module_id@),
        provider_id: Some(schema.provider_id@),
        contract_from_schema: true,
        codec_id: Some(schema.codec_id@),
        integer_min: f.integer_min,
        integer_max: f.integer_max,
        number_range: Some(NumberRange::SchemaField),
    }
}

pub open spec fn configuration_rows(
    doc: Seq<char>,
    ci: nat,
    c: ProjectGameplayConfiguration,
    ss: Seq<ProjectConfigurationSchema>,
    sources: OptionSources,
    index: ReferenceIndexFacts,
) -> Seq<FieldView> {
    match schema_named(ss, c.schema_id@) {
        Some(schema) => schema.fields@.map_values(|f: crate::gameplay_content::ProjectConfigurationField|
            schema_field_row(doc, ci, c, schema, f, sources, index)),
        None => Seq::empty(),
    }
}

pub open spec fn gameplay_rows(
    doc: Seq<char>,
    cs: Seq<ProjectGameplayConfiguration>,
    ss: Seq<ProjectConfigurationSchema>,
    sources: OptionSources,
    index: ReferenceIndexFacts,
    n: int,
) -> Seq<FieldView>
    decreases n,
{
    if n <= 0 {
        Seq::empty()
    } else {
        gameplay_rows(doc, cs, ss, sources, index, n - 1) + configuration_rows(doc, (n - 1) as nat, cs[n - 1], ss, sources, index)
    }
}

pub open spec fn resource_rows(doc: Seq<char>, n: int) -> Seq<FieldView>
    decreases n,
{
    if n <= 0 {
        Seq::empty()
    } else {
        resource_rows(doc, n - 1).push(plain_row(doc, "assetId"@,
            indexed_path("catalog.resources"@, (n - 1) as nat, ".assetId"@), "Resource asset"@,
            ProjectConfigurationValueKind::Reference, Some(ProjectContentReferenceKind::Asset)))
    }
}

pub open spec fn cue_number_row(doc: Seq<char>, i: nat, cue_id: Seq<char>, field: Seq<char>, label: Seq<char>, range: NumberRange) -> FieldView {
    builtin_number_row(doc, field, indexed_path("catalog.cues"@, i, "."@ + field), cue_id + " · "@ + label, cue_id,
        "asha.presentation-cue.v1"@, "provider.asha.presentation-catalog"@, "svc-project-content.presentation-cue.v1"@, range)
}

pub open spec fn cue_rows_of(doc: Seq<char>, i: nat, c: PresentationCue) -> Seq<FieldView> {
    match c {
        PresentationCue::Animation { cue_id, .. } => seq![cue_number_row(doc, i, cue_id@, "atSeconds"@, "Animation sample time"@, NumberRange::AnimationTime)],
        PresentationCue::Audio { cue_id, .. } => seq![cue_number_row(doc, i, cue_id@, "gain"@, "Audio gain"@, NumberRange::AudioGain)],
        PresentationCue::Particle { cue_id, .. } => seq![cue_number_row(doc, i, cue_id@, "scale"@, "Particle scale"@, NumberRange::ParticleScale)],
        PresentationCue::Overlay { .. } => Seq::empty(),
    }
}

pub open spec fn cue_rows(doc: Seq<char>, cs: Seq<PresentationCue>, n: int) -> Seq<FieldView>
    decreases n,
{
    if n <= 0 {
        Seq::empty()
    } else {
        cue_rows(doc, cs, n - 1) + cue_rows_of(doc, (n - 1) as nat, cs[n - 1])
    }
}

pub open spec fn action_rows(doc: Seq<char>, acts: Seq<String>, n: int) -> Seq<FieldView>
    decreases n,
{
    if n <= 0 {
        Seq::empty()
    } else {
        let i = (n - 1) as nat;
        action_rows(doc, acts, n - 1) + seq![
            plain_row(doc, "actionId"@, indexed_path("catalog.actions"@, i, ".actionId"@), "Input action id"@,
                ProjectConfigurationValueKind::String, None),
            plain_row(doc, "acceptedPhases"@, indexed_path("catalog.actions"@, i, ".acceptedPhases"@),
                acts[n - 1]@ + " accepted phases"@, ProjectConfigurationValueKind::String, None),
        ]
    }
}

pub open spec fn context_rows(doc: Seq<char>, ctxs: Seq<String>, n: int) -> Seq<FieldView>
    decreases n,
{
    if n <= 0 {
        Seq::empty()
    } else {
        context_rows(doc, ctxs, n - 1).push(plain_row(doc, "contextId"@,
            indexed_path("catalog.contexts"@, (n - 1) as nat, ".contextId"@), ctxs[n - 1]@ + " context id"@,
            ProjectConfigurationValueKind::String, None))
    }
}

pub open spec fn binding_row(doc: Seq<char>, i: nat, binding: Seq<char>, suffix: Seq<char>, label: Seq<char>) -> FieldView {
    plain_row(doc, suffix, indexed_path("catalog.bindings"@, i, "."@ + suffix), binding + " · "@ + label,
        ProjectConfigurationValueKind::String, None)
}

pub open spec fn binding_rows(doc: Seq<char>, bs: Seq<String>, n: int) -> Seq<FieldView>
    decreases n,
{
    if n <= 0 {
        Seq::empty()
    } else {
        let i = (n - 1) as nat;
        binding_rows(doc, bs, n - 1) + seq![
            binding_row(doc, i, bs[n - 1]@, "actionId"@, "Input action"@),
            binding_row(doc, i, bs[n - 1]@, "contextId"@, "Input context"@),
            binding_row(doc, i, bs[n - 1]@, "control"@, "Platform control"@),
        ]
    }
}

/// The rows of one document, in the order it lists them.
pub open spec fn document_rows(
    d: FieldDocument,
    ms: Seq<MeshOptionFacts>,
    ss: Seq<ProjectConfigurationSchema>,
    sources: OptionSources,
    index: ReferenceIndexFacts,
) -> Seq<FieldView> {
    let doc = d.document_id@;
    match d.fields {
        DocumentFields::EntityDefinition { capabilities } => entity_rows(doc, capabilities@, ms),
        DocumentFields::AssetCatalog { entries } => catalog_rows(doc, entries@, entries@.len() as int),
        DocumentFields::PrefabRegistry { definitions } => prefab_rows(doc, definitions as int),
        DocumentFields::GameplayConfiguration { configurations } =>
            gameplay_rows(doc, configurations@, ss, sources, index, configurations@.len() as int),
        DocumentFields::PresentationCatalog { resources, cues } =>
            resource_rows(doc, resources as int) + cue_rows(doc, cues@, cues@.len() as int),
        DocumentFields::InputCatalog { actions, contexts, bindings } =>
            action_rows(doc, actions@, actions@.len() as int) + context_rows(doc, contexts@, contexts@.len() as int)
                + binding_rows(doc, bindings@, bindings@.len() as int),
        DocumentFields::BehaviorPackage => Seq::empty(),
    }
}

pub open spec fn documents_rows(
    ds: Seq<FieldDocument>,
    ms: Seq<MeshOptionFacts>,
    ss: Seq<ProjectConfigurationSchema>,
    sources: OptionSources,
    index: ReferenceIndexFacts,
) -> Seq<FieldView>
    decreases ds.len(),
{
    if ds.len() == 0 {
        Seq::empty()
    } else {
        documents_rows(ds.drop_last(), ms, ss, sources, index) + document_rows(ds.last(), ms, ss, sources, index)
    }
}

// ---------------------------------------------------------------------------
// Writing the rows.

fn plain_row_exec(
    doc: &String,
    field_id: &str,
    path: String,
    label: String,
    value_kind: ProjectConfigurationValueKind,
    reference_kind: Option<ProjectContentReferenceKind>,
) -> (r: FieldMetadata)
    ensures
        field_view(r) == plain_row(doc@, field_id@, path@, label@, value_kind, reference_kind),
{
    let r = FieldMetadata {
        document_id: doc.clone(),
        field_id: text(field_id),
        path,
        label,
        value_kind,
        required: true,
        reference_kind,
        reference_options: Vec::new(),
        configuration_id: None,
        schema_id: None,
        module_id: None,
        provider_id: None,
        contract_from_schema: false,
        codec_id: None,
        integer_min: None,
        integer_max: None,
        number_range: None,
    };
    assert(option_views(r.reference_options@) =~= Seq::<(Seq<char>, Seq<char>)>::empty());
    assert(field_view(r) =~~= plain_row(doc@, field_id@, path@, label@, value_kind, reference_kind));
    r
}

fn builtin_number_row_exec(
    doc: &String,
    field_id: String,
    path: String,
    label: String,
    configuration_id: String,
    schema_id: &str,
    provider_id: &str,
    codec_id: &str,
    range: NumberRange,
) -> (r: FieldMetadata)
    ensures
        field_view(r) == builtin_number_row(doc@, field_id@, path@, label@, configuration_id@, schema_id@, provider_id@, codec_id@, range),
{
    let r = FieldMetadata {
        document_id: doc.clone(),
        field_id,
        path,
        label,
        value_kind: ProjectConfigurationValueKind::Number,
        required: true,
        reference_kind: None,
        reference_options: Vec::new(),
        configuration_id: Some(configuration_id),
        schema_id: Some(text(schema_id)),
        module_id: None,
        provider_id: Some(text(provider_id)),
        contract_from_schema: false,
        codec_id: Some(text(codec_id)),
        integer_min: None,
        integer_max: None,
        number_range: Some(range),
    };
    assert(option_views(r.reference_options@) =~= Seq::<(Seq<char>, Seq<char>)>::empty());
    assert(field_view(r) =~~= builtin_number_row(doc@, field_id@, path@, label@, configuration_id@, schema_id@, provider_id@, codec_id@, range));
    r
}

fn push_entity_rows(rows: &mut Vec<FieldMetadata>, doc: &String, caps: &Vec<CapabilityFacts>, ms: &Vec<MeshOptionFacts>)
    ensures
        field_views(final(rows)@) == field_views(old(rows)@) + entity_rows(doc@, caps@, ms@),
{
    let ghost start = field_views(rows@);
    rows.push(plain_row_exec(doc, "stableId", text("definition.stableId"), text("Stable id"), ProjectConfigurationValueKind::String, None));
    rows.push(plain_row_exec(doc, "displayName", text("definition.displayName"), text("Display name"), ProjectConfigurationValueKind::String, None));
    rows.push(plain_row_exec(doc, "relativePath", text("definition.source.relativePath"), text("Source path"), ProjectConfigurationValueKind::String, None));
    let ghost fixed = field_views(rows@);
    assert(fixed =~= start + seq![
        plain_row(doc@, "stableId"@, "definition.stableId"@, "Stable id"@, ProjectConfigurationValueKind::String, None),
        plain_row(doc@, "displayName"@, "definition.displayName"@, "Display name"@, ProjectConfigurationValueKind::String, None),
        plain_row(doc@, "relativePath"@, "definition.source.relativePath"@, "Source path"@, ProjectConfigurationValueKind::String, None),
    ]);
    let mut c: usize = 0;
    while c < caps.len()
        invariant
            c <= caps@.len(),
            field_views(rows@) == fixed + entity_appearance_rows(doc@, caps@, ms@, c as int),
        decreases caps@.len() - c,
    {
        match &caps[c] {
            CapabilityFacts::RenderProjection { projection_id, appearance } => {
                push_appearance_rows(rows, doc, c, projection_id, appearance, ms);
            },
            _ => {},
        }
        assert(field_views(rows@) =~= fixed + entity_appearance_rows(doc@, caps@, ms@, c + 1));
        c = c + 1;
    }
    assert(field_views(rows@) =~= start + entity_rows(doc@, caps@, ms@));
}

fn push_catalog_rows(rows: &mut Vec<FieldMetadata>, doc: &String, es: &Vec<CatalogEntryFields>)
    ensures
        field_views(final(rows)@) == field_views(old(rows)@) + catalog_rows(doc@, es@, es@.len() as int),
{
    let ghost start = field_views(rows@);
    let mut i: usize = 0;
    while i < es.len()
        invariant
            i <= es@.len(),
            field_views(rows@) == start + catalog_rows(doc@, es@, i as int),
        decreases es@.len() - i,
    {
        let e = &es[i];
        let ghost before = field_views(rows@);
        rows.push(plain_row_exec(doc, "id", indexed_path_exec("catalog.entries", i, ".id"), text("Asset id"),
            ProjectConfigurationValueKind::Reference, Some(ProjectContentReferenceKind::Asset)));
        let ghost after_id = field_views(rows@);
        if e.has_material {
            let fields: [(&str, &str); 10] = [
                ("color.r", "Base color red"),
                ("color.g", "Base color green"),
                ("color.b", "Base color blue"),
                ("color.a", "Base color alpha"),
                ("roughness", "Roughness"),
                ("emissionColor.r", "Emission red"),
                ("emissionColor.g", "Emission green"),
                ("emissionColor.b", "Emission blue"),
                ("emissionColor.a", "Emission alpha"),
                ("emissive", "Emission intensity"),
            ];
            let ghost mf = material_fields();
            assert(fields@.map_values(|f: (&str, &str)| (f.0@, f.1@)) =~= mf) by {
                reveal_strlit("color.r");
                reveal_strlit("Base color red");
            }
            let mut k: usize = 0;
            while k < 10
                invariant
                    k <= 10,
                    i < es@.len(),
                    e == &es@[i as int],
                    mf == material_fields(),
                    fields@.map_values(|f: (&str, &str)| (f.0@, f.1@)) == mf,
                    field_views(rows@) == after_id + mf.take(k as int).map_values(|f: (Seq<char>, Seq<char>)| material_row(doc@, i as nat, *e, f)),
                decreases 10 - k,
            {
                let (suffix, lab) = fields[k];
                assert(mf[k as int] == (suffix@, lab@));
                let mut path = indexed_path_exec("catalog.entries", i, ".material.style.");
                path.append(suffix);
                let mut label = match &e.label {
                    Some(l) => l.clone(),
                    None => e.id.clone(),
                };
                label.append(" · ");
                label.append(lab);
                let range = if k == 9 { NumberRange::Emission } else { NumberRange::MaterialChannel };
                proof {
                    reveal_strlit("emissive");
                    reveal_strlit("color.r");
                    reveal_strlit("color.g");
                    reveal_strlit("color.b");
                    reveal_strlit("color.a");
                    reveal_strlit("roughness");
                    reveal_strlit("emissionColor.r");
                    reveal_strlit("emissionColor.g");
                    reveal_strlit("emissionColor.b");
                    reveal_strlit("emissionColor.a");
                    assert((mf[k as int].0 == "emissive"@) == (k == 9));
                }
                let ghost before_k = field_views(rows@);
                rows.push(builtin_number_row_exec(doc, text(suffix), path, label, e.id.clone(), "asha.material.v1",
                    "provider.asha.material-catalog", "svc-project-content.material.v1", range));
                proof {
                    assert(field_views(rows@) =~= before_k.push(material_row(doc@, i as nat, *e, mf[k as int])));
                    assert(mf.take(k + 1).map_values(|f: (Seq<char>, Seq<char>)| material_row(doc@, i as nat, *e, f))
                        =~= mf.take(k as int).map_values(|f: (Seq<char>, Seq<char>)| material_row(doc@, i as nat, *e, f))
                            .push(material_row(doc@, i as nat, *e, mf[k as int])));
                }
                k = k + 1;
            }
            assert(mf.take(10) =~= mf);
        }
        proof {
            assert(field_views(rows@) =~= before + entry_rows(doc@, i as nat, es@[i as int]));
            assert(catalog_rows(doc@, es@, i + 1) == catalog_rows(doc@, es@, i as int) + entry_rows(doc@, i as nat, es@[i as int]));
        }
        i = i + 1;
    }
}

fn push_prefab_rows(rows: &mut Vec<FieldMetadata>, doc: &String, n: usize)
    ensures
        field_views(final(rows)@) == field_views(old(rows)@) + prefab_rows(doc@, n as int),
{
    let ghost start = field_views(rows@);
    let mut i: usize = 0;
    while i < n
        invariant
            i <= n,
            field_views(rows@) == start + prefab_rows(doc@, i as int),
        decreases n - i,
    {
        let ghost before = field_views(rows@);
        rows.push(plain_row_exec(doc, "displayName", indexed_path_exec("registry.definitions", i, ".displayName"),
            text("Prefab display name"), ProjectConfigurationValueKind::String, None));
        assert(field_views(rows@) =~= before.push(plain_row(doc@, "displayName"@,
            indexed_path("registry.definitions"@, i as nat, ".displayName"@), "Prefab display name"@,
            ProjectConfigurationValueKind::String, None)));
        assert(field_views(rows@) =~= start + prefab_rows(doc@, i + 1));
        i = i + 1;
    }
}

fn schema_index(ss: &Vec<ProjectConfigurationSchema>, sid: &String) -> (r: Option<usize>)
    ensures
        match r {
            Some(i) => i < ss@.len() && schema_named(ss@, sid@) == Some(ss@[i as int]),
            None => schema_named(ss@, sid@) is None,
        },
{
    let mut i: usize = 0;
    while i < ss.len()
        invariant
            i <= ss@.len(),
            schema_named(ss@.take(i as int), sid@) is None,
        decreases ss@.len() - i,
    {
        proof {
            assert(ss@.take(i + 1).drop_last() =~= ss@.take(i as int));
            assert(ss@.take(i + 1).last() == ss@[i as int]);
        }
        if ss[i].schema_id == *sid {
            proof {
                lemma_schema_named_extends(ss@, i as int + 1, sid@);
            }
            return Some(i);
        }
        i = i + 1;
    }
    assert(ss@.take(i as int) =~= ss@);
    None
}

proof fn lemma_schema_named_extends(ss: Seq<ProjectConfigurationSchema>, n: int, sid: Seq<char>)
    requires
        0 <= n <= ss.len(),
        schema_named(ss.take(n), sid) is Some,
    ensures
        schema_named(ss, sid) == schema_named(ss.take(n), sid),
    decreases ss.len() - n,
{
    if n < ss.len() {
        assert(ss.take(n + 1).drop_last() =~= ss.take(n));
        lemma_schema_named_extends(ss, n + 1, sid);
    } else {
        assert(ss.take(n) =~= ss);
    }
}

fn schema_field_row_exec(
    doc: &String,
    ci: usize,
    c: &ProjectGameplayConfiguration,
    schema: &ProjectConfigurationSchema,
    f: &crate::gameplay_content::ProjectConfigurationField,
    sources: &OptionSources,
    index: &ReferenceIndexFacts,
) -> (r: FieldMetadata)
    ensures
        field_view(r) == schema_field_row(doc@, ci as nat, *c, *schema, *f, *sources, *index),
{
    let mut path = indexed_path_exec("document.configurations", ci, ".values.");
    path.append(f.field_id.as_str());
    let options = match f.reference_kind {
        Some(k) => reference_options(k, sources, index),
        None => Vec::new(),
    };
    let r = FieldMetadata {
        document_id: doc.clone(),
        field_id: f.field_id.clone(),
        path,
        label: f.label.clone(),
        value_kind: f.value_kind,
        required: f.required,
        reference_kind: f.reference_kind,
        reference_options: options,
        configuration_id: Some(c.configuration_id.clone()),
        schema_id: Some(schema.schema_id.clone()),
        module_id: Some(schema.module_id.clone()),
        provider_id: Some(schema.provider_id.clone()),
        contract_from_schema: true,
        codec_id: Some(schema.codec_id.clone()),
        integer_min: f.integer_min,
        integer_max: f.integer_max,
        number_range: Some(NumberRange::SchemaField),
    };
    proof {
        if f.reference_kind is None {
            assert(option_views(r.reference_options@) =~= Seq::<(Seq<char>, Seq<char>)>::empty());
        }
    }
    assert(field_view(r) =~~= schema_field_row(doc@, ci as nat, *c, *schema, *f, *sources, *index));
    r
}

fn push_gameplay_rows(
    rows: &mut Vec<FieldMetadata>,
    doc: &String,
    cs: &Vec<ProjectGameplayConfiguration>,
    ss: &Vec<ProjectConfigurationSchema>,
    sources: &OptionSources,
    index: &ReferenceIndexFacts,
)
    ensures
        field_views(final(rows)@) == field_views(old(rows)@) + gameplay_rows(doc@, cs@, ss@, *sources, *index, cs@.len() as int),
{
    let ghost start = field_views(rows@);
    let mut ci: usize = 0;
    while ci < cs.len()
        invariant
            ci <= cs@.len(),
            field_views(rows@) == start + gameplay_rows(doc@, cs@, ss@, *sources, *index, ci as int),
        decreases cs@.len() - ci,
    {
        let c = &cs[ci];
        let ghost before = field_views(rows@);
        match schema_index(ss, &c.schema_id) {
            Some(si) => {
                let schema = &ss[si];
                let fs = &schema.fields;
                let ghost spec_rows = fs@.map_values(|f: crate::gameplay_content::ProjectConfigurationField|
                    schema_field_row(doc@, ci as nat, *c, *schema, f, *sources, *index));
                let mut k: usize = 0;
                while k < fs.len()
                    invariant
                        k <= fs@.len(),
                        spec_rows == fs@.map_values(|f: crate::gameplay_content::ProjectConfigurationField|
                            schema_field_row(doc@, ci as nat, *c, *schema, f, *sources, *index)),
                        field_views(rows@) == before + spec_rows.take(k as int),
                    decreases fs@.len() - k,
                {
                    let ghost bk = field_views(rows@);
                    rows.push(schema_field_row_exec(doc, ci, c, schema, &fs[k], sources, index));
                    assert(field_views(rows@) =~= bk.push(spec_rows[k as int]));
                    assert(spec_rows.take(k + 1) =~= spec_rows.take(k as int).push(spec_rows[k as int]));
                    k = k + 1;
                }
                assert(spec_rows.take(k as int) =~= spec_rows);
            },
            None => {},
        }
        assert(field_views(rows@) =~= start + gameplay_rows(doc@, cs@, ss@, *sources, *index, ci + 1));
        ci = ci + 1;
    }
}

fn push_presentation_rows(rows: &mut Vec<FieldMetadata>, doc: &String, resources: usize, cues: &Vec<PresentationCue>)
    ensures
        field_views(final(rows)@) == field_views(old(rows)@) + resource_rows(doc@, resources as int) + cue_rows(doc@, cues@, cues@.len() as int),
{
    let ghost start = field_views(rows@);
    let mut i: usize = 0;
    while i < resources
        invariant
            i <= resources,
            field_views(rows@) == start + resource_rows(doc@, i as int),
        decreases resources - i,
    {
        let ghost before = field_views(rows@);
        rows.push(plain_row_exec(doc, "assetId", indexed_path_exec("catalog.resources", i, ".assetId"), text("Resource asset"),
            ProjectConfigurationValueKind::Reference, Some(ProjectContentReferenceKind::Asset)));
        assert(field_views(rows@) =~= before.push(plain_row(doc@, "assetId"@,
            indexed_path("catalog.resources"@, i as nat, ".assetId"@), "Resource asset"@,
            ProjectConfigurationValueKind::Reference, Some(ProjectContentReferenceKind::Asset))));
        assert(field_views(rows@) =~= start + resource_rows(doc@, i + 1));
        i = i + 1;
    }
    let ghost mid = field_views(rows@);
    let mut k: usize = 0;
    while k < cues.len()
        invariant
            k <= cues@.len(),
            field_views(rows@) == mid + cue_rows(doc@, cues@, k as int),
        decreases cues@.len() - k,
    {
        let ghost before = field_views(rows@);
        let (cue_id, field, label, range): (&String, &str, &str, NumberRange) = match &cues[k] {
            PresentationCue::Animation { cue_id, .. } => (cue_id, "atSeconds", "Animation sample time", NumberRange::AnimationTime),
            PresentationCue::Audio { cue_id, .. } => (cue_id, "gain", "Audio gain", NumberRange::AudioGain),
            PresentationCue::Particle { cue_id, .. } => (cue_id, "scale", "Particle scale", NumberRange::ParticleScale),
            PresentationCue::Overlay { cue_id, .. } => (cue_id, "", "", NumberRange::AudioGain),
        };
        if !matches!(&cues[k], PresentationCue::Overlay { .. }) {
            let mut suffix = text(".");
            suffix.append(field);
            let path = indexed_path_exec("catalog.cues", k, suffix.as_str());
            let mut l = cue_id.clone();
            l.append(" · ");
            l.append(label);
            rows.push(builtin_number_row_exec(doc, text(field), path, l, cue_id.clone(), "asha.presentation-cue.v1",
                "provider.asha.presentation-catalog", "svc-project-content.presentation-cue.v1", range));
            assert(field_views(rows@) =~= before + cue_rows_of(doc@, k as nat, cues@[k as int]));
        } else {
            assert(field_views(rows@) =~= before + cue_rows_of(doc@, k as nat, cues@[k as int]));
        }
        assert(field_views(rows@) =~= mid + cue_rows(doc@, cues@, k + 1));
        k = k + 1;
    }
    assert(field_views(rows@) =~= start + resource_rows(doc@, resources as int) + cue_rows(doc@, cues@, cues@.len() as int));
}

fn push_input_rows(rows: &mut Vec<FieldMetadata>, doc: &String, actions: &Vec<String>, contexts: &Vec<String>, bindings: &Vec<String>)
    ensures
        field_views(final(rows)@) == field_views(old(rows)@) + action_rows(doc@, actions@, actions@.len() as int)
            + context_rows(doc@, contexts@, contexts@.len() as int) + binding_rows(doc@, bindings@, bindings@.len() as int),
{
    let ghost start = field_views(rows@);
    let mut i: usize = 0;
    while i < actions.len()
        invariant
            i <= actions@.len(),
            field_views(rows@) == start + action_rows(doc@, actions@, i as int),
        decreases actions@.len() - i,
    {
        let ghost before = field_views(rows@);
        rows.push(plain_row_exec(doc, "actionId", indexed_path_exec("catalog.actions", i, ".actionId"), text("Input action id"),
            ProjectConfigurationValueKind::String, None));
        let mut l = actions[i].clone();
        l.append(" accepted phases");
        rows.push(plain_row_exec(doc, "acceptedPhases", indexed_path_exec("catalog.actions", i, ".acceptedPhases"), l,
            ProjectConfigurationValueKind::String, None));
        assert(field_views(rows@) =~= before + seq![
            plain_row(doc@, "actionId"@, indexed_path("catalog.actions"@, i as nat, ".actionId"@), "Input action id"@,
                ProjectConfigurationValueKind::String, None),
            plain_row(doc@, "acceptedPhases"@, indexed_path("catalog.actions"@, i as nat, ".acceptedPhases"@),
                actions@[i as int]@ + " accepted phases"@, ProjectConfigurationValueKind::String, None),
        ]);
        assert(field_views(rows@) =~= start + action_rows(doc@, actions@, i + 1));
        i = i + 1;
    }
    let ghost a_end = field_views(rows@);
    let mut j: usize = 0;
    while j < contexts.len()
        invariant
            j <= contexts@.len(),
            field_views(rows@) == a_end + context_rows(doc@, contexts@, j as int),
        decreases contexts@.len() - j,
    {
        let mut l = contexts[j].clone();
        l.append(" context id");
        let ghost before = field_views(rows@);
        rows.push(plain_row_exec(doc, "contextId", indexed_path_exec("catalog.contexts", j, ".contextId"), l,
            ProjectConfigurationValueKind::String, None));
        assert(field_views(rows@) =~= before.push(plain_row(doc@, "contextId"@,
            indexed_path("catalog.contexts"@, j as nat, ".contextId"@), contexts@[j as int]@ + " context id"@,
            ProjectConfigurationValueKind::String, None)));
        assert(field_views(rows@) =~= a_end + context_rows(doc@, contexts@, j + 1));
        j = j + 1;
    }
    let ghost c_end = field_views(rows@);
    let mut b: usize = 0;
    while b < bindings.len()
        invariant
            b <= bindings@.len(),
            field_views(rows@) == c_end + binding_rows(doc@, bindings@, b as int),
        decreases bindings@.len() - b,
    {
        let suffixes: [(&str, &str); 3] = [
            ("actionId", "Input action"),
            ("contextId", "Input context"),
            ("control", "Platform control"),
        ];
        let ghost before = field_views(rows@);
        let mut t: usize = 0;
        while t < 3
            invariant
                t <= 3,
                b < bindings@.len(),
                suffixes@ == seq![("actionId", "Input action"), ("contextId", "Input context"), ("control", "Platform control")],
                field_views(rows@) == before + seq![
                    binding_row(doc@, b as nat, bindings@[b as int]@, "actionId"@, "Input action"@),
                    binding_row(doc@, b as nat, bindings@[b as int]@, "contextId"@, "Input context"@),
                    binding_row(doc@, b as nat, bindings@[b as int]@, "control"@, "Platform control"@),
                ].take(t as int),
            decreases 3 - t,
        {
            let (field, label) = suffixes[t];
            let mut dotted = text(".");
            dotted.append(field);
            let mut l = bindings[b].clone();
            l.append(" · ");
            l.append(label);
            let ghost bt = field_views(rows@);
            rows.push(plain_row_exec(doc, field, indexed_path_exec("catalog.bindings", b, dotted.as_str()), l,
                ProjectConfigurationValueKind::String, None));
            proof {
                let want = seq![
                    binding_row(doc@, b as nat, bindings@[b as int]@, "actionId"@, "Input action"@),
                    binding_row(doc@, b as nat, bindings@[b as int]@, "contextId"@, "Input context"@),
                    binding_row(doc@, b as nat, bindings@[b as int]@, "control"@, "Platform control"@),
                ];
                assert(field_views(rows@) =~= bt.push(want[t as int]));
                assert(want.take(t + 1) =~= want.take(t as int).push(want[t as int]));
            }
            t = t + 1;
        }
        assert(field_views(rows@) =~= c_end + binding_rows(doc@, bindings@, b + 1));
        b = b + 1;
    }
    assert(field_views(rows@) =~= start + action_rows(doc@, actions@, actions@.len() as int)
        + context_rows(doc@, contexts@, contexts@.len() as int) + binding_rows(doc@, bindings@, bindings@.len() as int));
}

fn push_document_rows(
    rows: &mut Vec<FieldMetadata>,
    d: &FieldDocument,
    ms: &Vec<MeshOptionFacts>,
    ss: &Vec<ProjectConfigurationSchema>,
    sources: &OptionSources,
    index: &ReferenceIndexFacts,
)
    ensures
        field_views(final(rows)@) == field_views(old(rows)@) + document_rows(*d, ms@, ss@, *sources, *index),
{
    let doc = &d.document_id;
    match &d.fields {
        DocumentFields::EntityDefinition { capabilities } => push_entity_rows(rows, doc, capabilities, ms),
        DocumentFields::AssetCatalog { entries } => push_catalog_rows(rows, doc, entries),
        DocumentFields::PrefabRegistry { definitions } => push_prefab_rows(rows, doc, *definitions),
        DocumentFields::GameplayConfiguration { configurations } =>
            push_gameplay_rows(rows, doc, configurations, ss, sources, index),
        DocumentFields::PresentationCatalog { resources, cues } => push_presentation_rows(rows, doc, *resources, cues),
        DocumentFields::InputCatalog { actions, contexts, bindings } => push_input_rows(rows, doc, actions, contexts, bindings),
        DocumentFields::BehaviorPackage => {
            assert(field_views(rows@) =~= field_views(rows@) + document_rows(*d, ms@, ss@, *sources, *index));
        },
    }
}

fn collect_rows(
    ds: &Vec<FieldDocument>,
    ms: &Vec<MeshOptionFacts>,
    ss: &Vec<ProjectConfigurationSchema>,
    sources: &OptionSources,
    index: &ReferenceIndexFacts,
) -> (rows: Vec<FieldMetadata>)
    ensures
        field_views(rows@) == documents_rows(ds@, ms@, ss@, *sources, *index),
{
    let mut rows: Vec<FieldMetadata> = Vec::new();
    let mut i: usize = 0;
    assert(field_views(rows@) =~= documents_rows(ds@.take(0), ms@, ss@, *sources, *index));
    while i < ds.len()
        invariant
            i <= ds@.len(),
            field_views(rows@) == documents_rows(ds@.take(i as int), ms@, ss@, *sources, *index),
        decreases ds@.len() - i,
    {
        push_document_rows(&mut rows, &ds[i], ms, ss, sources, index);
        assert(ds@.take(i + 1).drop_last() =~= ds@.take(i as int));
        i = i + 1;
    }
    assert(ds@.take(i as int) =~= ds@);
    rows
}

// ---------------------------------------------------------------------------
// The order of the rows.

/// Rows are ordered by document id, then by path, each in byte order.
pub open spec fn row_lt(a: FieldView, b: FieldView) -> bool {
    ||| text_lt(a.document_id, b.document_id)
    ||| a.document_id == b.document_id && text_lt(a.path, b.path)
}

/// Two rows share a place in the order.
pub open spec fn row_tied(a: FieldView, b: FieldView) -> bool {
    a.document_id == b.document_id && a.path == b.path
}

/// `out` is `input` stably sorted by document id and path, as `idx`
/// tells where each row of `out` came from.
pub open spec fn stable_arrangement(input: Seq<FieldView>, out: Seq<FieldView>, idx: Seq<int>) -> bool {
    &&& out.len() == input.len()
    &&& idx.len() == out.len()
    &&& forall|k: int| 0 <= k < idx.len() ==> 0 <= #[trigger] idx[k] < input.len() && out[k] == input[idx[k]]
    &&& forall|k: int, l: int| 0 <= k < l < idx.len() ==> #[trigger] idx[k] != #[trigger] idx[l]
    &&& forall|k: int, l: int| 0 <= k < l < out.len() ==> !row_lt(#[trigger] out[l], #[trigger] out[k])
    &&& forall|k: int, l: int| 0 <= k < l < out.len() && row_tied(#[trigger] out[k], #[trigger] out[l]) ==> idx[k] < idx[l]
}

/// `out` holds the rows of `input` stably sorted by document id and path.
pub open spec fn stably_sorted(input: Seq<FieldView>, out: Seq<FieldView>) -> bool {
    exists|idx: Seq<int>| stable_arrangement(input, out, idx)
}

proof fn lemma_row_lt(a: FieldView, b: FieldView, c: FieldView)
    ensures
        !row_lt(a, a),
        !(row_lt(a, b) && row_lt(b, a)),
        row_lt(a, b) && row_lt(b, c) ==> row_lt(a, c),
        row_tied(a, b) || row_lt(a, b) || row_lt(b, a),
        row_tied(a, b) ==> !row_lt(a, b),
        !row_lt(a, b) && !row_lt(b, c) ==> !row_lt(a, c),
{
    lemma_text_lt(a.document_id, b.document_id, c.document_id);
    lemma_text_lt(a.path, b.path, c.path);
    lemma_text_lt(b.document_id, a.document_id, c.document_id);
    lemma_text_lt(b.path, a.path, c.path);
    lemma_text_lt(a.document_id, c.document_id, b.document_id);
    lemma_text_lt(a.path, c.path, b.path);
    lemma_text_lt(c.document_id, b.document_id, a.document_id);
    lemma_text_lt(c.path, b.path, a.path);
    lemma_text_lt(b.document_id, c.document_id, a.document_id);
    lemma_text_lt(b.path, c.path, a.path);
    lemma_text_lt(c.document_id, a.document_id, b.document_id);
    lemma_text_lt(c.path, a.path, b.path);
}

fn row_less(a: &FieldMetadata, b: &FieldMetadata) -> (r: bool)
    ensures
        r == row_lt(field_view(*a), field_view(*b)),
{
    if text_less(&a.document_id, &b.document_id) {
        return true;
    }
    if a.document_id != b.document_id {
        return false;
    }
    text_less(&a.path, &b.path)
}

/// The rows, stably sorted by document id and path.
fn sort_rows(v: Vec<FieldMetadata>) -> (r: Vec<FieldMetadata>)
    ensures
        stably_sorted(field_views(v@), field_views(r@)),
{
    let ghost input = field_views(v@);
    let mut src = v;
    let mut out: Vec<FieldMetadata> = Vec::new();
    let ghost mut idx: Seq<int> = Seq::empty();
    while src.len() > 0
        invariant
            input.len() == src@.len() + out@.len(),
            field_views(src@) == input.take(src@.len() as int),
            idx.len() == out@.len(),
            forall|k: int| 0 <= k < idx.len() ==>
                src@.len() <= #[trigger] idx[k] < input.len() && field_views(out@)[k] == input[idx[k]],
            forall|k: int, l: int| 0 <= k < l < idx.len() ==> #[trigger] idx[k] != #[trigger] idx[l],
            forall|k: int, l: int| 0 <= k < l < out@.len() ==> !row_lt(#[trigger] field_views(out@)[l], #[trigger] field_views(out@)[k]),
            forall|k: int, l: int| 0 <= k < l < out@.len() && row_tied(#[trigger] field_views(out@)[k], #[trigger] field_views(out@)[l])
                ==> idx[k] < idx[l],
        decreases src@.len(),
    {
        let ghost j = src@.len() - 1;
        let ghost s0 = field_views(src@);
        let ghost o0 = field_views(out@);
        let ghost idx0 = idx;
        let x = src.pop().unwrap();
        let ghost xv = field_view(x);
        proof {
            assert(xv == s0[j]);
            assert(xv == input[j]);
            assert(field_views(src@) =~= input.take(j));
        }
        let mut p: usize = 0;
        while p < out.len() && row_less(&out[p], &x)
            invariant
                p <= out@.len(),
                o0 == field_views(out@),
                xv == field_view(x),
                forall|t: int| 0 <= t < p ==> row_lt(#[trigger] o0[t], xv),
            decreases out@.len() - p,
        {
            assert(o0[p as int] == field_view(out@[p as int]));
            p = p + 1;
        }
        proof {
            if p < out@.len() {
                assert(o0[p as int] == field_view(out@[p as int]));
            }
        }
        out.insert(p, x);
        proof {
            idx = idx0.insert(p as int, j);
            let o = field_views(out@);
            assert(o =~= o0.insert(p as int, xv));
            if p < o0.len() {
                assert(!row_lt(o0[p as int], xv));
            }
            assert forall|k: int| 0 <= k < idx.len() implies
                src@.len() <= #[trigger] idx[k] < input.len() && o[k] == input[idx[k]] by {
                if k < p {
                    assert(idx[k] == idx0[k] && o[k] == o0[k]);
                } else if k > p {
                    assert(idx[k] == idx0[k - 1] && o[k] == o0[k - 1]);
                }
            }
            assert forall|k: int, l: int| 0 <= k < l < idx.len() implies #[trigger] idx[k] != #[trigger] idx[l] by {
                if l < p {
                    assert(idx[k] == idx0[k] && idx[l] == idx0[l]);
                } else if l == p {
                    assert(idx[k] == idx0[k]);
                } else if k == p {
                    assert(idx[l] == idx0[l - 1]);
                } else if k < p {
                    assert(idx[k] == idx0[k] && idx[l] == idx0[l - 1]);
                } else {
                    assert(idx[k] == idx0[k - 1] && idx[l] == idx0[l - 1]);
                }
            }
            assert forall|k: int, l: int| 0 <= k < l < o.len() implies !row_lt(#[trigger] o[l], #[trigger] o[k]) by {
                if l < p {
                    assert(o[k] == o0[k] && o[l] == o0[l]);
                } else if l == p {
                    assert(o[k] == o0[k]);
                    lemma_row_lt(o0[k], xv, xv);
                } else if k == p {
                    assert(o[l] == o0[l - 1]);
                    lemma_row_lt(o0[l - 1], o0[p as int], xv);
                    lemma_row_lt(xv, o0[p as int], o0[l - 1]);
                    if p < l - 1 {
                        assert(!row_lt(o0[l - 1], o0[p as int]));
                    }
                } else if k < p {
                    assert(o[k] == o0[k] && o[l] == o0[l - 1]);
                } else {
                    assert(o[k] == o0[k - 1] && o[l] == o0[l - 1]);
                }
            }
            assert forall|k: int, l: int| 0 <= k < l < o.len() && row_tied(#[trigger] o[k], #[trigger] o[l])
                implies idx[k] < idx[l] by {
                if l < p {
                    assert(o[k] == o0[k] && o[l] == o0[l]);
                    assert(idx[k] == idx0[k] && idx[l] == idx0[l]);
                } else if l == p {
                    assert(o[k] == o0[k]);
                    lemma_row_lt(o0[k], xv, xv);
                } else if k == p {
                    assert(idx[l] == idx0[l - 1]);
                } else if k < p {
                    assert(o[k] == o0[k] && o[l] == o0[l - 1]);
                    assert(idx[k] == idx0[k] && idx[l] == idx0[l - 1]);
                } else {
                    assert(o[k] == o0[k - 1] && o[l] == o0[l - 1]);
                    assert(idx[k] == idx0[k - 1] && idx[l] == idx0[l - 1]);
                }
            }
        }
    }
    proof {
        assert(stable_arrangement(input, field_views(out@), idx));
    }
    out
}

/// The editable fields of a set of documents: the rows of each document,
/// stably sorted by document id and then path.
pub fn field_metadata(
    documents: &Vec<FieldDocument>,
    meshes: &Vec<MeshOptionFacts>,
    schemas: &Vec<ProjectConfigurationSchema>,
    sources: &OptionSources,
    index: &ReferenceIndexFacts,
) -> (r: Vec<FieldMetadata>)
    ensures
        stably_sorted(documents_rows(documents@, meshes@, schemas@, *sources, *index), field_views(r@)),
{
    let rows = collect_rows(documents, meshes, schemas, sources, index);
    sort_rows(rows)
}

} // verus!
