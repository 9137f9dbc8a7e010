//! Deterministic rules of the engine's gameplay services: hashing and identity
//! labels, navigation, combat health, tunnel layout, gameplay-fabric identity
//! checks and rule mutation rights.

pub mod fnv;
pub mod text;
pub mod fabric_codec;
pub mod combat;
pub mod nav;
pub mod levelgen;
pub mod rules;
pub mod ids;
pub mod fabric_filter;
pub mod fabric_registry;
pub mod physics;
pub mod content;
pub mod voxel_asset;
pub mod provenance;
pub mod environment;
pub mod entity_definition;
pub mod bundle_bootstrap;
pub mod read_views;
pub mod module_declarations;
pub mod owners;
pub mod authored_behavior;
pub mod gameplay_content;
pub mod presentation;
pub mod entity_content;
pub mod scene_index;
pub mod authoring;
pub mod topology;
pub mod materialize;
pub mod utf8_text;
pub mod policy_view;
pub mod readout;
pub mod field_metadata;
pub mod document_set;
pub mod policy_record;
pub mod entity_authoring;
