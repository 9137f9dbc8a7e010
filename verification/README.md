# asha_services

Deterministic rules of a voxel game engine's gameplay services, verified with
Verus.

- `fnv`, `text`: FNV-1a hashing of little-endian integers and bytes, and the
  decimal, hexadecimal and `fnv1a64:` renderings used in readouts.
- `fabric_codec`, `fabric_filter`, `fabric_registry`: identities of the
  gameplay fabric (payload, schema and codec ids, event-filter descriptors),
  filter-shape checks, payload admission, provider checks, namespace overlaps,
  the module order the registry runs in (by module id), and the canonical
  order of registry diagnostics.
- `combat`: the health table and the atomic application of a resolved shot.
- `nav`: the walkable projection of a voxel world and budgeted breadth-first
  path queries over it, specified as the search itself (visiting order,
  visited count and the path its parent links rebuild).
- `levelgen`: the layout, markers and hashes of a generated tunnel.
- `voxel_asset`: the sparse run form and bounds of a voxel asset.
- `rules`, `ids`, `content`, `physics`: ECRP mutation rights, identifier and
  path grammars, document-set hashing, and the integer decisions of the
  kinematic integrator.
- `provenance`, `environment`, `materialize`: stored generator recipes, the
  checks on an environment materialization request, the generation limits,
  how the generated volume takes its place in the scene, and the provenance
  uri of the generated asset (which reads back as a stored recipe).
- `entity_definition`, `bundle_bootstrap`, `rules`: entity-definition
  validation and project-bundle bootstrap preflight and binding.
- `read_views`, `module_declarations`, `owners`, `topology`: the gameplay
  fabric's read-view providers, module declarations, owner cardinality, and
  the canonical topology dump and registry digests.
- `authored_behavior`, `gameplay_content`, `presentation`, `entity_content`,
  `scene_index`: validation of project content (behaviors, gameplay
  configurations, presentation catalogs, entity definitions, scenes).
- `authoring`: project-content authoring transactions.
- `utf8_text`: facts about the UTF-8 bytes of concatenated text.
- `policy_view`, `policy_record`: the redacted world view a policy reads,
  the classification of its proposals, and the rendered tick record.
- `readout`: the registry readout (sorted ids, owners, topology edges).
- `field_metadata`: the editor's field rows of a document set, stably
  sorted by document id and path, with their reference options.
- `document_set`: canonical document order, blank or repeated ids, the
  source path of each canonical file, and the staged encoding of a set
  (key checks, validation, source paths, then the set hash).
- `entity_authoring`: the outcome of an entity authoring command given the
  entity store's answer, and the bootstrap record of a stored definition.

`app/` holds what the library leaves to its callers: floating-point geometry
and physics, readouts that render floating-point values, and tunnel
generation around a caller-supplied random stream.
