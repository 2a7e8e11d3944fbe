# acadrust (verified core)

The logic of a CAD drawing library written in Verus, each function with a
contract that Verus proves.

`src/` is the library:

- `document`, `objects`, `types`, `seqs`, `text`: the drawing model (header,
  symbol tables, entities, the object store keyed by handle) and the text
  and sequence helpers the contracts are stated with.
- `defaults`: the default table entries of a new drawing and the repair the
  DXF reader makes when a file reuses their handles, with the laws that no
  handle it hands out is used twice and that stale dimension-style text
  styles are re-pointed.
- `dwg_builder`: the DWG builder's handle-to-name maps, class-code map,
  duplicate block names, dimension-style handle repair, root dictionary,
  handle seed and entity ownership.
- `dxf_reader`: the reader configuration and the decisions of the read loop
  as a state machine that the caller drives with the pairs it reads.
- `layer_state`, `legacy_viewport`, `loft`, `xdata`, `viewport`: layer
  states, legacy viewport data, loft references and curves, extended data.
- `code_page`, `mif`, `color_book`, `acds`: code pages and encoding
  detection (through `encoding_rs`), MIF escapes, color-book names, ACDS
  blob collection.
- `assoc`, `assoc_read`, `assoc_names`: typed reading of associative-object
  records.
- `assoc_write`: writing associative objects (actions, dependencies,
  parameters, surface, annotation and array bodies, constraint groups and
  their nodes, dimension associations) as the exact sequence of typed DXF
  groups; `app/dxf_groups.rs` prints the groups as DXF text and reads DXF
  text pairs back into typed groups.
- `assoc_group_read`: reading constraint-node data, node ids, statuses and
  connections from typed groups, with the laws that reading what the
  writers wrote gives it back.
- `mvt`: the vector-tile layer builder.
- `dwg_bits`, `dwg_bit_writer`, `field`, `entity_common`: reading and
  writing DWG bit streams (bit-coded integers, doubles as bit patterns,
  handle references) with the laws that a read gives back what was written,
  field lists read from and written to them, and the mapping of an entity's
  common data to names and owners.

`app/` holds what Verus does not take: stream I/O and the loop that drives
a DXF read, the protobuf tile codec,
floating-point tile geometry, thread-pool helpers and serde forms of the
library's types. `tests/` runs the library on concrete drawings.
