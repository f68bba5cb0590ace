# furnigen_core

Parametric wardrobe design (canonical unit: millimetres).

- `src/` — the verified library (Verus): the rules of the wardrobe tooling that decide on
  integers, identifiers, bytes and text.
  - `spec`: document version rule, counting rule, `SpecError` and its texts.
  - `text`: decimal and zero-padded number text, with read-back and injectivity lemmas.
  - `panels`: shelf part ids (`shelf_001`, …) and labels; distinct shelves get distinct names.
  - `bom`: cut-list CSV framing.
  - `export_2d`: XML escaping, the SVG cut sheet and the DXF drawing framing.
  - `mesh_index`: quad triangulation of the preview meshes; quads always form a triangle mesh.
  - `export_mesh`: export checks, OBJ text, glTF buffer layout, little-endian buffer, data URI.
  - `shelf_layout`: listing order of boards in bay layouts, number of uprights.
  - `prng`: SplitMix64 with its jump-ahead closed form.
- `app/` — the millimetre geometry (floating point), the serde document types and the browser
  boundary, built on the library.
- `tests/` — tests of the library.
