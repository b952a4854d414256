# nodalix-cad

The parts of the Nodalix CAD application that do not depend on floating
point or on the GUI, written in Verus and proved against their contracts.

- `src/` is the verified library:
  - `text`: string helpers and their specifications (trim, case, words,
    integer parsing, decimal digits);
  - `document`, `layers`, `layouts`, `copies`, `editing`: the document model
    (layers; entities by id, layer, kind and text; per-entity colors and
    line types; layouts; viewports) and its operations;
  - `selection`, `tools`, `snapping`, `commands`: selection state, the tool
    registry, snap settings and the command-bar parsers;
  - `dxf`, `dxf_document`, `dwg`, `step`, `stl`, `import`: reading DXF group
    codes, the tally of a DXF import and the entities it adds to a document,
    DWG converter configuration, status report and messages, the references
    an import keeps, STEP metadata, STL recognition and the import summaries;
  - `drawing_export`, `export`: the DXF and SVG text of a drawing and the
    export paths and messages.
- `app/` is the command-line front end of the CAD application
  (`--dwg-status`, `--inspect-step`, `--inspect-import`): file and process
  I/O, probing for converter programs, and the floating-point parts of
  reading DXF and STL geometry. It imports into a library `Document`.
- `tests/` runs the library on concrete values.
