# manga_editor

The logic of an editor for comic pages, with contracts that Verus proves: cleaning text off pages,
brushes and regions, layers and groups with their undo steps, and the settings of the user.

- `src/` is the verified library. Numbers that a screen needs (positions, sizes, opacities) are kept
  by their bit patterns and never computed with here; what depends on them is taken as an argument.
- `app/` is the ordinary Rust around it: floating point, files, threads, windows and the canvas. It is
  indented with tabs. What the rest of the program gives it (the canvas, the shared document of
  layers, the undo history) it takes through traits.
- `tests/` runs the library with the crates it calls.

What the library takes from other crates stands behind a few trusted functions: colours of `egui`
in `color.rs`, identifiers of `uuid` in `ident.rs`, and documents of `serde_json` in `json.rs`.
From the standard library it trusts `str::trim` in `blank.rs` and the sorting of bytes in
`autoclean.rs`.
