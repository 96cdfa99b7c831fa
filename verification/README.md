# ico_extract

Extracts icons (`.ico`) from Windows PE files (`.dll` / `.exe` / `.mun`) by
parsing the file format alone: PE headers, the `.rsrc` directory tree, the
`RT_GROUP_ICON` / `RT_ICON` resources, and the reassembled `.ico`.

Layout:

- `src/` — the library, written in Verus and verified:
  - `bytes.rs` little-endian readers and their specifications;
  - `pe.rs` DOS/PE/COFF/optional headers, section table, RVA mapping;
  - `resource.rs` resource directories, data entries, leaf data;
  - `ico.rs` group entries and `.ico` assembly, with the layout theorem;
  - `extract.rs` the public entry points and the laws relating them;
  - `results.rs`, `error.rs` error sequencing and the error type.
- `app/` — the WebAssembly bindings and command-line front ends.
- `tests/` — unit and end-to-end tests on hand-built PE images.
