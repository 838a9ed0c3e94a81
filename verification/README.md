# gs_rust

The core of a gaussian-splat viewer and editor, written in Verus. Every
function is proved against its contract except two trusted wrappers of
std, whose contracts are taken on trust: `std::str::from_utf8` (in
`loader`) and `std::path::Path::with_extension` (in `local`).

- `src/` is the verified library: the packed "GSZ1" splat format, the
  counting sort that orders splats back to front, PLY header and body
  reading, OBJ text reading, object ranges over the shared splat list,
  the octree's split rules, mesh index generation, the editor's
  selection, listing, undo history and segmentation picking, and the
  input state machine (mouse, mode hints, key toggles, camera keys).
- `app/` is the host code around it: floating-point math (quantizing
  splats, covariances, projections, octree bounds), rkyv archives, JSON
  for the UI, file conversion on disk.
- `tests/` runs the library on concrete values.
