# photo_core

The verified core of a local-first RAW photo workflow: RAW import planning,
EXIF timeline parsing, moment grouping, batch stage progression, export and
Lightroom handoff planning with crash-safe checkpoints, culling and quick-cull
decisions, reference readiness and style-sync preflight, the workflow status
of a batch and the review of a group's edits, and the decision exchange with
a companion device.

- `src/` is the library. Every function in it is verified by Verus against its
  `requires`/`ensures` contract; the public proof functions state the laws the
  workflow relies on (round trips of stored names, what a retry or a recovery
  keeps, what a quick cull may never reject, what a companion patch holds).
  Calls into outside crates (`uuid`, `kamadak-exif`) and the few parts of std
  that vstd does not specify go through small trusted wrappers whose doc
  comments say what is assumed of them.
- `app/` is ordinary Rust around the library: the SQLite stores, file scanning,
  image rendering, the batch worker thread, the JSON record types, and the
  floating-point scoring that feeds the library's decisions.
- `tests/` runs the library on concrete values.
