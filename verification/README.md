# overlayfs

The decisions of an OverlayFS mount orchestrator, written and proved in Verus.

- `src/` is the library. Each operation (`mount_overlay`, `mount_overlayfs`, `mount_overlay_child`,
  `mount_overlay_core`, `bind_mount`, `cleanup_staging_mount`) is a machine: `next` names the request
  that it waits for, `resume` takes the host's reply. What a machine does is stated in the
  contracts of these methods, over the specification functions `pending` and `resumed`.
- `src/*_laws.rs`, `src/runs.rs` and `src/progress.rs` state what holds of whole operations,
  whatever the host replies.
- `app/` carries the requests out on a Linux host, with rustix.
- `tests/` runs the library against scripted hosts.
