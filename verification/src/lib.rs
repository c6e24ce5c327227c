//! Decisions of an OverlayFS mount orchestrator, verified with Verus.
//!
//! Everything that touches the kernel is asked for, never done here: each operation is a machine
//! that names its next [`Request`] and is resumed with the host's [`Reply`] to it.

pub mod bind;
pub mod child;
pub mod child_laws;
pub mod cleanup;
pub mod core_laws;
pub mod core_mount;
pub mod error;
pub mod host;
pub mod layers;
pub mod overlay;
pub mod overlay_laws;
pub mod path_laws;
pub mod paths;
pub mod progress;
pub mod reply_laws;
pub mod report_laws;
pub mod runs;
pub mod stacked;
pub mod stacked_laws;
pub mod text;

pub use bind::{bind_mount, BindMount};
pub use child::{mount_overlay_child, ChildMount};
pub use cleanup::{cleanup_staging_mount, StagingCleanup};
pub use core_mount::{mount_overlay_core, prefer_legacy_ksu_lower_only, CoreMount};
pub use error::MountError;
pub use host::{MountEffect, MountFlags, Next, Place, Reply, Request, TreeFlags};
pub use layers::{collapse_staging_layers, MAX_LAYERS};
pub use overlay::{mount_overlay, OverlayMount};
pub use paths::{child_relative_path, collect_child_mount_points};
pub use stacked::{mount_overlayfs, StackedMount};
pub use text::escape_mount_option_value;
