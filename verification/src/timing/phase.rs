//! The phase names, spelled once. A phase runs once per format plugin, so a
//! build's timings sum several samples under most of these.

use vstd::prelude::*;

verus! {

/// Scanning `.typ` files for package imports and resolving them.
pub const PACKAGES: &'static str = "packages";
/// Typst's embedded, system and configured font scan.
pub const FONTS: &'static str = "fonts";
/// Walking the content directory and applying the spine config.
pub const SPINE_SCAN: &'static str = "spine-scan";
/// Gathering package and project marrow contributions.
pub const MARROW: &'static str = "marrow";
/// Synthesizing the bundle main and the per-vertebra source overlay.
pub const MOULD: &'static str = "mould";
/// The Typst compile over the whole spine.
pub const TYPST_COMPILE: &'static str = "typst-compile";
/// Turning the compiled bundle into a path-to-bytes map.
pub const EXPORT: &'static str = "export";
/// Splitting that map into documents and assets.
pub const FLATTEN: &'static str = "flatten";
/// The format plugin writing its output.
pub const PLUGIN_WRITE: &'static str = "plugin-write";
/// Applying the `copy` globs.
pub const COPY_GLOBS: &'static str = "copy-globs";

} // verus!
