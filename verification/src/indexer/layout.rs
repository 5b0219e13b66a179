//! Names of source files and metadata directories.

use vstd::prelude::*;

use crate::text::str_eq;

verus! {

/// The extension of source files.
pub const PRIMARY_SOURCE_EXT: &'static str = "yb";

/// The extension that source files had before; still read.
pub const LEGACY_SOURCE_EXT: &'static str = "vibe";

/// The directory, under a project root, that holds generated metadata.
pub const PRIMARY_METADATA_DIR: &'static str = ".yb";

/// The metadata directory's former name.
pub const LEGACY_METADATA_DIR: &'static str = ".vibe";

/// Whether a file extension (without its dot) marks a source file.
pub fn is_supported_source_ext(ext: &str) -> (r: bool)
    ensures
        r == (ext@ == "yb"@ || ext@ == "vibe"@),
{
    str_eq(ext, "yb") || str_eq(ext, "vibe")
}

/// Where the index of a project lives when it is opened.
#[derive(Debug, Clone, Copy, PartialEq, Eq, Structural)]
pub enum IndexRootPlan {
    /// The primary index root, as it is.
    UsePrimary,
    /// The primary index root, after copying the index from the legacy root.
    MigrateLegacy,
}

/// The primary root is used unless only the legacy root holds an index;
/// then that index is migrated to the primary root first.
pub fn plan_index_root(primary_index_exists: bool, legacy_index_exists: bool) -> (r: IndexRootPlan)
    ensures
        r == (if !primary_index_exists && legacy_index_exists {
            IndexRootPlan::MigrateLegacy
        } else {
            IndexRootPlan::UsePrimary
        }),
{
    if primary_index_exists {
        IndexRootPlan::UsePrimary
    } else if !legacy_index_exists {
        IndexRootPlan::UsePrimary
    } else {
        IndexRootPlan::MigrateLegacy
    }
}

} // verus!
