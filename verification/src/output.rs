//! Where a project's build output goes.

use vstd::prelude::*;
use crate::paths::{join, join_exec};

verus! {

/// Output directory configuration for a project.
#[derive(Debug)]
pub struct OutputConfig {
    /// Base build directory (e.g. `project_root/build`).
    pub base: String,
}

impl OutputConfig {
    /// Output configuration for a project: `build_dir` when given, else
    /// `{project_root}/build`. Each plugin writes under `{base}/{plugin}/`.
    pub fn new(project_root: &str, build_dir: Option<String>) -> (c: OutputConfig)
        ensures
            c.base@ == (match build_dir {
                Some(custom) => custom@,
                None => join(project_root@, "build"@),
            }),
    {
        let base = match build_dir {
            Some(custom) => custom,
            None => join_exec(project_root, "build"),
        };
        OutputConfig { base }
    }

    /// The output directory for the plugin called `name`.
    pub fn dir_for_plugin(&self, name: &str) -> (d: String)
        ensures
            d@ == join(self.base@, name@),
    {
        join_exec(self.base.as_str(), name)
    }
}

} // verus!
