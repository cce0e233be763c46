//! Project configuration: the optional `nono.toml` at the project root.
//!
//! Everything here is opt-in. A project with no `nono.toml` gets the default
//! (an empty config). A `[build]` section lists shell commands that run, in
//! order, from the project root before the site compiles (asset pipelines:
//! Tailwind, esbuild, whatever). Two path tokens are substituted first:
//! `<rootDir>` is the project root and `<publicDir>` its `static/` directory.

use vstd::prelude::*;
use crate::site::{step_command, expand_step};

verus! {

pub struct Config {
    pub build: BuildSection,
}

pub struct BuildSection {
    /// Shell commands run, in order, from the project root before the site is
    /// compiled, on every build.
    pub steps: Vec<String>,
}

impl Default for BuildSection {
    fn default() -> (r: BuildSection)
        ensures
            r.steps@.len() == 0,
    {
        BuildSection { steps: Vec::new() }
    }
}

impl Default for Config {
    fn default() -> (r: Config)
        ensures
            r.build.steps@.len() == 0,
    {
        Config { build: BuildSection::default() }
    }
}

impl Config {
    /// The build steps' commands, in order, with their path tokens substituted.
    pub fn step_commands(&self, root: &str, public: &str) -> (r: Vec<String>)
        ensures
            r@.len() == self.build.steps@.len(),
            forall|k: int|
                0 <= k < r@.len() ==> #[trigger] r@[k]@ == step_command(self.build.steps@[k]@, root@, public@),
    {
        let mut out: Vec<String> = Vec::new();
        let mut i: usize = 0;
        while i < self.build.steps.len()
            invariant
                i <= self.build.steps.len(),
                out@.len() == i,
                forall|k: int|
                    0 <= k < i ==> #[trigger] out@[k]@ == step_command(self.build.steps@[k]@, root@, public@),
            decreases self.build.steps.len() - i,
        {
            out.push(expand_step(self.build.steps[i].as_str(), root, public));
            i = i + 1;
        }
        out
    }
}

} // verus!
