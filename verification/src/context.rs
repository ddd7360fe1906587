//! Per-run settings shared by every link request of one invocation.

use vstd::prelude::*;

verus! {

/// Settings for one reconciliation run: the directory holding the source
/// files, the home directory to substitute for a leading `~` (when one is
/// known), and whether the run only simulates its mutations.
pub struct Context {
    pub pwd: String,
    pub home: Option<String>,
    pub dry_run: bool,
}

impl Context {
    /// A context rooted at `pwd`, with no home directory and mutation enabled.
    pub fn new(pwd: String) -> (ctx: Self)
        ensures
            ctx.pwd == pwd,
            ctx.home is None,
            !ctx.dry_run,
    {
        Context { pwd, home: None, dry_run: false }
    }

    /// The same context with the simulation flag set to `flag`.
    pub fn dry_run(self, flag: bool) -> (ctx: Self)
        ensures
            ctx.pwd == self.pwd,
            ctx.home == self.home,
            ctx.dry_run == flag,
    {
        Self { dry_run: flag, ..self }
    }

    /// The same context with the home directory set to `home`.
    pub fn with_home(self, home: String) -> (ctx: Self)
        ensures
            ctx.pwd == self.pwd,
            ctx.home == Some(home),
            ctx.dry_run == self.dry_run,
    {
        Self { home: Some(home), ..self }
    }
}

} // verus!
