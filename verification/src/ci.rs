//! The `ci` command of the maintenance tool: the full CI suite.
use vstd::prelude::*;

verus! {

/// Run the full CI suite (requires msrv, nightly, wasm-pack, wasmtime).
pub struct Ci {}

impl Ci {
    /// The commands of the full suite: the lints first, then the feature
    /// matrix tests, then the minimum supported rustc check, each group in
    /// the order its own command gave them.
    pub fn prepare<C>(&self, lints: Vec<C>, test_features: Vec<C>, msrv: Vec<C>) -> (cmds: Vec<C>)
        ensures
            cmds@ == lints@ + test_features@ + msrv@,
    {
        let mut cmds: Vec<C> = Vec::new();
        let mut lints = lints;
        let mut test_features = test_features;
        let mut msrv = msrv;
        cmds.append(&mut lints);
        cmds.append(&mut test_features);
        cmds.append(&mut msrv);
        cmds
    }
}

} // verus!
