//! Target-arch-derived analysis features: a fact about the module being
//! analyzed, not about its launch.

use vstd::prelude::*;

verus! {

/// A target architecture, by its number (`sm_90` is 90).
#[derive(Debug, Clone, Copy, PartialEq, Eq, Structural)]
pub struct Arch(pub u32);

/// A module's `.target` directive.
#[derive(Debug)]
pub struct Target {
    pub archs: Vec<Arch>,
}

/// Analysis behavior gated by the module's declared target architecture.
#[derive(Debug, Clone, Copy, PartialEq, Eq, Structural)]
pub struct TargetFeatures {
    /// Whether a missing `fence.proxy.async` is a reportable hazard. Only
    /// sm_90 and later have an async proxy at all.
    pub async_proxy_fence: bool,
}

impl TargetFeatures {
    /// Derives features from a module's `.target` directive: a module that
    /// *could* run on sm_90 or later gets the stricter check even if it also
    /// lists an older architecture.
    pub fn from_target(target: &Target) -> (r: Self)
        ensures
            r.async_proxy_fence == (exists|i: int|
                0 <= i < target.archs@.len() && (#[trigger] target.archs@[i]).0 >= 90),
    {
        let mut i: usize = 0;
        while i < target.archs.len()
            invariant
                i <= target.archs@.len(),
                forall|j: int| 0 <= j < i ==> (#[trigger] target.archs@[j]).0 < 90,
            decreases target.archs@.len() - i,
        {
            if target.archs[i].0 >= 90 {
                assert(target.archs@[i as int].0 >= 90);
                return TargetFeatures { async_proxy_fence: true };
            }
            i = i + 1;
        }
        TargetFeatures { async_proxy_fence: false }
    }
}

} // verus!
