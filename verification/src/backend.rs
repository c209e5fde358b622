//! Display-backend types shared by the lifecycle layer and the
//! configfs-vkms backend.

pub mod configfs_vkms;

use vstd::prelude::*;

verus! {

/// Static backend capabilities, reported once at backend init.
#[derive(Clone, Copy, Debug, PartialEq, Eq, Structural)]
pub struct BackendCapabilities {
    pub max_displays: u32,
    pub supports_dynamic_edid: bool,
}

/// Opaque handle for a created display.
#[derive(Clone, Debug)]
pub struct DisplayHandle {
    pub backend_id: String,
    /// Backend-specific identifier; for configfs-vkms, the instance
    /// directory name under the vkms configfs root.
    pub local_id: String,
}

/// Abstract value of a [`DisplayHandle`].
pub struct HandleModel {
    pub backend_id: Seq<char>,
    pub local_id: Seq<char>,
}

impl View for DisplayHandle {
    type V = HandleModel;

    open spec fn view(&self) -> HandleModel {
        HandleModel { backend_id: self.backend_id@, local_id: self.local_id@ }
    }
}

impl DisplayHandle {
    /// An equal, independently owned handle.
    pub fn duplicate(&self) -> (r: DisplayHandle)
        ensures
            r@ == self@,
    {
        DisplayHandle { backend_id: self.backend_id.clone(), local_id: self.local_id.clone() }
    }
}

/// Per-create record of which optional backend features the kernel
/// actually honored.
#[derive(Clone, Copy, Debug, PartialEq, Eq, Structural)]
pub struct FeatureAcceptance {
    /// True iff the kernel accepted the EDID write.
    pub edid_applied: bool,
}

impl Default for FeatureAcceptance {
    fn default() -> (r: FeatureAcceptance)
        ensures
            !r.edid_applied,
    {
        FeatureAcceptance { edid_applied: false }
    }
}

/// Result of a successful create: the display's handle and which
/// optional features took effect.
#[derive(Clone, Debug)]
pub struct CreateOutcome {
    pub handle: DisplayHandle,
    pub feature_acceptance: FeatureAcceptance,
}

} // verus!
