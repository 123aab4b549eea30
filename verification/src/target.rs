//! The requested target identity.
use crate::text::{string_is, text};
use vstd::prelude::*;

verus! {

/// Requested identity only. Imported modules cannot grant themselves capabilities.
#[derive(Clone, Debug, PartialEq, Eq)]
pub struct TargetRequest {
    pub backend: String,
    pub arch: String,
}

impl TargetRequest {
    /// The request names MUSA on MP31.
    pub open spec fn names_musa_mp31(&self) -> bool {
        self.backend@ == "musa"@ && self.arch@ == "mp31"@
    }

    /// The request names CUDA on SM 120.
    pub open spec fn names_cuda_sm120(&self) -> bool {
        self.backend@ == "cuda"@ && self.arch@ == "sm_120"@
    }

    pub fn musa_mp31() -> (r: Self)
        ensures
            r.names_musa_mp31(),
    {
        TargetRequest { backend: text("musa"), arch: text("mp31") }
    }

    /// The exact targets with an implemented construction subset.
    pub fn is_known(&self) -> (r: bool)
        ensures
            r == (self.names_musa_mp31() || self.names_cuda_sm120()),
    {
        (string_is(&self.backend, "musa") && string_is(&self.arch, "mp31")) || self.is_cuda()
    }

    pub fn is_cuda(&self) -> (r: bool)
        ensures
            r == self.names_cuda_sm120(),
    {
        string_is(&self.backend, "cuda") && string_is(&self.arch, "sm_120")
    }

    pub fn dup(&self) -> (r: Self)
        ensures
            r == *self,
    {
        TargetRequest { backend: self.backend.clone(), arch: self.arch.clone() }
    }
}

impl Default for TargetRequest {
    fn default() -> (r: Self)
        ensures
            r.names_musa_mp31(),
    {
        Self::musa_mp31()
    }
}

/// Offline execution geometry for structural checks, not instruction/toolchain admission.
/// Full instruction, descriptor and synchronization contracts remain unimplemented.
pub const MP31_WARP_SIZE: u32 = 32;

} // verus!
