//! How graphs are compiled: precision, guards, and what is tried when a backend fails.

use crate::device::{view_of, Device};
use crate::text::{lower_text, same_text, to_lower, trim_text, trimmed};
use vstd::prelude::*;

verus! {

/// The environment variable that selects the precision of compiled graphs.
pub const PRECISION_ENV: &'static str = "RLX_FFT_PRECISION";

/// The number format of compiled graphs.
#[derive(Debug, Clone, Copy, PartialEq, Eq, Structural)]
pub enum Precision {
    F32,
    F16,
    BF16,
}

/// The precision that a lower-case name stands for; the empty name is single precision.
pub open spec fn precision_named(s: Seq<char>) -> Option<Precision> {
    if s == ""@ || s == "f32"@ || s == "fp32"@ || s == "float32"@ || s == "single"@ {
        Some(Precision::F32)
    } else if s == "f16"@ || s == "fp16"@ || s == "float16"@ || s == "half"@ {
        Some(Precision::F16)
    } else if s == "bf16"@ || s == "bfloat16"@ || s == "brain"@ {
        Some(Precision::BF16)
    } else {
        None
    }
}

/// Reads a precision, trimmed and in any case; an unknown name comes back as it was compared.
pub fn parse_precision(s: &str) -> (r: Result<Precision, String>)
    ensures
        match precision_named(lower_text(trimmed(s@))) {
            Some(p) => r == Ok::<Precision, String>(p),
            None => r matches Err(t) && t@ == lower_text(trimmed(s@)),
        },
{
    let key = to_lower(trim_text(s).as_str());
    let k = key.as_str();
    if same_text(k, "") || same_text(k, "f32") || same_text(k, "fp32") || same_text(k, "float32")
        || same_text(k, "single") {
        Ok(Precision::F32)
    } else if same_text(k, "f16") || same_text(k, "fp16") || same_text(k, "float16") || same_text(
        k,
        "half",
    ) {
        Ok(Precision::F16)
    } else if same_text(k, "bf16") || same_text(k, "bfloat16") || same_text(k, "brain") {
        Ok(Precision::BF16)
    } else {
        Err(key)
    }
}

/// The precision that the environment selects; single precision where it names none.
pub fn compile_precision(environment: Option<&str>) -> (r: Precision)
    ensures
        r == match view_of(environment) {
            Some(s) => match precision_named(lower_text(trimmed(s))) {
                Some(p) => p,
                None => Precision::F32,
            },
            None => Precision::F32,
        },
{
    match environment {
        Some(s) => match parse_precision(s) {
            Ok(p) => p,
            Err(_) => Precision::F32,
        },
        None => Precision::F32,
    }
}

/// How deep compilations for Metal are nested. The graph library of the platform is disabled while
/// the depth is not zero.
#[derive(Debug, Clone, Copy, PartialEq, Eq, Structural)]
pub struct MetalGuard {
    pub depth: usize,
}

impl MetalGuard {
    pub fn new() -> (r: MetalGuard)
        ensures
            r.depth == 0,
    {
        MetalGuard { depth: 0 }
    }

    /// Enters a compilation. Tells whether to disable the graph library now.
    pub fn enter(&mut self, device: Device) -> (disable: bool)
        requires
            old(self).depth < usize::MAX,
        ensures
            device is Metal ==> final(self).depth == old(self).depth + 1 && disable == (old(
                self,
            ).depth == 0),
            !(device is Metal) ==> *final(self) == *old(self) && !disable,
    {
        match device {
            Device::Metal => {
                let disable = self.depth == 0;
                self.depth = self.depth + 1;
                disable
            },
            _ => false,
        }
    }

    /// Leaves a compilation. Tells whether to enable the graph library again.
    pub fn leave(&mut self, device: Device) -> (enable: bool)
        ensures
            device is Metal ==> final(self).depth == (if old(self).depth > 0 {
                old(self).depth - 1
            } else {
                0
            }) && enable == (final(self).depth == 0),
            !(device is Metal) ==> *final(self) == *old(self) && !enable,
    {
        match device {
            Device::Metal => {
                self.depth = self.depth.saturating_sub(1);
                self.depth == 0
            },
            _ => false,
        }
    }
}

/// Where to compile again after a failure: on the CPU, unless it was the CPU that failed.
pub open spec fn fallback_of(failed: Device) -> Option<Device> {
    if failed is Cpu {
        None
    } else {
        Some(Device::Cpu)
    }
}

/// Where to compile again after a failure.
pub fn fallback_device(failed: Device) -> (r: Option<Device>)
    ensures
        r == fallback_of(failed),
        r == if failed is Cpu {
            None
        } else {
            Some(Device::Cpu)
        },
{
    match failed {
        Device::Cpu => None,
        _ => Some(Device::Cpu),
    }
}

/// How the compiled spectrum of a learned model is built.
#[derive(Debug, Clone, Copy, PartialEq, Eq, Structural)]
pub enum LearnedSpectrumKind {
    /// The full learned butterfly, gated where gates are closed.
    Butterfly,
    /// The native transform with the learned mask and correction behind it.
    NativeFftPost,
}

/// One attempt to compile a learned model.
#[derive(Debug, Clone, Copy, PartialEq, Eq, Structural)]
pub struct LearnedAttempt {
    pub device: Device,
    pub kind: LearnedSpectrumKind,
    /// Whether a failure of this attempt is final.
    pub last: bool,
}

/// The attempts to compile a learned model for a device, in order: the butterfly, then the native
/// transform on the same device, or the butterfly once more where the device is the CPU.
pub open spec fn learned_attempts(device: Device) -> Seq<LearnedAttempt> {
    seq![
        LearnedAttempt { device, kind: LearnedSpectrumKind::Butterfly, last: false },
        LearnedAttempt {
            device,
            kind: if device is Cpu {
                LearnedSpectrumKind::Butterfly
            } else {
                LearnedSpectrumKind::NativeFftPost
            },
            last: true,
        },
    ]
}

/// The attempts to compile a learned model for a device.
pub fn plan_learned_compile(device: Device) -> (r: [LearnedAttempt; 2])
    ensures
        r@ == learned_attempts(device),
{
    let kind = match device {
        Device::Cpu => LearnedSpectrumKind::Butterfly,
        _ => LearnedSpectrumKind::NativeFftPost,
    };
    let r = [
        LearnedAttempt { device, kind: LearnedSpectrumKind::Butterfly, last: false },
        LearnedAttempt { device, kind, last: true },
    ];
    assert(r@ =~= learned_attempts(device));
    r
}

/// A learned model is never moved to another device than the one asked for.
pub proof fn learned_models_stay_on_their_device(device: Device)
    ensures
        forall|i: int|
            0 <= i < learned_attempts(device).len() ==> (#[trigger] learned_attempts(
                device,
            )[i]).device == device,
{
}

/// Where a fused model is deployed: small work stays on the CPU instead of an accelerator.
pub open spec fn fused_device(batch: usize, n_fft: usize, requested: Device) -> Device {
    let accelerator = requested is Metal || requested is Cuda || requested is Mlx || requested is Gpu
        || requested is Rocm || requested is Vulkan;
    if accelerator && batch <= 64 && n_fft <= 512 {
        Device::Cpu
    } else {
        requested
    }
}

/// Where a fused model is deployed.
pub fn pick_fused_deploy_device(batch: usize, n_fft: usize, requested: Device) -> (r: Device)
    ensures
        r == fused_device(batch, n_fft, requested),
{
    let accelerator = match requested {
        Device::Metal => true,
        Device::Cuda => true,
        Device::Mlx => true,
        Device::Gpu => true,
        Device::Rocm => true,
        Device::Vulkan => true,
        _ => false,
    };
    if accelerator && batch <= 64 && n_fft <= 512 {
        Device::Cpu
    } else {
        requested
    }
}

} // verus!
