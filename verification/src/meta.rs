//! Per-frame metadata: residency, mutability, backend details and the last
//! residency transition.
use std::time::Instant;
use vstd::prelude::*;

use crate::format::MediaFormat;

verus! {

/// `std::time::Instant`, carried through frame metadata without being read.
#[verifier::external_type_specification]
#[verifier::external_body]
pub struct ExInstant(Instant);

/// Runtime-visible residency for a frame payload.
#[derive(Debug, Clone, Copy, PartialEq, Eq, Hash, Structural)]
pub enum FrameResidency {
    HostOwned,
    HostExternal,
    Dmabuf,
    GpuTexture,
    CompressedPacket,
}

impl FrameResidency {
    /// Stable lower-case name of the residency.
    pub fn as_str(&self) -> (r: &'static str)
        ensures
            r@ == residency_name(*self)@,
    {
        match self {
            FrameResidency::HostOwned => "host_owned",
            FrameResidency::HostExternal => "host_external",
            FrameResidency::Dmabuf => "dmabuf",
            FrameResidency::GpuTexture => "gpu_texture",
            FrameResidency::CompressedPacket => "compressed_packet",
        }
    }
}

/// The stable name of each residency.
pub open spec fn residency_name(r: FrameResidency) -> &'static str {
    match r {
        FrameResidency::HostOwned => "host_owned",
        FrameResidency::HostExternal => "host_external",
        FrameResidency::Dmabuf => "dmabuf",
        FrameResidency::GpuTexture => "gpu_texture",
        FrameResidency::CompressedPacket => "compressed_packet",
    }
}

/// Mutability contract visible to the runtime.
#[derive(Debug, Clone, Copy, PartialEq, Eq, Hash, Structural)]
pub enum FrameMutability {
    Mutable,
    ReadOnly,
}

impl Default for FrameMutability {
    fn default() -> (r: Self)
        ensures
            r == FrameMutability::Mutable,
    {
        FrameMutability::Mutable
    }
}

/// Reason a frame changed residency or had to be materialized.
#[derive(Debug, Clone, Copy, PartialEq, Eq, Hash, Structural)]
pub enum ResidencyTransitionReason {
    Capture,
    Decode,
    Encode,
    FrameHook,
    ImageHook,
    PackedTransform,
    ImageMaterialize,
    FileReplay,
    NetcamIngress,
    BackendFallbackCopy,
    Unknown,
}

/// The stable name of each transition reason.
pub open spec fn reason_name(r: ResidencyTransitionReason) -> &'static str {
    match r {
        ResidencyTransitionReason::Capture => "capture",
        ResidencyTransitionReason::Decode => "decode",
        ResidencyTransitionReason::Encode => "encode",
        ResidencyTransitionReason::FrameHook => "frame_hook",
        ResidencyTransitionReason::ImageHook => "image_hook",
        ResidencyTransitionReason::PackedTransform => "packed_transform",
        ResidencyTransitionReason::ImageMaterialize => "image_materialize",
        ResidencyTransitionReason::FileReplay => "file_replay",
        ResidencyTransitionReason::NetcamIngress => "netcam_ingress",
        ResidencyTransitionReason::BackendFallbackCopy => "backend_fallback_copy",
        ResidencyTransitionReason::Unknown => "unknown",
    }
}

impl ResidencyTransitionReason {
    /// Stable lower-case name of the reason.
    pub fn as_str(&self) -> (r: &'static str)
        ensures
            r@ == reason_name(*self)@,
    {
        match self {
            ResidencyTransitionReason::Capture => "capture",
            ResidencyTransitionReason::Decode => "decode",
            ResidencyTransitionReason::Encode => "encode",
            ResidencyTransitionReason::FrameHook => "frame_hook",
            ResidencyTransitionReason::ImageHook => "image_hook",
            ResidencyTransitionReason::PackedTransform => "packed_transform",
            ResidencyTransitionReason::ImageMaterialize => "image_materialize",
            ResidencyTransitionReason::FileReplay => "file_replay",
            ResidencyTransitionReason::NetcamIngress => "netcam_ingress",
            ResidencyTransitionReason::BackendFallbackCopy => "backend_fallback_copy",
            ResidencyTransitionReason::Unknown => "unknown",
        }
    }
}

/// Diagnostic record describing the last residency transition on a frame.
#[derive(Debug, Clone, Copy, PartialEq, Eq, Hash, Structural)]
pub struct ResidencyTransition {
    pub from: FrameResidency,
    pub to: FrameResidency,
    pub reason: ResidencyTransitionReason,
    pub copied: bool,
}

/// V4L2 buffer details of a captured frame.
#[derive(Debug, Clone, Copy, PartialEq, Eq, Structural)]
pub struct V4l2FrameMeta {
    pub sequence: u32,
    pub bytes_used: u32,
    pub field: u32,
    pub flags: u32,
    pub zero_copy: bool,
}

/// Backend-specific frame details.
#[derive(Debug, Clone, Copy, PartialEq, Eq, Structural)]
pub enum BackendFrameMeta {
    V4l2(V4l2FrameMeta),
}

impl BackendFrameMeta {
    /// The V4L2 details, when the backend is V4L2.
    pub fn as_v4l2(&self) -> (r: Option<&V4l2FrameMeta>)
        ensures
            r == (match *self {
                BackendFrameMeta::V4l2(m) => Some(&m),
            }),
    {
        match self {
            BackendFrameMeta::V4l2(meta) => Some(meta),
        }
    }
}

/// Metadata associated with a frame.
#[derive(Debug, Clone, Copy)]
pub struct FrameMeta {
    pub format: MediaFormat,
    pub timestamp: u64,
    pub backend: Option<BackendFrameMeta>,
    pub capture_instant: Option<Instant>,
    pub residency: Option<FrameResidency>,
    pub mutability: FrameMutability,
    pub last_transition: Option<ResidencyTransition>,
}

impl FrameMeta {
    /// Metadata with the given format and timestamp and nothing else set.
    pub fn new(format: MediaFormat, timestamp: u64) -> (r: Self)
        ensures
            r.format == format,
            r.timestamp == timestamp,
            r.backend is None,
            r.capture_instant is None,
            r.residency is None,
            r.mutability == FrameMutability::Mutable,
            r.last_transition is None,
    {
        FrameMeta {
            format,
            timestamp,
            backend: None,
            capture_instant: None,
            residency: None,
            mutability: FrameMutability::Mutable,
            last_transition: None,
        }
    }

    /// The same metadata carrying `backend`.
    pub fn with_backend(self, backend: BackendFrameMeta) -> (r: Self)
        ensures
            r == (FrameMeta { backend: Some(backend), ..self }),
    {
        FrameMeta { backend: Some(backend), ..self }
    }

    /// Backend details, if any.
    pub fn backend(&self) -> (r: Option<&BackendFrameMeta>)
        ensures
            r == (match self.backend {
                Some(b) => Some(&b),
                None => None,
            }),
    {
        match &self.backend {
            Some(b) => Some(b),
            None => None,
        }
    }

    /// V4L2 backend details, if any.
    pub fn v4l2(&self) -> (r: Option<&V4l2FrameMeta>)
        ensures
            r == (match self.backend {
                Some(BackendFrameMeta::V4l2(m)) => Some(&m),
                None => None,
            }),
    {
        match &self.backend {
            Some(b) => b.as_v4l2(),
            None => None,
        }
    }

    /// The same metadata carrying the capture instant.
    pub fn with_capture_instant(self, capture_instant: Instant) -> (r: Self)
        ensures
            r == (FrameMeta { capture_instant: Some(capture_instant), ..self }),
    {
        FrameMeta { capture_instant: Some(capture_instant), ..self }
    }

    /// When the frame was captured, if known.
    pub fn capture_instant(&self) -> (r: Option<Instant>)
        ensures
            r == self.capture_instant,
    {
        self.capture_instant
    }

    /// The same metadata with `residency` set.
    pub fn with_residency(self, residency: FrameResidency) -> (r: Self)
        ensures
            r == (FrameMeta { residency: Some(residency), ..self }),
    {
        FrameMeta { residency: Some(residency), ..self }
    }

    /// The residency, if set.
    pub fn residency(&self) -> (r: Option<FrameResidency>)
        ensures
            r == self.residency,
    {
        self.residency
    }

    /// The same metadata with `mutability` set.
    pub fn with_mutability(self, mutability: FrameMutability) -> (r: Self)
        ensures
            r == (FrameMeta { mutability, ..self }),
    {
        FrameMeta { mutability, ..self }
    }

    /// The mutability contract.
    pub fn mutability(&self) -> (r: FrameMutability)
        ensures
            r == self.mutability,
    {
        self.mutability
    }

    /// The same metadata recording `transition`.
    pub fn with_transition(self, transition: ResidencyTransition) -> (r: Self)
        ensures
            r == (FrameMeta { last_transition: Some(transition), ..self }),
    {
        FrameMeta { last_transition: Some(transition), ..self }
    }

    /// The last recorded residency transition.
    pub fn last_transition(&self) -> (r: Option<ResidencyTransition>)
        ensures
            r == self.last_transition,
    {
        self.last_transition
    }
}

} // verus!
