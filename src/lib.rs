//! Live virtual-memory tracking for a traced process family: an interval map of
//! per-range residency, the relay that reduces tracer and userfault events into
//! per-tracee state and outbound frames, the tracer's syscall-exit decisions, the
//! registry of userfault descriptors awaiting adoption, the userfault worker's
//! decisions, and the wire codec.
//!
//! The tracer decodes x86-64 registers and syscall numbers: the library targets
//! x86-64 Linux only.

pub mod codec;
pub mod event;
pub mod memmap;
pub mod pending;
pub mod relay;
pub mod tracer;
pub mod userfault;
