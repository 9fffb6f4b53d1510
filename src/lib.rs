//! Guest-side core of a sandboxed proving module.
//!
//! The guest lives in a linear-memory virtual machine and talks to its host
//! through integers only: addresses, lengths, call tokens and flags.  This
//! crate holds the rules of that boundary: how an (address, length) pair
//! becomes bytes and text, how guest buffers are handed out and reclaimed,
//! how results are delivered against a call token, and which diagnostic
//! events are forwarded to the host.
pub mod diagnostics;
pub mod entropy;
pub mod heap;
pub mod marshal;
pub mod memory;
pub mod protocol;

pub use diagnostics::{
    closing_events, end_mark, event_message, mark_event, phase_ended, phase_started, start_mark, EventField, HookLatch,
    HostEvent, LogLevel,
};
pub use entropy::{entropy_outcome, EntropyError};
pub use heap::{
    alloc_request, release_request, AllocError, AllocRequest, Block, Heap, ReleaseRequest, ALIGN,
    EMPTY_BLOCK,
};
pub use marshal::{decode_text, decode_words, BoundaryError};
pub use memory::LinearMemory;
pub use protocol::{
    secure_pcs_config, trace_variant, verify_reply, Delivery, FriParams, Guest, PcsParams,
    TraceVariant,
};
