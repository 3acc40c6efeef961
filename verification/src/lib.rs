//! The illumos `ugen` backend of a USB access library: the parsing of USB
//! descriptors, the walk over the illumos device tree that enumerates USB
//! devices, the control requests that fetch descriptors, and the completion
//! bookkeeping of transfers, each with its contract.
pub mod bytes;
pub mod control;
pub mod descriptors;
pub mod device;
pub mod enumeration;
pub mod paths;
pub mod text;
pub mod transfer;
