//! Core of an address sanitizer for AArch64 targets run under dynamic
//! binary instrumentation: a shadow-memory allocator, validation of the
//! pointer arguments handed to libc routines, classification of faulting
//! accesses, and the error records that the surrounding fuzzer observes.

pub mod collections;
pub mod shadow;
pub mod metadata;
pub mod errors;
pub mod allocator;
pub mod runtime;
pub mod hooks;
pub mod trap;
pub mod observer;
pub mod packet_len;
pub mod stages;
