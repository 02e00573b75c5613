//! Safe, verified core of a wrapper around a native page-rendering and
//! script engine.
//!
//! The native engine is reached only through opaque handles and C function
//! pointers; none of that can be checked here. What this crate holds is the
//! part of the wrapper that decides and computes: the closure registry that
//! stands behind every callback registration, the model of the script
//! engine's dynamically typed values, the string buffer conversions, and the
//! small pure computations (window flag words, log line formatting, outcome
//! decisions for fallible native calls) that the unverified driver defers to.

#![allow(non_snake_case)]

use vstd::prelude::*;

pub mod helpers;
pub mod jsc;
pub mod logfmt;
pub mod registry;
pub mod settings;

verus! {

/// Error returned by operations that need an optional resource (a window,
/// an overlay, a view) which has not been created yet.
#[derive(Clone, Copy, PartialEq, Eq, Structural, Debug, Hash)]
pub struct NoneError {}

/// Computes the window creation flag word from the four style switches.
///
/// Bit 0 stands for a borderless window, bit 1 for a titled one, bit 2 for
/// a resizable one and bit 3 for a maximizable one; no other bit is ever set.
pub fn window_flags(borderless: bool, titled: bool, resizable: bool, maximizable: bool) -> (flags: u32)
    ensures
        flags == (if borderless { 1u32 } else { 0u32 })
            + (if titled { 2u32 } else { 0u32 })
            + (if resizable { 4u32 } else { 0u32 })
            + (if maximizable { 8u32 } else { 0u32 }),
{
    let mut window_flags: u32 = 0;

    if borderless {
        window_flags = window_flags + 1;
    }

    if titled {
        window_flags = window_flags + 2;
    }

    if resizable {
        window_flags = window_flags + 4;
    }

    if maximizable {
        window_flags = window_flags + 8;
    }

    window_flags
}

} // verus!
