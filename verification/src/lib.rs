//! Declarative fleet configuration: a central manager assigns configuration
//! bundles (configsets) to nodes by label selector, and a per-node agent
//! converges the local system toward the assigned configuration, reporting
//! status through a shared control plane.
//!
//! The library holds the convergence logic itself, verified: the node
//! lifecycle state machine, the content resolver, the drift capability for
//! managed resources, the per-node reconciler and the fleet assignment
//! controller. The control plane and the local system appear as explicit
//! values, so every decision is a function from observed state to actions;
//! the surrounding process (watch streams, object-store requests, OS writes)
//! lives outside the library and carries plain values in and out.

pub mod agent;
pub mod drift;
pub mod errors;
pub mod konfignode;
pub mod laws;
pub mod konfigset;
pub mod manager;
pub mod meta;
pub mod plane;
pub mod resolver;
pub mod strutil;

use vstd::prelude::*;

verus! {

/// Pick one of two values by a condition.
pub fn tern<T>(expr: bool, when_true: T, when_false: T) -> (r: T)
    ensures
        expr ==> r == when_true,
        !expr ==> r == when_false,
{
    if expr {
        when_true
    } else {
        when_false
    }
}

} // verus!
