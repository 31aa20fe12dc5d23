//! Core logic of a control-surface hub: profiles of configured action
//! instances per device, context addressing, plugin connection brokering
//! with store-and-forward queues, and event routing between devices,
//! plugins and property inspectors.

pub mod broker;
pub mod disk;
pub mod errors;
pub mod info;
pub mod instances;
pub mod manifest;
pub mod messages;
pub mod profiles;
pub mod registry;
pub mod router;
pub mod settings;
pub mod shared;
pub mod text;
pub mod webserver;

use vstd::prelude::*;

verus! {

/// Number of key slots on a device grid.
pub fn key_slot_count(rows: u8, columns: u8) -> (n: usize)
    ensures
        n == rows * columns,
{
    proof {
        assert(rows * columns <= 255 * 255) by (nonlinear_arith)
            requires
                rows <= 255 && columns <= 255,
        ;
    }
    (rows as usize) * (columns as usize)
}

} // verus!
