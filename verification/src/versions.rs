//! Protocol versions spoken by the builder, and the node types its tests use.
use vstd::prelude::*;

verus! {

/// Major version of the protocol.
pub const VERSION_MAJ: u16 = 0;

/// Minor version of the protocol.
pub const VERSION_MIN: u16 = 1;

/// Version 0.1 of the protocol, used as the base, upgrade, marketplace and
/// epoch version alike.
#[derive(Debug, Clone, Copy)]
pub struct Version01;

impl Version01 {
    /// The base version, as major and minor numbers.
    pub fn base() -> (r: (u16, u16))
        ensures
            r == (VERSION_MAJ, VERSION_MIN),
    {
        (VERSION_MAJ, VERSION_MIN)
    }

    /// The version upgraded to, as major and minor numbers: the same as the base.
    pub fn upgrade() -> (r: (u16, u16))
        ensures
            r == (VERSION_MAJ, VERSION_MIN),
    {
        (VERSION_MAJ, VERSION_MIN)
    }

    /// The hash identifying an upgrade: all zero, as no upgrade is proposed.
    pub fn upgrade_hash() -> (r: [u8; 32])
        ensures
            forall|i: int| 0 <= i < 32 ==> r@[i] == 0u8,
    {
        [0u8; 32]
    }
}

/// The node types the builder's tests run with.
#[derive(Debug, Clone, Copy)]
pub struct TestTypes;

} // verus!
