//! Network addresses as the library models them: a v4 address is four
//! octets, a v6 address is its 128-bit value.  The code that talks to the
//! operating system converts between these and its own socket address
//! types at the boundary.

use vstd::prelude::*;

verus! {

/// An IP address held as plain values.
#[derive(Clone, Copy, PartialEq, Eq, Structural, Debug)]
pub enum IpAddress {
    V4(u8, u8, u8, u8),
    V6(u128),
}

impl IpAddress {
    /// The all-zero v4 address, used as the source of synthetic timeout
    /// responses that no router ever sent.
    pub fn unspecified() -> (r: IpAddress)
        ensures
            r == IpAddress::V4(0u8, 0u8, 0u8, 0u8),
    {
        IpAddress::V4(0, 0, 0, 0)
    }
}

} // verus!
