//! Where a tab is pointed at for content that is handed over as bytes.
//!
//! Inline content is served once from a listener on this machine, on a port
//! that the system picks; the tab is then sent to the address of that
//! listener.

use vstd::prelude::*;
use vstd::string::StringExecFns;
use crate::text::{append_decimal, decimal};

verus! {

/// The address of a listener on this machine at `port`: `http://127.0.0.1:`
/// and the port in decimal digits.
pub open spec fn local_address_of(port: u16) -> Seq<char> {
    "http://127.0.0.1:"@ + decimal(port as nat)
}

/// Writes the address at which a tab finds the listener on `port`.
pub fn local_address(port: u16) -> (address: String)
    ensures
        address@ == local_address_of(port),
{
    let mut address = String::from_str("http://127.0.0.1:");
    append_decimal(&mut address, port as usize);
    address
}

} // verus!
