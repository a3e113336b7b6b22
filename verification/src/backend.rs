//! Values that a VISA backend hands the library, mapped to the library's own.
use crate::address::InterfaceKind;
use crate::timing::{duration_as_millis, duration_millis};
use std::time::Duration;
use vstd::prelude::*;

verus! {

/// A VISA timeout attribute: the whole milliseconds of `timeout`, held at the largest
/// 32-bit value.
pub fn visa_timeout_ms(timeout: Duration) -> (r: u32)
    ensures
        r == if duration_millis(timeout) > u32::MAX as u128 {
            u32::MAX as u128
        } else {
            duration_millis(timeout)
        },
{
    let millis = duration_as_millis(timeout);
    if millis > u32::MAX as u128 {
        u32::MAX
    } else {
        millis as u32
    }
}

/// The interface kind of a VISA interface type code (`VI_INTF_*`): GPIB 1, VXI 2 and
/// GPIB-VXI 3, serial 4, PXI 5, TCP/IP 6, USB 7; any other code is unknown.
pub fn interface_from_visa(code: u16) -> (r: InterfaceKind)
    ensures
        r == match code {
            1 => InterfaceKind::Gpib,
            2 | 3 => InterfaceKind::Vxi,
            4 => InterfaceKind::Serial,
            5 => InterfaceKind::Pxi,
            6 => InterfaceKind::Tcpip,
            7 => InterfaceKind::Usb,
            _ => InterfaceKind::Unknown,
        },
{
    match code {
        1 => InterfaceKind::Gpib,
        2 | 3 => InterfaceKind::Vxi,
        4 => InterfaceKind::Serial,
        5 => InterfaceKind::Pxi,
        6 => InterfaceKind::Tcpip,
        7 => InterfaceKind::Usb,
        _ => InterfaceKind::Unknown,
    }
}

} // verus!
