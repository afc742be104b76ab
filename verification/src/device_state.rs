//! phoc's `zphoc_device_state_v1`: the compositor reports no tablet-mode
//! switch, no lid switch and no hardware keyboard, so an on-screen keyboard
//! may stay active; asking for a switch it did not report is an error.

use vstd::prelude::*;

verus! {

/// Version of the global.
pub const DEVICE_STATE_VERSION: u32 = 2;

/// Capability bit: a tablet-mode switch is present.
pub const CAP_TABLET_MODE_SWITCH: u32 = 1;
/// Capability bit: a lid switch is present.
pub const CAP_LID_SWITCH: u32 = 2;
/// Capability bit: a hardware keyboard is present.
pub const CAP_KEYBOARD: u32 = 4;

/// Wire value of the `missing_capability` error.
pub const ERROR_MISSING_CAPABILITY: u32 = 0;

/// Marker so the device-state global and its resources dispatch here.
#[derive(Default)]
pub struct DeviceStateUdata;

/// A request on the device-state object.
#[derive(Clone, Copy, Debug, PartialEq, Eq, Structural)]
pub enum DeviceRequest {
    GetTabletModeSwitch,
    GetLidSwitch,
}

/// The capabilities sent on bind: none.
pub fn advertised_capabilities() -> (c: u32)
    ensures
        c == 0,
{
    0
}

pub open spec fn needed_capability(req: DeviceRequest) -> u32 {
    match req {
        DeviceRequest::GetTabletModeSwitch => CAP_TABLET_MODE_SWITCH,
        DeviceRequest::GetLidSwitch => CAP_LID_SWITCH,
    }
}

/// A switch object is granted only when its capability was reported;
/// otherwise the request is answered with `missing_capability`.
pub open spec fn answer_spec(caps: u32, req: DeviceRequest) -> Result<(), u32> {
    if caps & needed_capability(req) != 0 {
        Ok(())
    } else {
        Err(ERROR_MISSING_CAPABILITY)
    }
}

pub fn answer(caps: u32, req: DeviceRequest) -> (r: Result<(), u32>)
    ensures
        r == answer_spec(caps, req),
{
    let needed = match req {
        DeviceRequest::GetTabletModeSwitch => CAP_TABLET_MODE_SWITCH,
        DeviceRequest::GetLidSwitch => CAP_LID_SWITCH,
    };
    if caps & needed != 0 {
        Ok(())
    } else {
        Err(ERROR_MISSING_CAPABILITY)
    }
}

/// The text of the protocol error for a refused request.
pub fn refusal_message(req: DeviceRequest) -> (m: &'static str)
    ensures
        m@ == match req {
            DeviceRequest::GetTabletModeSwitch => "tablet mode switch not supported"@,
            DeviceRequest::GetLidSwitch => "lid switch not supported"@,
        },
{
    match req {
        DeviceRequest::GetTabletModeSwitch => "tablet mode switch not supported",
        DeviceRequest::GetLidSwitch => "lid switch not supported",
    }
}

/// With the capabilities the compositor reports, every switch request is
/// refused.
pub proof fn lemma_switches_refused(req: DeviceRequest)
    ensures
        answer_spec(0, req) == Err::<(), u32>(ERROR_MISSING_CAPABILITY),
{
    assert(0u32 & 1u32 == 0u32) by (bit_vector);
    assert(0u32 & 2u32 == 0u32) by (bit_vector);
}

} // verus!
