//! Permission flags for mesh certificates.

use vstd::prelude::*;

verus! {

/// Can relay messages for other nodes.
pub const RELAY: u8 = 0b0000_0001;

/// Can trigger emergency alerts.
pub const EMERGENCY: u8 = 0b0000_0010;

/// Can enroll new members (delegation).
pub const ENROLL: u8 = 0b0000_0100;

/// Full administrative privileges.
pub const ADMIN: u8 = 0b1000_0000;

/// Standard member: RELAY and EMERGENCY.
pub const STANDARD: u8 = 0b0000_0011;

/// Authority: all permissions.
pub const AUTHORITY: u8 = 0b1000_0111;

/// The composite flags are the unions that their names promise, and the single
/// flags do not overlap.
pub proof fn law_permission_bits()
    ensures
        STANDARD == RELAY | EMERGENCY,
        AUTHORITY == RELAY | EMERGENCY | ENROLL | ADMIN,
        RELAY & EMERGENCY == 0,
        RELAY & ENROLL == 0,
        RELAY & ADMIN == 0,
        EMERGENCY & ENROLL == 0,
        EMERGENCY & ADMIN == 0,
        ENROLL & ADMIN == 0,
{
    assert(0b0000_0011u8 == 0b0000_0001u8 | 0b0000_0010u8 && 0b1000_0111u8 == 0b0000_0001u8
        | 0b0000_0010u8 | 0b0000_0100u8 | 0b1000_0000u8 && 0b0000_0001u8 & 0b0000_0010u8 == 0
        && 0b0000_0001u8 & 0b0000_0100u8 == 0 && 0b0000_0001u8 & 0b1000_0000u8 == 0
        && 0b0000_0010u8 & 0b0000_0100u8 == 0 && 0b0000_0010u8 & 0b1000_0000u8 == 0
        && 0b0000_0100u8 & 0b1000_0000u8 == 0) by (bit_vector);
}

} // verus!
