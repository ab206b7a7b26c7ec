//! The closed bijection between geographic regions and protocol bytes.

use vstd::prelude::*;

use crate::error::ProtocolError;

verus! {

/// Region restricting which servers a query searches for.
///
/// Each region maps to exactly one protocol byte: the eight geographic
/// regions to `0x00`–`0x07`, and the "everyone" wildcard to `0xFF`.
#[derive(Debug, PartialEq, Eq, Structural, Clone, Copy)]
pub enum Region {
    USEast,
    USWest,
    SouthAmerica,
    Europe,
    Asia,
    Australia,
    MiddleEast,
    Africa,
    All,
}

/// The protocol byte of a region.
pub open spec fn region_code(r: Region) -> u8 {
    match r {
        Region::USEast => 0x00,
        Region::USWest => 0x01,
        Region::SouthAmerica => 0x02,
        Region::Europe => 0x03,
        Region::Asia => 0x04,
        Region::Australia => 0x05,
        Region::MiddleEast => 0x06,
        Region::Africa => 0x07,
        Region::All => 0xFF,
    }
}

/// The region a protocol byte stands for, or `None` for an unrecognized byte.
pub open spec fn region_of(code: u8) -> Option<Region> {
    if code == 0x00 {
        Some(Region::USEast)
    } else if code == 0x01 {
        Some(Region::USWest)
    } else if code == 0x02 {
        Some(Region::SouthAmerica)
    } else if code == 0x03 {
        Some(Region::Europe)
    } else if code == 0x04 {
        Some(Region::Asia)
    } else if code == 0x05 {
        Some(Region::Australia)
    } else if code == 0x06 {
        Some(Region::MiddleEast)
    } else if code == 0x07 {
        Some(Region::Africa)
    } else if code == 0xFF {
        Some(Region::All)
    } else {
        None
    }
}

impl Region {
    /// Return the raw protocol byte of this region.
    pub fn as_u8(&self) -> (r: u8)
        ensures
            r == region_code(*self),
    {
        match self {
            Self::USEast => 0x00,
            Self::USWest => 0x01,
            Self::SouthAmerica => 0x02,
            Self::Europe => 0x03,
            Self::Asia => 0x04,
            Self::Australia => 0x05,
            Self::MiddleEast => 0x06,
            Self::Africa => 0x07,
            Self::All => 0xFF,
        }
    }

    /// Decode a protocol byte back into a region; any byte outside the nine
    /// recognized codes is rejected with `InvalidCode`.
    pub fn from_u8(code: u8) -> (r: Result<Self, ProtocolError>)
        ensures
            r is Ok <==> region_of(code) is Some,
            r matches Ok(reg) ==> region_of(code) == Some(reg),
            r matches Err(e) ==> e == ProtocolError::InvalidCode,
    {
        match code {
            0x00 => Ok(Self::USEast),
            0x01 => Ok(Self::USWest),
            0x02 => Ok(Self::SouthAmerica),
            0x03 => Ok(Self::Europe),
            0x04 => Ok(Self::Asia),
            0x05 => Ok(Self::Australia),
            0x06 => Ok(Self::MiddleEast),
            0x07 => Ok(Self::Africa),
            0xFF => Ok(Self::All),
            _ => Err(ProtocolError::InvalidCode),
        }
    }
}

/// The region/byte mapping is a bijection: encoding then decoding gives the
/// region back, and decoding then encoding gives the byte back, for every
/// recognized byte.
pub proof fn lemma_region_bijection()
    ensures
        forall|r: Region| region_of(region_code(r)) == Some(r),
        forall|code: u8| #[trigger] region_of(code) matches Some(r) ==> region_code(r) == code,
{
}

} // verus!
