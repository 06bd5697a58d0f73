//! Serial-monitor communication library for the MEGA65 family of retro
//! computers.
//!
//! The crate models the device's ASCII monitor protocol: chunked memory
//! dumps and writes bracketed by CPU halt/resume commands, synthetic
//! keystroke injection through the keyboard matrix, operating-mode probing
//! and switching, and classification of program load addresses.

pub mod device;
pub mod filehost;
pub mod hexcode;
pub mod io;
pub mod keyboard;
pub mod protocol;
pub mod serial;
pub mod transport;
pub mod ui;

use vstd::prelude::*;

verus! {

/// Errors reported by the protocol engine.
///
/// `Transport` covers I/O failures of the underlying byte stream,
/// `Protocol` covers malformed or short monitor responses, and the
/// remaining variants are validation failures raised before any byte
/// is sent to the device.
#[derive(Clone, Copy, Debug, PartialEq, Eq, Structural)]
pub enum M65Error {
    /// The byte-stream transport failed or timed out.
    Transport,
    /// A monitor response was malformed: short frame or invalid hexadecimal.
    Protocol,
    /// A memory write was requested with an empty payload.
    EmptyPayload,
    /// A memory write would run past the 16-bit address space.
    AddressOverflow,
    /// A program's load address matches no supported operating mode.
    UnsupportedLoadAddress,
    /// A file name does not carry a recognized program or disk-image extension,
    /// or a program image is too short to hold a load address.
    InvalidFormat,
    /// A directory index points past the end of a disk-image listing.
    InvalidSelection,
}

impl M65Error {
    /// Short description, usable by callers that print errors.
    pub fn describe(&self) -> &'static str {
        match self {
            M65Error::Transport => "transport error",
            M65Error::Protocol => "protocol error",
            M65Error::EmptyPayload => "empty payload",
            M65Error::AddressOverflow => "write outside the 16-bit address space",
            M65Error::UnsupportedLoadAddress => "unsupported load address",
            M65Error::InvalidFormat => "invalid file format",
            M65Error::InvalidSelection => "invalid selection",
        }
    }
}

/// Load address for Commodore program files.
///
/// The named variants are the canonical entry points of the supported
/// platforms; every other 16-bit value is carried verbatim in `Custom`.
#[derive(Clone, Copy, Debug, PartialEq, Eq, Structural)]
pub enum LoadAddress {
    PET,
    /// Shared by the Commodore 64 and the Commander X16.
    Commodore64,
    /// Shared by the Commodore 16, VIC-20 and Plus/4.
    Commodore16,
    Commodore128,
    /// Shared by the Commodore 65 and the MEGA65.
    Commodore65,
    Custom(u16),
}

/// Classification of a 16-bit load address into a `LoadAddress`.
pub open spec fn spec_load_address(address: u16) -> LoadAddress {
    if address == 0x0401 {
        LoadAddress::PET
    } else if address == 0x0801 {
        LoadAddress::Commodore64
    } else if address == 0x1001 {
        LoadAddress::Commodore16
    } else if address == 0x1c01 {
        LoadAddress::Commodore128
    } else if address == 0x2001 {
        LoadAddress::Commodore65
    } else {
        LoadAddress::Custom(address)
    }
}

/// The 16-bit load address a given file starts with, read little endian
/// from its first two bytes.
pub open spec fn spec_le16(bytes: Seq<u8>) -> u16
    recommends
        bytes.len() >= 2,
{
    (bytes[0] + bytes[1] * 0x100) as u16
}

impl LoadAddress {
    /// The 16-bit value this load address stands for.
    pub open spec fn value_spec(&self) -> u16 {
        match *self {
            LoadAddress::PET => 0x0401,
            LoadAddress::Commodore64 => 0x0801,
            LoadAddress::Commodore16 => 0x1001,
            LoadAddress::Commodore128 => 0x1c01,
            LoadAddress::Commodore65 => 0x2001,
            LoadAddress::Custom(address) => address,
        }
    }

    /// Construct a `LoadAddress` from its 16-bit value.
    pub fn new(address: u16) -> (r: LoadAddress)
        ensures
            r == spec_load_address(address),
    {
        match address {
            0x0401 => LoadAddress::PET,
            0x0801 => LoadAddress::Commodore64,
            0x1001 => LoadAddress::Commodore16,
            0x1c01 => LoadAddress::Commodore128,
            0x2001 => LoadAddress::Commodore65,
            _ => LoadAddress::Custom(address),
        }
    }

    /// Extract the load address from the first two bytes of a program
    /// image, little endian.
    pub fn from_bytes(bytes: &[u8]) -> (r: Result<LoadAddress, M65Error>)
        ensures
            bytes@.len() >= 2 ==> r == Ok::<LoadAddress, M65Error>(
                spec_load_address(spec_le16(bytes@)),
            ),
            bytes@.len() < 2 ==> r == Err::<LoadAddress, M65Error>(M65Error::InvalidFormat),
    {
        if bytes.len() < 2 {
            return Err(M65Error::InvalidFormat);
        }
        let low = bytes[0];
        let high = bytes[1];
        let address: u16 = low as u16 + high as u16 * 0x100;
        Ok(LoadAddress::new(address))
    }

    /// The 16-bit load address.
    pub fn value(&self) -> (r: u16)
        ensures
            r == self.value_spec(),
    {
        match *self {
            LoadAddress::PET => 0x0401,
            LoadAddress::Commodore64 => 0x0801,
            LoadAddress::Commodore16 => 0x1001,
            LoadAddress::Commodore128 => 0x1c01,
            LoadAddress::Commodore65 => 0x2001,
            LoadAddress::Custom(address) => address,
        }
    }
}

/// Classifying any 16-bit value and reading the classification back
/// returns the original value.
pub proof fn lemma_load_address_round_trip(address: u16)
    ensures
        spec_load_address(address).value_spec() == address,
{
}

} // verus!
