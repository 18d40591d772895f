use crate::address::AddressKey;
use vstd::prelude::*;

verus! {

/// Block at which the Tornado Cash pools are seeded.
pub const INI_BLOCK_NUMBER_TC: u64 = 15302392;

/// Block at which the Bybit exploiter accounts are seeded.
pub const INI_BLOCK_NUMBER_BYBIT: u64 = 21895251;

/// Last block processed.
pub const END_BLOCK_NUMBER: u64 = 22097863;

/// The Tornado Cash ETH pools (100, 10, 1 and 0.1 ETH).
pub fn tc_eth_addresses() -> (r: Vec<AddressKey>)
    ensures
        r@.len() == 4,
{
    let mut v: Vec<AddressKey> = Vec::new();
    v.push(AddressKey::new([0xA1, 0x60, 0xcd, 0xAB, 0x22, 0x56, 0x85, 0xdA, 0x1d, 0x56, 0xaa, 0x34, 0x2A, 0xd8, 0x84, 0x1c, 0x3b, 0x53, 0xf2, 0x91]));
    v.push(AddressKey::new([0x91, 0x0C, 0xbd, 0x52, 0x3D, 0x97, 0x2e, 0xb0, 0xa6, 0xf4, 0xcA, 0xe4, 0x61, 0x8a, 0xD6, 0x26, 0x22, 0xb3, 0x9D, 0xbF]));
    v.push(AddressKey::new([0x47, 0xCE, 0x0C, 0x6e, 0xD5, 0xB0, 0xCe, 0x3d, 0x3A, 0x51, 0xfd, 0xb1, 0xC5, 0x2D, 0xC6, 0x6a, 0x7c, 0x3c, 0x29, 0x36]));
    v.push(AddressKey::new([0x12, 0xD6, 0x6f, 0x87, 0xA0, 0x4A, 0x9E, 0x22, 0x07, 0x43, 0x71, 0x2c, 0xE6, 0xd9, 0xbB, 0x1B, 0x56, 0x16, 0xB8, 0xFc]));
    v
}

/// The Bybit exploiter accounts.
pub fn bybit_exploiter_addresses() -> (r: Vec<AddressKey>)
    ensures
        r@.len() == 2,
{
    let mut v: Vec<AddressKey> = Vec::new();
    v.push(AddressKey::new([0x47, 0x66, 0x6F, 0xab, 0x8b, 0xd0, 0xAc, 0x70, 0x03, 0xbc, 0xe3, 0xf5, 0xC3, 0x58, 0x53, 0x83, 0xF0, 0x94, 0x86, 0xE2]));
    v.push(AddressKey::new([0xA4, 0xB2, 0xFd, 0x68, 0x59, 0x3B, 0x6F, 0x34, 0xE5, 0x1c, 0xB9, 0xeD, 0xB6, 0x6E, 0x71, 0xc1, 0xB4, 0xAb, 0x44, 0x9e]));
    v
}

} // verus!
