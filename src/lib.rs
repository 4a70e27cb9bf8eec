use vstd::prelude::*;

/// The stored form of the device and miner registries.
pub mod codec;
/// Instruction decoding and dispatch over the accounts of one call.
pub mod processor;
/// Devices, miners and the operations on their registries.
pub mod state;
/// Fields of an instruction payload.
pub mod wire;

verus! {

/// Why an instruction was refused.
#[derive(Clone, Copy, Debug, PartialEq, Eq, Structural)]
pub enum RegistryError {
    /// The instruction payload is empty, truncated or holds invalid text.
    Decode,
    /// Too few accounts were supplied, or an account buffer could not be read or written.
    Account,
    /// The administrator account is not owned by this program.
    Permission,
    /// A device with the same hardware address is already registered.
    Conflict,
    /// The device to mine from is missing or has no tokens left.
    NotFound,
    /// The opcode is not one of the recognised ones.
    InvalidInstruction,
}

} // verus!
