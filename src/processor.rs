use vstd::prelude::*;
use vstd::utf8::encode_utf8;
use crate::RegistryError;
use crate::wire::{text_field, u64_field, read_string, read_u64, slice_range};
use crate::state::{
    DeviceInfo, DeviceModel, DeviceRegistryModel, MinerRegistryModel, Pubkey, holds_mac, next_count,
    after_credit_devices, can_mine, after_mine_devices, after_ensure, after_credit, mine_from,
};
use crate::codec::{
    parse_device_registry, parse_miner_registry, device_registry_bytes, miner_registry_bytes,
    decode_device_registry, decode_miner_registry, encode_device_registry, encode_miner_registry,
    put_bytes, device_ok,
};

verus! {

/// What an instruction asks for, as values.
pub ghost enum InstructionModel {
    Register {
        mac_addr: Seq<char>,
        initial_tokens: u64,
        reg_time: u64,
        merchant: Seq<char>,
        longitude: Seq<char>,
        latitude: Seq<char>,
    },
    Credit { mac_addr: Seq<char>, amount: u64 },
    Mine { mac_addr: Seq<char> },
    Withdraw,
    Other,
}

/// A decoded instruction.
#[derive(Debug)]
pub enum Instruction {
    /// Opcode 0: add a device to the registry.
    Register {
        mac_addr: String,
        initial_tokens: u64,
        reg_time: u64,
        merchant: String,
        longitude: String,
        latitude: String,
    },
    /// Opcode 1: add tokens to a device.
    Credit { mac_addr: String, amount: u64 },
    /// Opcode 2: move one token from a device to the calling miner.
    Mine { mac_addr: String },
    /// Opcode 3: reserved; accepted with no effect.
    Withdraw,
    /// Opcode 4: reserved; accepted with no effect.
    Other,
}

impl View for Instruction {
    type V = InstructionModel;

    open spec fn view(&self) -> InstructionModel {
        match self {
            Instruction::Register {
                mac_addr,
                initial_tokens,
                reg_time,
                merchant,
                longitude,
                latitude,
            } => InstructionModel::Register {
                mac_addr: mac_addr@,
                initial_tokens: *initial_tokens,
                reg_time: *reg_time,
                merchant: merchant@,
                longitude: longitude@,
                latitude: latitude@,
            },
            Instruction::Credit { mac_addr, amount } => InstructionModel::Credit {
                mac_addr: mac_addr@,
                amount: *amount,
            },
            Instruction::Mine { mac_addr } => InstructionModel::Mine { mac_addr: mac_addr@ },
            Instruction::Withdraw => InstructionModel::Withdraw,
            Instruction::Other => InstructionModel::Other,
        }
    }
}

/// The instruction that `b` encodes: an opcode byte, then that opcode's fields
/// in order. Bytes after the last field are ignored.
pub open spec fn parse_instruction(b: Seq<u8>) -> Result<InstructionModel, RegistryError> {
    if b.len() == 0 {
        Err(RegistryError::Decode)
    } else {
        let rest = b.subrange(1, b.len() as int);
        if b[0] == 0 {
            match text_field(rest) {
                None => Err(RegistryError::Decode),
                Some((mac, r1)) => match u64_field(r1) {
                    None => Err(RegistryError::Decode),
                    Some((tokens, r2)) => match u64_field(r2) {
                        None => Err(RegistryError::Decode),
                        Some((time, r3)) => match text_field(r3) {
                            None => Err(RegistryError::Decode),
                            Some((merchant, r4)) => match text_field(r4) {
                                None => Err(RegistryError::Decode),
                                Some((lon, r5)) => match text_field(r5) {
                                    None => Err(RegistryError::Decode),
                                    Some((lat, _)) => Ok(
                                        InstructionModel::Register {
                                            mac_addr: mac,
                                            initial_tokens: tokens,
                                            reg_time: time,
                                            merchant,
                                            longitude: lon,
                                            latitude: lat,
                                        },
                                    ),
                                },
                            },
                        },
                    },
                },
            }
        } else if b[0] == 1 {
            match text_field(rest) {
                None => Err(RegistryError::Decode),
                Some((mac, r1)) => match u64_field(r1) {
                    None => Err(RegistryError::Decode),
                    Some((amount, _)) => Ok(InstructionModel::Credit { mac_addr: mac, amount }),
                },
            }
        } else if b[0] == 2 {
            match text_field(rest) {
                None => Err(RegistryError::Decode),
                Some((mac, _)) => Ok(InstructionModel::Mine { mac_addr: mac }),
            }
        } else if b[0] == 3 {
            Ok(InstructionModel::Withdraw)
        } else if b[0] == 4 {
            Ok(InstructionModel::Other)
        } else {
            Err(RegistryError::InvalidInstruction)
        }
    }
}

/// Every text of the instruction is under 256 bytes of UTF-8.
pub open spec fn short_texts(i: InstructionModel) -> bool {
    match i {
        InstructionModel::Register { mac_addr, merchant, longitude, latitude, .. } => {
            &&& encode_utf8(mac_addr).len() < 256
            &&& encode_utf8(merchant).len() < 256
            &&& encode_utf8(longitude).len() < 256
            &&& encode_utf8(latitude).len() < 256
        },
        InstructionModel::Credit { mac_addr, .. } => encode_utf8(mac_addr).len() < 256,
        InstructionModel::Mine { mac_addr } => encode_utf8(mac_addr).len() < 256,
        _ => true,
    }
}

impl Instruction {
    /// Decodes an instruction payload.
    pub fn unpack(data: &[u8]) -> (r: Result<Instruction, RegistryError>)
        ensures
            match parse_instruction(data@) {
                Ok(m) => r matches Ok(i) && i@ == m,
                Err(e) => r == Err::<Instruction, RegistryError>(e),
            },
            r matches Ok(i) ==> short_texts(i@),
    {
        if data.len() == 0 {
            return Err(RegistryError::Decode);
        }
        let op = data[0];
        let rest = slice_range(data, 1, data.len());
        if op == 0 {
            let (mac_addr, rest) = match read_string(rest) {
                Ok(x) => x,
                Err(e) => return Err(e),
            };
            let (initial_tokens, rest) = match read_u64(rest) {
                Ok(x) => x,
                Err(e) => return Err(e),
            };
            let (reg_time, rest) = match read_u64(rest) {
                Ok(x) => x,
                Err(e) => return Err(e),
            };
            let (merchant, rest) = match read_string(rest) {
                Ok(x) => x,
                Err(e) => return Err(e),
            };
            let (longitude, rest) = match read_string(rest) {
                Ok(x) => x,
                Err(e) => return Err(e),
            };
            let (latitude, _) = match read_string(rest) {
                Ok(x) => x,
                Err(e) => return Err(e),
            };
            Ok(Instruction::Register { mac_addr, initial_tokens, reg_time, merchant, longitude, latitude })
        } else if op == 1 {
            let (mac_addr, rest) = match read_string(rest) {
                Ok(x) => x,
                Err(e) => return Err(e),
            };
            let (amount, _) = match read_u64(rest) {
                Ok(x) => x,
                Err(e) => return Err(e),
            };
            Ok(Instruction::Credit { mac_addr, amount })
        } else if op == 2 {
            let (mac_addr, _) = match read_string(rest) {
                Ok(x) => x,
                Err(e) => return Err(e),
            };
            Ok(Instruction::Mine { mac_addr })
        } else if op == 3 {
            Ok(Instruction::Withdraw)
        } else if op == 4 {
            Ok(Instruction::Other)
        } else {
            Err(RegistryError::InvalidInstruction)
        }
    }
}

/// An account handed to an instruction, as values.
pub ghost struct AccountModel {
    pub key: Seq<u8>,
    pub owner: Seq<u8>,
    pub data: Seq<u8>,
}

/// An account handed to an instruction: its identity, the program that owns
/// it, and its data buffer, whose length is fixed.
#[derive(Debug)]
pub struct AccountInput {
    pub key: Pubkey,
    pub owner: Pubkey,
    pub data: Vec<u8>,
}

impl View for AccountInput {
    type V = AccountModel;

    open spec fn view(&self) -> AccountModel {
        AccountModel { key: self.key@, owner: self.owner@, data: self.data@ }
    }
}

pub open spec fn accounts_view(accounts: Seq<AccountInput>) -> Seq<AccountModel> {
    accounts.map_values(|a: AccountInput| a@)
}

/// The account with `enc` written over the front of its buffer; the rest of
/// the buffer is kept.
pub open spec fn with_data(a: AccountModel, enc: Seq<u8>) -> AccountModel {
    AccountModel { data: enc + a.data.subrange(enc.len() as int, a.data.len() as int), ..a }
}

/// Registering a device. Accounts: administrator, device registry, device owner.
pub open spec fn register_outcome(
    program_id: Seq<u8>,
    accts: Seq<AccountModel>,
    d: DeviceModel,
) -> Result<Seq<AccountModel>, RegistryError> {
    if accts.len() < 3 {
        Err(RegistryError::Account)
    } else if accts[0].owner != program_id {
        Err(RegistryError::Permission)
    } else {
        match parse_device_registry(accts[1].data) {
            None => Err(RegistryError::Account),
            Some((reg, _)) => {
                let d = DeviceModel { owner: accts[2].key, ..d };
                if holds_mac(reg.devices, d.mac_addr) {
                    Err(RegistryError::Conflict)
                } else {
                    let new = DeviceRegistryModel {
                        counter: next_count(reg.counter),
                        devices: reg.devices.push(d),
                    };
                    if reg.devices.len() >= u32::MAX || device_registry_bytes(new).len()
                        > accts[1].data.len() {
                        Err(RegistryError::Account)
                    } else {
                        Ok(accts.update(1, with_data(accts[1], device_registry_bytes(new))))
                    }
                }
            },
        }
    }
}

/// Crediting a device. Accounts: administrator, device registry.
pub open spec fn credit_outcome(accts: Seq<AccountModel>, mac: Seq<char>, amount: u64) -> Result<
    Seq<AccountModel>,
    RegistryError,
> {
    if accts.len() < 2 {
        Err(RegistryError::Account)
    } else {
        match parse_device_registry(accts[1].data) {
            None => Err(RegistryError::Account),
            Some((reg, _)) => {
                if !holds_mac(reg.devices, mac) {
                    Ok(accts)
                } else {
                    let new = DeviceRegistryModel {
                        counter: reg.counter,
                        devices: after_credit_devices(reg.devices, mac, amount),
                    };
                    if device_registry_bytes(new).len() > accts[1].data.len() {
                        Err(RegistryError::Account)
                    } else {
                        Ok(accts.update(1, with_data(accts[1], device_registry_bytes(new))))
                    }
                }
            },
        }
    }
}

/// Mining one token. Accounts: miner, miner registry, device registry.
pub open spec fn mine_outcome(accts: Seq<AccountModel>, mac: Seq<char>) -> Result<
    Seq<AccountModel>,
    RegistryError,
> {
    if accts.len() < 3 {
        Err(RegistryError::Account)
    } else {
        match parse_miner_registry(accts[1].data) {
            None => Err(RegistryError::Account),
            Some((mreg, _)) => match parse_device_registry(accts[2].data) {
                None => Err(RegistryError::Account),
                Some((dreg, _)) => {
                    if !can_mine(dreg.devices, mac) {
                        Err(RegistryError::NotFound)
                    } else {
                        let k = accts[0].key;
                        let new_m = MinerRegistryModel {
                            counter: mreg.counter,
                            miners: after_credit(after_ensure(mreg.miners, k), k, 1),
                        };
                        let new_d = DeviceRegistryModel {
                            counter: dreg.counter,
                            devices: after_mine_devices(dreg.devices, mac),
                        };
                        if new_m.miners.len() > u32::MAX || miner_registry_bytes(new_m).len()
                            > accts[1].data.len() || device_registry_bytes(new_d).len()
                            > accts[2].data.len() {
                            Err(RegistryError::Account)
                        } else {
                            Ok(
                                accts.update(1, with_data(accts[1], miner_registry_bytes(new_m))).update(
                                    2,
                                    with_data(accts[2], device_registry_bytes(new_d)),
                                ),
                            )
                        }
                    }
                },
            },
        }
    }
}

/// The accounts after an instruction, or why it was refused.
pub open spec fn instruction_outcome(
    program_id: Seq<u8>,
    accts: Seq<AccountModel>,
    data: Seq<u8>,
) -> Result<Seq<AccountModel>, RegistryError> {
    match parse_instruction(data) {
        Err(e) => Err(e),
        Ok(InstructionModel::Register {
            mac_addr,
            initial_tokens,
            reg_time,
            merchant,
            longitude,
            latitude,
        }) => register_outcome(
            program_id,
            accts,
            DeviceModel {
                mac_addr,
                owner: Seq::empty(),
                token_balance: initial_tokens,
                reg_time,
                merchant,
                longitude,
                latitude,
            },
        ),
        Ok(InstructionModel::Credit { mac_addr, amount }) => credit_outcome(accts, mac_addr, amount),
        Ok(InstructionModel::Mine { mac_addr }) => mine_outcome(accts, mac_addr),
        Ok(InstructionModel::Withdraw) => Ok(accts),
        Ok(InstructionModel::Other) => Ok(accts),
    }
}

/// Writes `enc` over the front of the buffer of account `idx`.
fn write_back(accounts: &mut Vec<AccountInput>, idx: usize, enc: &Vec<u8>)
    requires
        idx < old(accounts)@.len(),
        enc@.len() <= old(accounts)@[idx as int].data@.len(),
    ensures
        final(accounts)@.len() == old(accounts)@.len(),
        forall|j: int|
            0 <= j < old(accounts)@.len() && j != idx ==> (#[trigger] final(accounts)@[j]).data@
                == old(accounts)@[j].data@,
        accounts_view(final(accounts)@) == accounts_view(old(accounts)@).update(
            idx as int,
            with_data(accounts_view(old(accounts)@)[idx as int], enc@),
        ),
{
    let mut data: Vec<u8> = Vec::new();
    put_bytes(&mut data, enc.as_slice());
    let old_len = accounts[idx].data.len();
    put_bytes(&mut data, slice_range(accounts[idx].data.as_slice(), enc.len(), old_len));
    accounts[idx].data = data;
    assert(accounts_view(accounts@) =~= accounts_view(old(accounts)@).update(
        idx as int,
        with_data(accounts_view(old(accounts)@)[idx as int], enc@),
    ));
}

fn register(
    program_id: &Pubkey,
    accounts: &mut Vec<AccountInput>,
    mac_addr: String,
    initial_tokens: u64,
    reg_time: u64,
    merchant: String,
    longitude: String,
    latitude: String,
) -> (r: Result<(), RegistryError>)
    requires
        encode_utf8(mac_addr@).len() < 256,
        encode_utf8(merchant@).len() < 256,
        encode_utf8(longitude@).len() < 256,
        encode_utf8(latitude@).len() < 256,
    ensures
        match register_outcome(
            program_id@,
            accounts_view(old(accounts)@),
            DeviceModel {
                mac_addr: mac_addr@,
                owner: Seq::empty(),
                token_balance: initial_tokens,
                reg_time,
                merchant: merchant@,
                longitude: longitude@,
                latitude: latitude@,
            },
        ) {
            Ok(new) => r is Ok && accounts_view(final(accounts)@) == new,
            Err(e) => r == Err::<(), RegistryError>(e) && final(accounts)@ == old(accounts)@,
        },
{
    if accounts.len() < 3 {
        return Err(RegistryError::Account);
    }
    if !accounts[0].owner.same_as(program_id) {
        return Err(RegistryError::Permission);
    }
    let (mut reg, _) = match decode_device_registry(accounts[1].data.as_slice()) {
        Some(x) => x,
        None => return Err(RegistryError::Account),
    };
    let device = DeviceInfo {
        mac_addr,
        owner: accounts[2].key,
        token_balance: initial_tokens,
        reg_time,
        merchant,
        longitude,
        latitude,
    };
    if reg.device_list.len() >= u32::MAX as usize {
        // A full list cannot take another device, but a duplicate is still reported as such.
        if reg.register(device).is_err() {
            return Err(RegistryError::Conflict);
        }
        return Err(RegistryError::Account);
    }
    let ghost before = reg@;
    if reg.register(device).is_err() {
        return Err(RegistryError::Conflict);
    }
    proof {
        assert(reg@.devices == before.devices.push(device@));
        assert forall|i: int| 0 <= i < reg@.devices.len() implies device_ok(
            #[trigger] reg@.devices[i],
        ) by {
            if i < before.devices.len() {
                assert(reg@.devices[i] == before.devices[i]);
            }
        }
    }
    let enc = encode_device_registry(&reg);
    if enc.len() > accounts[1].data.len() {
        return Err(RegistryError::Account);
    }
    write_back(accounts, 1, &enc);
    Ok(())
}

fn credit(accounts: &mut Vec<AccountInput>, mac_addr: String, amount: u64) -> (r: Result<(), RegistryError>)
    ensures
        match credit_outcome(accounts_view(old(accounts)@), mac_addr@, amount) {
            Ok(new) => r is Ok && accounts_view(final(accounts)@) == new,
            Err(e) => r == Err::<(), RegistryError>(e) && final(accounts)@ == old(accounts)@,
        },
{
    if accounts.len() < 2 {
        return Err(RegistryError::Account);
    }
    let (mut reg, _) = match decode_device_registry(accounts[1].data.as_slice()) {
        Some(x) => x,
        None => return Err(RegistryError::Account),
    };
    if reg.find(&mac_addr).is_none() {
        return Ok(());
    }
    let ghost before = reg@;
    reg.credit(&mac_addr, amount);
    proof {
        assert forall|j: int| 0 <= j < reg@.devices.len() implies device_ok(
            #[trigger] reg@.devices[j],
        ) by {
            assert(device_ok(before.devices[j]));
        }
    }
    let enc = encode_device_registry(&reg);
    if enc.len() > accounts[1].data.len() {
        return Err(RegistryError::Account);
    }
    write_back(accounts, 1, &enc);
    Ok(())
}

#[verifier::rlimit(100)]
fn mine(accounts: &mut Vec<AccountInput>, mac_addr: String) -> (r: Result<(), RegistryError>)
    ensures
        match mine_outcome(accounts_view(old(accounts)@), mac_addr@) {
            Ok(new) => r is Ok && accounts_view(final(accounts)@) == new,
            Err(e) => r == Err::<(), RegistryError>(e) && final(accounts)@ == old(accounts)@,
        },
{
    if accounts.len() < 3 {
        return Err(RegistryError::Account);
    }
    let (mut miners, _) = match decode_miner_registry(accounts[1].data.as_slice()) {
        Some(x) => x,
        None => return Err(RegistryError::Account),
    };
    let (mut devices, _) = match decode_device_registry(accounts[2].data.as_slice()) {
        Some(x) => x,
        None => return Err(RegistryError::Account),
    };
    let miner = accounts[0].key;
    let ghost dbefore = devices@;
    match mine_from(&mut devices, &mut miners, &mac_addr, miner) {
        Ok(()) => {},
        Err(e) => return Err(e),
    }
    if miners.miner_dic.len() > u32::MAX as usize {
        return Err(RegistryError::Account);
    }
    proof {
        assert forall|j: int| 0 <= j < devices@.devices.len() implies device_ok(
            #[trigger] devices@.devices[j],
        ) by {
            assert(device_ok(dbefore.devices[j]));
        }
        let mv = miners@.miners;
        assert forall|j: int| 0 <= j < mv.len() implies (#[trigger] mv[j]).owner.len() == 32 by {
            assert(miners.miner_dic@[j].owner.bytes@.len() == 32);
        }
    }
    let m_enc = encode_miner_registry(&miners);
    let d_enc = encode_device_registry(&devices);
    if m_enc.len() > accounts[1].data.len() || d_enc.len() > accounts[2].data.len() {
        return Err(RegistryError::Account);
    }
    write_back(accounts, 1, &m_enc);
    write_back(accounts, 2, &d_enc);
    Ok(())
}

/// Runs one instruction against the accounts it was handed. On success the
/// touched registry buffers are rewritten; on any failure no account changes,
/// so a registration refused as a duplicate does not store the counter it
/// counted in memory.
pub fn process_instruction(
    program_id: &Pubkey,
    accounts: &mut Vec<AccountInput>,
    instruction_data: &[u8],
) -> (r: Result<(), RegistryError>)
    ensures
        match instruction_outcome(program_id@, accounts_view(old(accounts)@), instruction_data@) {
            Ok(new) => r is Ok && accounts_view(final(accounts)@) == new,
            Err(e) => r == Err::<(), RegistryError>(e) && final(accounts)@ == old(accounts)@,
        },
{
    let ins = match Instruction::unpack(instruction_data) {
        Ok(i) => i,
        Err(e) => return Err(e),
    };
    match ins {
        Instruction::Register { mac_addr, initial_tokens, reg_time, merchant, longitude, latitude } => {
            register(
                program_id,
                accounts,
                mac_addr,
                initial_tokens,
                reg_time,
                merchant,
                longitude,
                latitude,
            )
        },
        Instruction::Credit { mac_addr, amount } => credit(accounts, mac_addr, amount),
        Instruction::Mine { mac_addr } => mine(accounts, mac_addr),
        Instruction::Withdraw => Ok(()),
        Instruction::Other => Ok(()),
    }
}

} // verus!
