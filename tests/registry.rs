use ketchup_registry::codec::{
    decode_device_registry, decode_miner_registry, encode_device_registry, encode_miner_registry,
    keys_distinct,
};
use ketchup_registry::processor::{process_instruction, AccountInput, Instruction};
use ketchup_registry::state::{mine_from, DeviceInfo, DeviceRegistry, MinerInfo, MinerRegistry, Pubkey};
use ketchup_registry::wire::{read_bool, read_string, read_u64};
use ketchup_registry::RegistryError;

const MAC: &str = "AA:BB:CC:DD:EE:FF";

fn key(b: u8) -> Pubkey {
    Pubkey::new_from_array([b; 32])
}

fn device(mac: &str, balance: u64) -> DeviceInfo {
    DeviceInfo {
        mac_addr: mac.to_string(),
        owner: key(7),
        token_balance: balance,
        reg_time: 1630301040,
        merchant: "Merchant".to_string(),
        longitude: "100.0".to_string(),
        latitude: "50.0".to_string(),
    }
}

fn empty_devices() -> DeviceRegistry {
    DeviceRegistry { counter: 0, device_list: Vec::new() }
}

fn empty_miners() -> MinerRegistry {
    MinerRegistry { counter: 0, miner_dic: Vec::new() }
}

fn text(out: &mut Vec<u8>, s: &str) {
    out.push(s.len() as u8);
    out.extend_from_slice(s.as_bytes());
}

fn register_payload(mac: &str, tokens: u64, time: u64) -> Vec<u8> {
    let mut out = vec![0u8];
    text(&mut out, mac);
    out.extend_from_slice(&tokens.to_le_bytes());
    out.extend_from_slice(&time.to_le_bytes());
    text(&mut out, "Merchant");
    text(&mut out, "100.0");
    text(&mut out, "50.0");
    out
}

fn buffer_with(enc: Vec<u8>, size: usize) -> Vec<u8> {
    let mut data = enc;
    data.resize(size, 0);
    data
}

fn account(k: u8, owner: Pubkey, data: Vec<u8>) -> AccountInput {
    AccountInput { key: key(k), owner, data }
}

#[test]
fn read_string_takes_length_prefixed_text() {
    let bytes = [3u8, b'a', b'b', b'c', 9, 9];
    let (s, rest) = read_string(&bytes).unwrap();
    assert_eq!(s, "abc");
    assert_eq!(rest, &[9u8, 9]);
}

#[test]
fn read_string_refuses_length_past_end() {
    let bytes = [5u8, b'a', b'b'];
    assert_eq!(read_string(&bytes).err(), Some(RegistryError::Decode));
    assert_eq!(read_string(&[]).err(), Some(RegistryError::Decode));
}

#[test]
fn read_string_refuses_invalid_utf8() {
    let bytes = [2u8, 0xff, 0xfe];
    assert_eq!(read_string(&bytes).err(), Some(RegistryError::Decode));
}

#[test]
fn read_u64_is_little_endian() {
    let bytes = [1u8, 2, 0, 0, 0, 0, 0, 0, 42];
    let (v, rest) = read_u64(&bytes).unwrap();
    assert_eq!(v, 0x0201);
    assert_eq!(rest, &[42u8]);
    assert_eq!(read_u64(&bytes[..7]).err(), Some(RegistryError::Decode));
}

#[test]
fn read_bool_accepts_zero_and_one_only() {
    assert_eq!(read_bool(&[0u8, 5]).unwrap(), (false, &[5u8][..]));
    assert_eq!(read_bool(&[1u8]).unwrap().0, true);
    assert_eq!(read_bool(&[2u8]).err(), Some(RegistryError::Decode));
    assert_eq!(read_bool(&[]).err(), Some(RegistryError::Decode));
}

#[test]
fn unpack_reads_register_fields() {
    let payload = register_payload(MAC, 100, 1630301040);
    match Instruction::unpack(&payload).unwrap() {
        Instruction::Register { mac_addr, initial_tokens, reg_time, merchant, longitude, latitude } => {
            assert_eq!(mac_addr, MAC);
            assert_eq!(initial_tokens, 100);
            assert_eq!(reg_time, 1630301040);
            assert_eq!(merchant, "Merchant");
            assert_eq!(longitude, "100.0");
            assert_eq!(latitude, "50.0");
        }
        other => panic!("unexpected {:?}", other),
    }
}

#[test]
fn unpack_register_with_overlong_string_is_decode_error() {
    let mut payload = vec![0u8, 200];
    payload.extend_from_slice(b"short");
    assert_eq!(Instruction::unpack(&payload).err(), Some(RegistryError::Decode));
}

#[test]
fn unpack_rejects_empty_and_unknown_opcodes() {
    assert_eq!(Instruction::unpack(&[]).err(), Some(RegistryError::Decode));
    assert_eq!(Instruction::unpack(&[9u8]).err(), Some(RegistryError::InvalidInstruction));
    assert!(matches!(Instruction::unpack(&[3u8]), Ok(Instruction::Withdraw)));
    assert!(matches!(Instruction::unpack(&[4u8, 1, 2]), Ok(Instruction::Other)));
}

#[test]
fn device_registry_round_trip() {
    let mut reg = empty_devices();
    reg.register(device(MAC, 5)).unwrap();
    reg.register(device("11:22:33:44:55:66", 0)).unwrap();
    let enc = encode_device_registry(&reg);
    let mut padded = enc.clone();
    padded.extend_from_slice(&[0u8; 16]);
    let (back, used) = decode_device_registry(&padded).unwrap();
    assert_eq!(used, enc.len());
    assert_eq!(back.counter, 2);
    assert_eq!(back.device_list.len(), 2);
    assert_eq!(back.device_list[0].mac_addr, MAC);
    assert_eq!(back.device_list[0].token_balance, 5);
    assert_eq!(back.device_list[1].mac_addr, "11:22:33:44:55:66");
    assert_eq!(back.device_list[1].owner.to_bytes(), [7u8; 32]);
    assert_eq!(back.device_list[1].latitude, "50.0");
    assert_eq!(encode_device_registry(&back), enc);
}

#[test]
fn device_registry_layout_matches_borsh() {
    let mut reg = empty_devices();
    reg.register(device(MAC, 5)).unwrap();
    let expected = borsh::to_vec(&(
        1u32,
        vec![(
            MAC.to_string(),
            [7u8; 32],
            5u64,
            1630301040u64,
            "Merchant".to_string(),
            "100.0".to_string(),
            "50.0".to_string(),
        )],
    ))
    .unwrap();
    assert_eq!(encode_device_registry(&reg), expected);
}

#[test]
fn miner_registry_round_trip_and_layout() {
    let reg = MinerRegistry {
        counter: 3,
        miner_dic: vec![MinerInfo { owner: key(1), token_balance: 9 }],
    };
    let enc = encode_miner_registry(&reg);
    let expected = borsh::to_vec(&(3u32, vec![([1u8; 32], 9u64)])).unwrap();
    assert_eq!(enc, expected);
    let (back, used) = decode_miner_registry(&enc).unwrap();
    assert_eq!(used, 48);
    assert_eq!(back.counter, 3);
    assert_eq!(back.miner_dic.len(), 1);
    assert_eq!(back.miner_dic[0].owner.to_bytes(), [1u8; 32]);
    assert_eq!(back.miner_dic[0].token_balance, 9);
}

#[test]
fn decoding_refuses_truncated_and_duplicate_entries() {
    let mut reg = empty_devices();
    reg.register(device(MAC, 5)).unwrap();
    let enc = encode_device_registry(&reg);
    assert!(decode_device_registry(&enc[..enc.len() - 1]).is_none());
    assert!(decode_device_registry(&[0u8; 4]).is_none());
    let dup = MinerRegistry {
        counter: 0,
        miner_dic: vec![MinerInfo { owner: key(1), token_balance: 0 }, MinerInfo { owner: key(1), token_balance: 1 }],
    };
    assert!(!keys_distinct(&dup.miner_dic));
    let enc = encode_miner_registry(&MinerRegistry {
        counter: 0,
        miner_dic: vec![MinerInfo { owner: key(1), token_balance: 0 }, MinerInfo { owner: key(2), token_balance: 1 }],
    });
    let mut bad = enc.clone();
    for b in bad[48..80].iter_mut() {
        *b = 1;
    }
    assert!(decode_miner_registry(&enc).is_some());
    assert!(decode_miner_registry(&bad).is_none());
}

#[test]
fn register_same_mac_twice_conflicts() {
    let mut reg = empty_devices();
    assert_eq!(reg.register(device(MAC, 1)), Ok(()));
    assert_eq!(reg.register(device(MAC, 2)), Err(RegistryError::Conflict));
    assert_eq!(reg.device_list.len(), 1);
    assert_eq!(reg.device_list[0].token_balance, 1);
    assert_eq!(reg.counter, 2);
}

#[test]
fn register_counter_wraps() {
    let mut reg = DeviceRegistry { counter: u32::MAX, device_list: Vec::new() };
    reg.register(device(MAC, 1)).unwrap();
    assert_eq!(reg.counter, 0);
}

#[test]
fn credit_miss_changes_nothing() {
    let mut reg = empty_devices();
    reg.register(device(MAC, 3)).unwrap();
    reg.credit(&"00:00:00:00:00:00".to_string(), 10);
    assert_eq!(reg.device_list.len(), 1);
    assert_eq!(reg.device_list[0].token_balance, 3);
    assert_eq!(reg.counter, 1);
}

#[test]
fn credit_hit_adds_and_saturates() {
    let mut reg = empty_devices();
    reg.register(device(MAC, 3)).unwrap();
    reg.credit(&MAC.to_string(), 10);
    assert_eq!(reg.device_list[0].token_balance, 13);
    reg.credit(&MAC.to_string(), u64::MAX);
    assert_eq!(reg.device_list[0].token_balance, u64::MAX);
}

#[test]
fn mining_moves_one_unit() {
    let mut devices = empty_devices();
    devices.register(device(MAC, 5)).unwrap();
    let mut miners = empty_miners();
    assert_eq!(mine_from(&mut devices, &mut miners, &MAC.to_string(), key(9)), Ok(()));
    assert_eq!(devices.device_list[0].token_balance, 4);
    assert_eq!(miners.miner_dic.len(), 1);
    assert_eq!(miners.miner_dic[0].owner.to_bytes(), [9u8; 32]);
    assert_eq!(miners.miner_dic[0].token_balance, 1);
}

#[test]
fn mining_an_empty_device_fails() {
    let mut devices = empty_devices();
    devices.register(device(MAC, 0)).unwrap();
    let mut miners = empty_miners();
    assert_eq!(
        mine_from(&mut devices, &mut miners, &MAC.to_string(), key(9)),
        Err(RegistryError::NotFound)
    );
    assert_eq!(devices.device_list[0].token_balance, 0);
    assert_eq!(miners.miner_dic.len(), 0);
    assert_eq!(
        mine_from(&mut devices, &mut miners, &"missing".to_string(), key(9)),
        Err(RegistryError::NotFound)
    );
}

#[test]
fn ensure_miner_twice_keeps_one_entry() {
    let mut miners = empty_miners();
    miners.ensure_miner(key(4));
    miners.ensure_miner(key(4));
    assert_eq!(miners.miner_dic.len(), 1);
    assert_eq!(miners.miner_dic[0].token_balance, 0);
    miners.credit(&key(4), 6);
    miners.ensure_miner(key(4));
    assert_eq!(miners.miner_dic[0].token_balance, 6);
}

#[test]
fn process_register_then_duplicate() {
    let program = key(100);
    let reg = encode_device_registry(&empty_devices());
    let mut accounts = vec![
        account(1, program, Vec::new()),
        account(2, program, buffer_with(reg, 1024)),
        account(3, key(0), Vec::new()),
    ];
    let payload = register_payload(MAC, 100, 1630301040);
    assert_eq!(process_instruction(&program, &mut accounts, &payload), Ok(()));
    assert_eq!(accounts[1].data.len(), 1024);
    let (stored, _) = decode_device_registry(&accounts[1].data).unwrap();
    assert_eq!(stored.counter, 1);
    assert_eq!(stored.device_list.len(), 1);
    assert_eq!(stored.device_list[0].owner.to_bytes(), [3u8; 32]);
    assert_eq!(stored.device_list[0].token_balance, 100);
    let before = accounts[1].data.clone();
    assert_eq!(
        process_instruction(&program, &mut accounts, &payload),
        Err(RegistryError::Conflict)
    );
    assert_eq!(accounts[1].data, before);
}

#[test]
fn process_register_checks_admin_and_accounts() {
    let program = key(100);
    let reg = buffer_with(encode_device_registry(&empty_devices()), 512);
    let payload = register_payload(MAC, 1, 2);
    let mut wrong_owner = vec![
        account(1, key(5), Vec::new()),
        account(2, program, reg.clone()),
        account(3, key(0), Vec::new()),
    ];
    assert_eq!(
        process_instruction(&program, &mut wrong_owner, &payload),
        Err(RegistryError::Permission)
    );
    let mut too_few = vec![account(1, program, Vec::new()), account(2, program, reg.clone())];
    assert_eq!(process_instruction(&program, &mut too_few, &payload), Err(RegistryError::Account));
    let mut tiny = vec![
        account(1, program, Vec::new()),
        account(2, program, encode_device_registry(&empty_devices())),
        account(3, key(0), Vec::new()),
    ];
    assert_eq!(process_instruction(&program, &mut tiny, &payload), Err(RegistryError::Account));
    let mut overlong = vec![0u8, 60, b'A'];
    overlong.extend_from_slice(&[0u8; 10]);
    assert_eq!(process_instruction(&program, &mut too_few, &overlong), Err(RegistryError::Decode));
}

#[test]
fn process_credit_and_mine() {
    let program = key(100);
    let mut devices = empty_devices();
    devices.register(device(MAC, 5)).unwrap();
    let mut accounts = vec![
        account(1, program, Vec::new()),
        account(2, program, buffer_with(encode_device_registry(&devices), 512)),
    ];
    let mut credit = vec![1u8];
    text(&mut credit, MAC);
    credit.extend_from_slice(&10u64.to_le_bytes());
    assert_eq!(process_instruction(&program, &mut accounts, &credit), Ok(()));
    let (stored, _) = decode_device_registry(&accounts[1].data).unwrap();
    assert_eq!(stored.device_list[0].token_balance, 15);

    let miner_buf = buffer_with(encode_miner_registry(&empty_miners()), 256);
    let mut mine_accounts = vec![
        account(9, key(0), Vec::new()),
        account(8, program, miner_buf),
        account(2, program, accounts[1].data.clone()),
    ];
    let mut mine = vec![2u8];
    text(&mut mine, MAC);
    assert_eq!(process_instruction(&program, &mut mine_accounts, &mine), Ok(()));
    let (m, _) = decode_miner_registry(&mine_accounts[1].data).unwrap();
    assert_eq!(m.miner_dic.len(), 1);
    assert_eq!(m.miner_dic[0].owner.to_bytes(), [9u8; 32]);
    assert_eq!(m.miner_dic[0].token_balance, 1);
    let (d, _) = decode_device_registry(&mine_accounts[2].data).unwrap();
    assert_eq!(d.device_list[0].token_balance, 14);
}

#[test]
fn process_mine_without_tokens_changes_nothing() {
    let program = key(100);
    let mut devices = empty_devices();
    devices.register(device(MAC, 0)).unwrap();
    let mut accounts = vec![
        account(9, key(0), Vec::new()),
        account(8, program, buffer_with(encode_miner_registry(&empty_miners()), 256)),
        account(2, program, buffer_with(encode_device_registry(&devices), 512)),
    ];
    let before_m = accounts[1].data.clone();
    let before_d = accounts[2].data.clone();
    let mut mine = vec![2u8];
    text(&mut mine, MAC);
    assert_eq!(process_instruction(&program, &mut accounts, &mine), Err(RegistryError::NotFound));
    assert_eq!(accounts[1].data, before_m);
    assert_eq!(accounts[2].data, before_d);
}

#[test]
fn process_credit_miss_is_silent_and_reserved_opcodes_succeed() {
    let program = key(100);
    let mut devices = empty_devices();
    devices.register(device(MAC, 5)).unwrap();
    let buf = buffer_with(encode_device_registry(&devices), 512);
    let mut accounts = vec![account(1, program, Vec::new()), account(2, program, buf.clone())];
    let mut credit = vec![1u8];
    text(&mut credit, "nope");
    credit.extend_from_slice(&10u64.to_le_bytes());
    assert_eq!(process_instruction(&program, &mut accounts, &credit), Ok(()));
    assert_eq!(accounts[1].data, buf);
    assert_eq!(process_instruction(&program, &mut accounts, &[3u8]), Ok(()));
    assert_eq!(process_instruction(&program, &mut accounts, &[4u8]), Ok(()));
    assert_eq!(accounts[1].data, buf);
}
