use vstd::prelude::*;
use vstd::utf8::{valid_utf8, decode_utf8, encode_utf8, encode_utf8_valid_utf8, encode_utf8_decode_utf8};
use crate::wire::{le_u64, text_from_utf8, slice_range};
use crate::state::{
    DeviceInfo, DeviceModel, DeviceRegistry, DeviceRegistryModel, MinerInfo, MinerModel, MinerRegistry,
    MinerRegistryModel, Pubkey, keys_unique,
};

verus! {

/// Four little-endian bytes of `x`.
pub open spec fn u32_bytes(x: u32) -> Seq<u8> {
    seq![(x & 0xff) as u8, ((x >> 8) & 0xff) as u8, ((x >> 16) & 0xff) as u8, ((x >> 24) & 0xff) as u8]
}

/// Eight little-endian bytes of `x`.
pub open spec fn u64_bytes(x: u64) -> Seq<u8> {
    seq![
        (x & 0xff) as u8,
        ((x >> 8) & 0xff) as u8,
        ((x >> 16) & 0xff) as u8,
        ((x >> 24) & 0xff) as u8,
        ((x >> 32) & 0xff) as u8,
        ((x >> 40) & 0xff) as u8,
        ((x >> 48) & 0xff) as u8,
        ((x >> 56) & 0xff) as u8,
    ]
}

/// Little-endian value of four bytes.
pub open spec fn le_u32(b: Seq<u8>) -> u32
    recommends
        b.len() >= 4,
{
    (b[0] as u32) | (b[1] as u32) << 8 | (b[2] as u32) << 16 | (b[3] as u32) << 24
}

/// A stored text: its UTF-8 length as four bytes, then the UTF-8 bytes.
pub open spec fn text_bytes(s: Seq<char>) -> Seq<u8> {
    u32_bytes(encode_utf8(s).len() as u32) + encode_utf8(s)
}

/// Whether the UTF-8 length of `s` fits the four-byte prefix.
pub open spec fn text_ok(s: Seq<char>) -> bool {
    encode_utf8(s).len() <= u32::MAX
}

pub open spec fn device_bytes(d: DeviceModel) -> Seq<u8> {
    text_bytes(d.mac_addr) + d.owner + u64_bytes(d.token_balance) + u64_bytes(d.reg_time)
        + text_bytes(d.merchant) + text_bytes(d.longitude) + text_bytes(d.latitude)
}

pub open spec fn device_ok(d: DeviceModel) -> bool {
    &&& text_ok(d.mac_addr)
    &&& d.owner.len() == 32
    &&& text_ok(d.merchant)
    &&& text_ok(d.longitude)
    &&& text_ok(d.latitude)
}

pub open spec fn devices_bytes(s: Seq<DeviceModel>) -> Seq<u8>
    decreases s.len(),
{
    if s.len() == 0 {
        Seq::empty()
    } else {
        device_bytes(s[0]) + devices_bytes(s.drop_first())
    }
}

/// The stored form of a device registry: the counter, the number of devices, then each device.
pub open spec fn device_registry_bytes(r: DeviceRegistryModel) -> Seq<u8> {
    u32_bytes(r.counter) + u32_bytes(r.devices.len() as u32) + devices_bytes(r.devices)
}

/// A device registry that has a stored form.
pub open spec fn device_registry_ok(r: DeviceRegistryModel) -> bool {
    &&& r.devices.len() <= u32::MAX
    &&& forall|i: int| 0 <= i < r.devices.len() ==> device_ok(#[trigger] r.devices[i])
}

pub open spec fn miner_bytes(m: MinerModel) -> Seq<u8> {
    m.owner + u64_bytes(m.token_balance)
}

pub open spec fn miners_bytes(s: Seq<MinerModel>) -> Seq<u8>
    decreases s.len(),
{
    if s.len() == 0 {
        Seq::empty()
    } else {
        miner_bytes(s[0]) + miners_bytes(s.drop_first())
    }
}

/// The stored form of a miner registry: the counter, the number of entries, then each entry.
pub open spec fn miner_registry_bytes(r: MinerRegistryModel) -> Seq<u8> {
    u32_bytes(r.counter) + u32_bytes(r.miners.len() as u32) + miners_bytes(r.miners)
}

/// A miner registry that has a stored form: identities of 32 bytes, none twice.
pub open spec fn miner_registry_ok(r: MinerRegistryModel) -> bool {
    &&& r.miners.len() <= u32::MAX
    &&& forall|i: int| 0 <= i < r.miners.len() ==> (#[trigger] r.miners[i]).owner.len() == 32
    &&& keys_unique(r.miners)
}

/// Reads a stored text off the front of `b`; yields it and the bytes it took.
#[verifier::opaque]
pub open spec fn parse_text(b: Seq<u8>) -> Option<(Seq<char>, int)> {
    if b.len() >= 4 && 4 + le_u32(b) <= b.len() && valid_utf8(b.subrange(4, 4 + le_u32(b))) {
        Some((decode_utf8(b.subrange(4, 4 + le_u32(b))), 4 + le_u32(b)))
    } else {
        None
    }
}

/// Reads a stored device off the front of `b`; yields it and the bytes it took.
#[verifier::opaque]
pub open spec fn parse_device(b: Seq<u8>) -> Option<(DeviceModel, int)> {
    match parse_text(b) {
        None => None,
        Some((mac, n1)) => {
            if n1 + 48 > b.len() {
                None
            } else {
                let owner = b.subrange(n1, n1 + 32);
                let bal = le_u64(b.subrange(n1 + 32, b.len() as int));
                let time = le_u64(b.subrange(n1 + 40, b.len() as int));
                let n2 = n1 + 48;
                match parse_text(b.subrange(n2, b.len() as int)) {
                    None => None,
                    Some((merchant, k3)) => {
                        let n3 = n2 + k3;
                        match parse_text(b.subrange(n3, b.len() as int)) {
                            None => None,
                            Some((lon, k4)) => {
                                let n4 = n3 + k4;
                                match parse_text(b.subrange(n4, b.len() as int)) {
                                    None => None,
                                    Some((lat, k5)) => Some(
                                        (
                                            DeviceModel {
                                                mac_addr: mac,
                                                owner,
                                                token_balance: bal,
                                                reg_time: time,
                                                merchant,
                                                longitude: lon,
                                                latitude: lat,
                                            },
                                            n4 + k5,
                                        ),
                                    ),
                                }
                            },
                        }
                    },
                }
            }
        },
    }
}

/// Reads `n` stored devices off the front of `b`.
pub open spec fn parse_devices(b: Seq<u8>, n: nat) -> Option<(Seq<DeviceModel>, int)>
    decreases n,
{
    if n == 0 {
        Some((Seq::empty(), 0))
    } else {
        match parse_device(b) {
            None => None,
            Some((d, k)) => match parse_devices(b.subrange(k, b.len() as int), (n - 1) as nat) {
                None => None,
                Some((ds, k2)) => Some((seq![d] + ds, k + k2)),
            },
        }
    }
}

/// Reads a stored device registry off the front of `b`; bytes after it are ignored.
pub open spec fn parse_device_registry(b: Seq<u8>) -> Option<(DeviceRegistryModel, int)> {
    if b.len() < 8 {
        None
    } else {
        match parse_devices(b.subrange(8, b.len() as int), le_u32(b.subrange(4, 8)) as nat) {
            None => None,
            Some((ds, k)) => Some(
                (DeviceRegistryModel { counter: le_u32(b), devices: ds }, 8 + k),
            ),
        }
    }
}

/// Reads `n` stored miner entries off the front of `b`.
pub open spec fn parse_miners(b: Seq<u8>, n: nat) -> Option<Seq<MinerModel>>
    decreases n,
{
    if n == 0 {
        Some(Seq::empty())
    } else if b.len() < 40 {
        None
    } else {
        match parse_miners(b.subrange(40, b.len() as int), (n - 1) as nat) {
            None => None,
            Some(ms) => Some(
                seq![MinerModel { owner: b.subrange(0, 32), token_balance: le_u64(b.subrange(32, b.len() as int)) }]
                    + ms,
            ),
        }
    }
}

/// Reads a stored miner registry off the front of `b`; an identity stored twice is refused.
pub open spec fn parse_miner_registry(b: Seq<u8>) -> Option<(MinerRegistryModel, int)> {
    if b.len() < 8 {
        None
    } else {
        match parse_miners(b.subrange(8, b.len() as int), le_u32(b.subrange(4, 8)) as nat) {
            None => None,
            Some(ms) => if keys_unique(ms) {
                Some(
                    (
                        MinerRegistryModel { counter: le_u32(b), miners: ms },
                        8 + 40 * le_u32(b.subrange(4, 8)),
                    ),
                )
            } else {
                None
            },
        }
    }
}

pub proof fn lemma_u32_bytes(x: u32, rest: Seq<u8>)
    ensures
        u32_bytes(x).len() == 4,
        le_u32(u32_bytes(x) + rest) == x,
{
    let b = u32_bytes(x) + rest;
    assert(b[0] == (x & 0xff) as u8 && b[1] == ((x >> 8) & 0xff) as u8 && b[2] == ((x >> 16) & 0xff) as u8
        && b[3] == ((x >> 24) & 0xff) as u8);
    assert(((x & 0xff) as u8 as u32) | (((x >> 8) & 0xff) as u8 as u32) << 8 | (((x >> 16) & 0xff) as u8 as u32)
        << 16 | (((x >> 24) & 0xff) as u8 as u32) << 24 == x) by (bit_vector);
}

pub proof fn lemma_u64_bytes(x: u64, rest: Seq<u8>)
    ensures
        u64_bytes(x).len() == 8,
        le_u64(u64_bytes(x) + rest) == x,
{
    let b = u64_bytes(x) + rest;
    assert(b[0] == (x & 0xff) as u8 && b[1] == ((x >> 8) & 0xff) as u8 && b[2] == ((x >> 16) & 0xff) as u8
        && b[3] == ((x >> 24) & 0xff) as u8 && b[4] == ((x >> 32) & 0xff) as u8 && b[5] == ((x >> 40)
        & 0xff) as u8 && b[6] == ((x >> 48) & 0xff) as u8 && b[7] == ((x >> 56) & 0xff) as u8);
    assert(((x & 0xff) as u8 as u64) | (((x >> 8) & 0xff) as u8 as u64) << 8 | (((x >> 16) & 0xff) as u8 as u64)
        << 16 | (((x >> 24) & 0xff) as u8 as u64) << 24 | (((x >> 32) & 0xff) as u8 as u64) << 32 | (((x
        >> 40) & 0xff) as u8 as u64) << 40 | (((x >> 48) & 0xff) as u8 as u64) << 48 | (((x >> 56) & 0xff)
        as u8 as u64) << 56 == x) by (bit_vector);
}

pub proof fn lemma_text_round_trip(s: Seq<char>, rest: Seq<u8>)
    requires
        text_ok(s),
    ensures
        parse_text(text_bytes(s) + rest) == Some((s, text_bytes(s).len() as int)),
{
    reveal(parse_text);
    let e = encode_utf8(s);
    let b = text_bytes(s) + rest;
    lemma_u32_bytes(e.len() as u32, e + rest);
    assert(b =~= u32_bytes(e.len() as u32) + (e + rest));
    assert(b.subrange(4, 4 + e.len() as int) =~= e);
    encode_utf8_valid_utf8(s);
    encode_utf8_decode_utf8(s);
}

#[verifier::rlimit(100)]
pub proof fn lemma_device_round_trip(d: DeviceModel, rest: Seq<u8>)
    requires
        device_ok(d),
    ensures
        parse_device(device_bytes(d) + rest) == Some((d, device_bytes(d).len() as int)),
{
    reveal(parse_device);
    let b = device_bytes(d) + rest;
    let t1 = text_bytes(d.mac_addr);
    let t3 = text_bytes(d.merchant);
    let t4 = text_bytes(d.longitude);
    let t5 = text_bytes(d.latitude);
    let u1 = u64_bytes(d.token_balance);
    let u2 = u64_bytes(d.reg_time);
    let r5 = t5 + rest;
    let r4 = t4 + r5;
    let r3 = t3 + r4;
    let r2 = u2 + r3;
    let r1 = u1 + r2;
    let r0 = d.owner + r1;
    assert(b =~= t1 + r0);
    lemma_u64_bytes(d.token_balance, r2);
    lemma_u64_bytes(d.reg_time, r3);
    let n1 = t1.len() as int;
    let n2 = n1 + 48;
    let n3 = n2 + t3.len();
    let n4 = n3 + t4.len();
    lemma_text_round_trip(d.mac_addr, r0);
    assert(parse_text(b) == Some((d.mac_addr, n1)));
    assert(b.subrange(n1, n1 + 32) =~= d.owner);
    assert(b.subrange(n1 + 32, b.len() as int) =~= r1);
    assert(b.subrange(n1 + 40, b.len() as int) =~= r2);
    assert(b.subrange(n2, b.len() as int) =~= r3);
    lemma_text_round_trip(d.merchant, r4);
    assert(parse_text(b.subrange(n2, b.len() as int)) == Some((d.merchant, t3.len() as int)));
    assert(b.subrange(n3, b.len() as int) =~= r4);
    lemma_text_round_trip(d.longitude, r5);
    assert(parse_text(b.subrange(n3, b.len() as int)) == Some((d.longitude, t4.len() as int)));
    assert(b.subrange(n4, b.len() as int) =~= r5);
    lemma_text_round_trip(d.latitude, rest);
    assert(parse_text(b.subrange(n4, b.len() as int)) == Some((d.latitude, t5.len() as int)));
    assert(n4 + t5.len() == device_bytes(d).len());
}

pub proof fn lemma_devices_round_trip(s: Seq<DeviceModel>, rest: Seq<u8>)
    requires
        forall|i: int| 0 <= i < s.len() ==> device_ok(#[trigger] s[i]),
    ensures
        parse_devices(devices_bytes(s) + rest, s.len()) == Some((s, devices_bytes(s).len() as int)),
    decreases s.len(),
{
    if s.len() > 0 {
        let b = devices_bytes(s) + rest;
        let tl = devices_bytes(s.drop_first());
        assert(device_ok(s[0]));
        assert(b =~= device_bytes(s[0]) + (tl + rest));
        lemma_device_round_trip(s[0], tl + rest);
        let k = device_bytes(s[0]).len() as int;
        assert(b.subrange(k, b.len() as int) =~= tl + rest);
        assert forall|i: int| 0 <= i < s.drop_first().len() implies device_ok(
            #[trigger] s.drop_first()[i],
        ) by {
            assert(s.drop_first()[i] == s[i + 1]);
        }
        lemma_devices_round_trip(s.drop_first(), rest);
        assert(seq![s[0]] + s.drop_first() =~= s);
    }
}

/// Decoding the stored form of a device registry gives that registry back, and
/// takes exactly the stored form, whatever bytes follow it.
pub proof fn lemma_device_registry_round_trip(r: DeviceRegistryModel, rest: Seq<u8>)
    requires
        device_registry_ok(r),
    ensures
        parse_device_registry(device_registry_bytes(r) + rest) == Some(
            (r, device_registry_bytes(r).len() as int),
        ),
{
    let b = device_registry_bytes(r) + rest;
    let tl = devices_bytes(r.devices);
    lemma_u32_bytes(r.counter, u32_bytes(r.devices.len() as u32) + tl + rest);
    assert(b =~= u32_bytes(r.counter) + (u32_bytes(r.devices.len() as u32) + tl + rest));
    lemma_u32_bytes(r.devices.len() as u32, tl + rest);
    assert(b.subrange(4, 8) =~= u32_bytes(r.devices.len() as u32) + Seq::<u8>::empty());
    lemma_u32_bytes(r.devices.len() as u32, Seq::<u8>::empty());
    assert(b.subrange(8, b.len() as int) =~= tl + rest);
    lemma_devices_round_trip(r.devices, rest);
}

pub proof fn lemma_miners_round_trip(s: Seq<MinerModel>, rest: Seq<u8>)
    requires
        forall|i: int| 0 <= i < s.len() ==> (#[trigger] s[i]).owner.len() == 32,
    ensures
        parse_miners(miners_bytes(s) + rest, s.len()) == Some(s),
        miners_bytes(s).len() == 40 * s.len(),
    decreases s.len(),
{
    if s.len() > 0 {
        let b = miners_bytes(s) + rest;
        let tl = miners_bytes(s.drop_first());
        let m = s[0];
        assert(m.owner.len() == 32);
        lemma_u64_bytes(m.token_balance, tl + rest);
        assert(b =~= miner_bytes(m) + (tl + rest));
        assert(b.subrange(0, 32) =~= m.owner);
        assert(b.subrange(32, b.len() as int) =~= u64_bytes(m.token_balance) + (tl + rest));
        assert(b.subrange(40, b.len() as int) =~= tl + rest);
        assert forall|i: int| 0 <= i < s.drop_first().len() implies (
        #[trigger] s.drop_first()[i]).owner.len() == 32 by {
            assert(s.drop_first()[i] == s[i + 1]);
        }
        lemma_miners_round_trip(s.drop_first(), rest);
        assert(seq![m] + s.drop_first() =~= s);
    }
}

/// Decoding the stored form of a miner registry gives that registry back, and
/// takes exactly the stored form, whatever bytes follow it.
pub proof fn lemma_miner_registry_round_trip(r: MinerRegistryModel, rest: Seq<u8>)
    requires
        miner_registry_ok(r),
    ensures
        parse_miner_registry(miner_registry_bytes(r) + rest) == Some(
            (r, miner_registry_bytes(r).len() as int),
        ),
{
    let b = miner_registry_bytes(r) + rest;
    let tl = miners_bytes(r.miners);
    lemma_u32_bytes(r.counter, u32_bytes(r.miners.len() as u32) + tl + rest);
    assert(b =~= u32_bytes(r.counter) + (u32_bytes(r.miners.len() as u32) + tl + rest));
    assert(b.subrange(4, 8) =~= u32_bytes(r.miners.len() as u32) + Seq::<u8>::empty());
    lemma_u32_bytes(r.miners.len() as u32, Seq::<u8>::empty());
    assert(b.subrange(8, b.len() as int) =~= tl + rest);
    lemma_miners_round_trip(r.miners, rest);
}

pub proof fn lemma_devices_bytes_push(s: Seq<DeviceModel>, d: DeviceModel)
    ensures
        devices_bytes(s.push(d)) == devices_bytes(s) + device_bytes(d),
    decreases s.len(),
{
    if s.len() == 0 {
        assert(s.push(d).drop_first() =~= Seq::<DeviceModel>::empty());
        assert(s.push(d)[0] == d);
        assert(devices_bytes(Seq::<DeviceModel>::empty()) == Seq::<u8>::empty());
        assert(devices_bytes(s.push(d)) =~= device_bytes(d) + Seq::<u8>::empty());
    } else {
        assert(s.push(d).drop_first() =~= s.drop_first().push(d));
        lemma_devices_bytes_push(s.drop_first(), d);
        assert(devices_bytes(s.push(d)) =~= devices_bytes(s) + device_bytes(d));
    }
}

pub proof fn lemma_miners_bytes_push(s: Seq<MinerModel>, m: MinerModel)
    ensures
        miners_bytes(s.push(m)) == miners_bytes(s) + miner_bytes(m),
    decreases s.len(),
{
    if s.len() == 0 {
        assert(s.push(m).drop_first() =~= Seq::<MinerModel>::empty());
        assert(s.push(m)[0] == m);
        assert(miners_bytes(Seq::<MinerModel>::empty()) == Seq::<u8>::empty());
        assert(miners_bytes(s.push(m)) =~= miner_bytes(m) + Seq::<u8>::empty());
    } else {
        assert(s.push(m).drop_first() =~= s.drop_first().push(m));
        lemma_miners_bytes_push(s.drop_first(), m);
        assert(miners_bytes(s.push(m)) =~= miners_bytes(s) + miner_bytes(m));
    }
}

fn put_u32(out: &mut Vec<u8>, x: u32)
    ensures
        final(out)@ == old(out)@ + u32_bytes(x),
{
    out.push((x & 0xff) as u8);
    out.push(((x >> 8) & 0xff) as u8);
    out.push(((x >> 16) & 0xff) as u8);
    out.push(((x >> 24) & 0xff) as u8);
    assert(out@ =~= old(out)@ + u32_bytes(x));
}

fn put_u64(out: &mut Vec<u8>, x: u64)
    ensures
        final(out)@ == old(out)@ + u64_bytes(x),
{
    out.push((x & 0xff) as u8);
    out.push(((x >> 8) & 0xff) as u8);
    out.push(((x >> 16) & 0xff) as u8);
    out.push(((x >> 24) & 0xff) as u8);
    out.push(((x >> 32) & 0xff) as u8);
    out.push(((x >> 40) & 0xff) as u8);
    out.push(((x >> 48) & 0xff) as u8);
    out.push(((x >> 56) & 0xff) as u8);
    assert(out@ =~= old(out)@ + u64_bytes(x));
}

pub(crate) fn put_bytes(out: &mut Vec<u8>, b: &[u8])
    ensures
        final(out)@ == old(out)@ + b@,
{
    let mut i: usize = 0;
    while i < b.len()
        invariant
            i <= b@.len(),
            out@ == old(out)@ + b@.subrange(0, i as int),
        decreases b@.len() - i,
    {
        out.push(b[i]);
        i += 1;
        assert(out@ =~= old(out)@ + b@.subrange(0, i as int));
    }
    assert(b@.subrange(0, i as int) =~= b@);
}

fn put_text(out: &mut Vec<u8>, s: &String)
    requires
        text_ok(s@),
    ensures
        final(out)@ == old(out)@ + text_bytes(s@),
{
    let b = s.as_str().as_bytes();
    put_u32(out, b.len() as u32);
    put_bytes(out, b);
    assert(out@ =~= old(out)@ + text_bytes(s@));
}

fn put_device(out: &mut Vec<u8>, d: &DeviceInfo)
    requires
        device_ok(d@),
    ensures
        final(out)@ == old(out)@ + device_bytes(d@),
{
    put_text(out, &d.mac_addr);
    put_bytes(out, d.owner.bytes.as_slice());
    put_u64(out, d.token_balance);
    put_u64(out, d.reg_time);
    put_text(out, &d.merchant);
    put_text(out, &d.longitude);
    put_text(out, &d.latitude);
    assert(out@ =~= old(out)@ + device_bytes(d@));
}

/// The stored form of a device registry.
pub fn encode_device_registry(r: &DeviceRegistry) -> (out: Vec<u8>)
    requires
        device_registry_ok(r@),
    ensures
        out@ == device_registry_bytes(r@),
{
    let mut out: Vec<u8> = Vec::new();
    put_u32(&mut out, r.counter);
    put_u32(&mut out, r.device_list.len() as u32);
    let ghost head = out@;
    let mut i: usize = 0;
    while i < r.device_list.len()
        invariant
            i <= r@.devices.len(),
            device_registry_ok(r@),
            out@ == head + devices_bytes(r@.devices.take(i as int)),
        decreases r@.devices.len() - i,
    {
        assert(device_ok(r@.devices[i as int]));
        put_device(&mut out, &r.device_list[i]);
        proof {
            assert(r@.devices.take(i + 1) =~= r@.devices.take(i as int).push(r@.devices[i as int]));
            lemma_devices_bytes_push(r@.devices.take(i as int), r@.devices[i as int]);
        }
        i += 1;
        assert(out@ =~= head + devices_bytes(r@.devices.take(i as int)));
    }
    assert(r@.devices.take(i as int) =~= r@.devices);
    assert(out@ =~= device_registry_bytes(r@));
    out
}

/// The stored form of a miner registry.
pub fn encode_miner_registry(r: &MinerRegistry) -> (out: Vec<u8>)
    requires
        miner_registry_ok(r@),
    ensures
        out@ == miner_registry_bytes(r@),
{
    let mut out: Vec<u8> = Vec::new();
    put_u32(&mut out, r.counter);
    put_u32(&mut out, r.miner_dic.len() as u32);
    let ghost head = out@;
    let mut i: usize = 0;
    while i < r.miner_dic.len()
        invariant
            i <= r@.miners.len(),
            miner_registry_ok(r@),
            out@ == head + miners_bytes(r@.miners.take(i as int)),
        decreases r@.miners.len() - i,
    {
        let m = &r.miner_dic[i];
        put_bytes(&mut out, m.owner.bytes.as_slice());
        put_u64(&mut out, m.token_balance);
        proof {
            assert(r@.miners.take(i + 1) =~= r@.miners.take(i as int).push(r@.miners[i as int]));
            lemma_miners_bytes_push(r@.miners.take(i as int), r@.miners[i as int]);
        }
        i += 1;
        assert(out@ =~= head + miners_bytes(r@.miners.take(i as int)));
    }
    assert(r@.miners.take(i as int) =~= r@.miners);
    assert(out@ =~= miner_registry_bytes(r@));
    out
}

fn take_u32(b: &[u8]) -> (r: u32)
    requires
        b@.len() >= 4,
    ensures
        r == le_u32(b@),
{
    (b[0] as u32) | (b[1] as u32) << 8 | (b[2] as u32) << 16 | (b[3] as u32) << 24
}

fn take_u64(b: &[u8]) -> (r: u64)
    requires
        b@.len() >= 8,
    ensures
        r == le_u64(b@),
{
    (b[0] as u64) | (b[1] as u64) << 8 | (b[2] as u64) << 16 | (b[3] as u64) << 24 | (b[4] as u64)
        << 32 | (b[5] as u64) << 40 | (b[6] as u64) << 48 | (b[7] as u64) << 56
}

fn take_key(b: &[u8]) -> (r: Pubkey)
    requires
        b@.len() >= 32,
    ensures
        r@ == b@.subrange(0, 32),
{
    let mut bytes = [0u8; 32];
    let mut i: usize = 0;
    while i < 32
        invariant
            i <= 32,
            b@.len() >= 32,
            bytes@.len() == 32,
            forall|j: int| 0 <= j < i ==> bytes@[j] == b@[j],
        decreases 32 - i,
    {
        bytes[i] = b[i];
        i += 1;
    }
    assert(bytes@ =~= b@.subrange(0, 32));
    Pubkey { bytes }
}

fn take_text(b: &[u8]) -> (r: Option<(String, usize)>)
    ensures
        match parse_text(b@) {
            Some((t, n)) => r matches Some((s, k)) && s@ == t && k == n,
            None => r is None,
        },
        r matches Some((s, k)) ==> k <= b@.len() && text_ok(s@),
{
    reveal(parse_text);
    if b.len() < 4 {
        return None;
    }
    let n = take_u32(b) as usize;
    if n > b.len() - 4 {
        return None;
    }
    match text_from_utf8(slice_range(b, 4, 4 + n)) {
        Some(t) => Some((t.to_owned(), 4 + n)),
        None => None,
    }
}

fn take_device(b: &[u8]) -> (r: Option<(DeviceInfo, usize)>)
    ensures
        match parse_device(b@) {
            Some((m, n)) => r matches Some((d, k)) && d@ == m && k == n,
            None => r is None,
        },
        r matches Some((d, k)) ==> k <= b@.len() && device_ok(d@),
{
    reveal(parse_device);
    let (mac_addr, n1) = match take_text(b) {
        Some(x) => x,
        None => return None,
    };
    if b.len() - n1 < 48 {
        return None;
    }
    let owner = take_key(slice_range(b, n1, b.len()));
    assert(b@.subrange(n1 as int, b@.len() as int).subrange(0, 32) =~= b@.subrange(n1 as int, n1 + 32));
    let token_balance = take_u64(slice_range(b, n1 + 32, b.len()));
    let reg_time = take_u64(slice_range(b, n1 + 40, b.len()));
    let n2 = n1 + 48;
    let (merchant, k3) = match take_text(slice_range(b, n2, b.len())) {
        Some(x) => x,
        None => return None,
    };
    let n3 = n2 + k3;
    let (longitude, k4) = match take_text(slice_range(b, n3, b.len())) {
        Some(x) => x,
        None => return None,
    };
    let n4 = n3 + k4;
    let (latitude, k5) = match take_text(slice_range(b, n4, b.len())) {
        Some(x) => x,
        None => return None,
    };
    Some(
        (
            DeviceInfo { mac_addr, owner, token_balance, reg_time, merchant, longitude, latitude },
            n4 + k5,
        ),
    )
}

/// Reads a device registry from the front of a stored buffer; yields it and
/// the number of bytes it took. Bytes after it are ignored.
pub fn decode_device_registry(b: &[u8]) -> (r: Option<(DeviceRegistry, usize)>)
    ensures
        match parse_device_registry(b@) {
            Some((m, n)) => r matches Some((v, k)) && v@ == m && k == n,
            None => r is None,
        },
        r matches Some((v, k)) ==> device_registry_ok(v@),
{
    if b.len() < 8 {
        return None;
    }
    let counter = take_u32(b);
    let body = slice_range(b, 8, b.len());
    let count = take_u32(slice_range(b, 4, 8));
    let mut device_list: Vec<DeviceInfo> = Vec::new();
    let mut pos: usize = 0;
    let mut i: u32 = 0;
    assert(body@.subrange(0, body@.len() as int) =~= body@);
    proof {
        if let Some((ds, k)) = parse_devices(body@, count as nat) {
            assert(device_list@.map_values(|d: DeviceInfo| d@) + ds =~= ds);
        }
    }
    while i < count
        invariant
            i <= count,
            b@.len() >= 8,
            pos <= body@.len(),
            device_list@.len() == i,
            forall|j: int| 0 <= j < i ==> device_ok(#[trigger] device_list@[j]@),
            body@ == b@.subrange(8, b@.len() as int),
            count == le_u32(b@.subrange(4, 8)),
            parse_devices(body@, count as nat) == match parse_devices(
                body@.subrange(pos as int, body@.len() as int),
                (count - i) as nat,
            ) {
                Some((ds, k)) => Some((device_list@.map_values(|d: DeviceInfo| d@) + ds, pos + k)),
                None => None::<(Seq<DeviceModel>, int)>,
            },
        decreases count - i,
    {
        let ghost here = body@.subrange(pos as int, body@.len() as int);
        let ghost before = device_list@.map_values(|d: DeviceInfo| d@);
        let (d, k) = match take_device(slice_range(body, pos, body.len())) {
            Some(x) => x,
            None => return None,
        };
        assert(here.subrange(k as int, here.len() as int) =~= body@.subrange(
            pos + k,
            body@.len() as int,
        ));
        device_list.push(d);
        assert(device_list@.map_values(|d: DeviceInfo| d@) =~= before.push(d@));
        proof {
            let after = parse_devices(
                body@.subrange(pos + k, body@.len() as int),
                (count - i - 1) as nat,
            );
            if let Some((ds, k2)) = after {
                assert(before + (seq![d@] + ds) =~= before.push(d@) + ds);
            }
        }
        pos = pos + k;
        i = i + 1;
    }
    assert(body@.subrange(pos as int, body@.len() as int).len() >= 0);
    assert(device_list@.map_values(|d: DeviceInfo| d@) + Seq::<DeviceModel>::empty()
        =~= device_list@.map_values(|d: DeviceInfo| d@));
    Some((DeviceRegistry { counter, device_list }, 8 + pos))
}

/// Whether no identity occurs twice among `ms`.
pub fn keys_distinct(ms: &Vec<MinerInfo>) -> (r: bool)
    ensures
        r == keys_unique(ms@.map_values(|m: MinerInfo| m@)),
{
    let ghost v = ms@.map_values(|m: MinerInfo| m@);
    let mut i: usize = 0;
    while i < ms.len()
        invariant
            i <= ms@.len(),
            v == ms@.map_values(|m: MinerInfo| m@),
            forall|a: int, c: int| 0 <= a < i && 0 <= c < i && a != c ==> v[a].owner != v[c].owner,
        decreases ms@.len() - i,
    {
        let mut j: usize = 0;
        while j < i
            invariant
                j <= i < ms@.len(),
                v == ms@.map_values(|m: MinerInfo| m@),
                forall|a: int, c: int| 0 <= a < i && 0 <= c < i && a != c ==> v[a].owner != v[c].owner,
                forall|c: int| 0 <= c < j ==> v[c].owner != v[i as int].owner,
            decreases i - j,
        {
            if ms[j].owner.same_as(&ms[i].owner) {
                assert(v[j as int].owner == v[i as int].owner);
                return false;
            }
            j += 1;
        }
        i += 1;
    }
    true
}

/// Reads a miner registry from the front of a stored buffer; yields it and
/// the number of bytes it took. Bytes after it are ignored; an identity stored
/// twice makes the buffer unreadable.
pub fn decode_miner_registry(b: &[u8]) -> (r: Option<(MinerRegistry, usize)>)
    ensures
        match parse_miner_registry(b@) {
            Some((m, n)) => r matches Some((v, k)) && v@ == m && k == n,
            None => r is None,
        },
        r matches Some((v, k)) ==> miner_registry_ok(v@),
{
    if b.len() < 8 {
        return None;
    }
    let counter = take_u32(b);
    let body = slice_range(b, 8, b.len());
    let count = take_u32(slice_range(b, 4, 8));
    let mut miner_dic: Vec<MinerInfo> = Vec::new();
    let mut pos: usize = 0;
    let mut i: u32 = 0;
    assert(body@.subrange(0, body@.len() as int) =~= body@);
    proof {
        if let Some(ms) = parse_miners(body@, count as nat) {
            assert(miner_dic@.map_values(|m: MinerInfo| m@) + ms =~= ms);
        }
    }
    while i < count
        invariant
            i <= count,
            b@.len() >= 8,
            pos <= body@.len(),
            pos == 40 * i,
            miner_dic@.len() == i,
            body@ == b@.subrange(8, b@.len() as int),
            count == le_u32(b@.subrange(4, 8)),
            parse_miners(body@, count as nat) == match parse_miners(
                body@.subrange(pos as int, body@.len() as int),
                (count - i) as nat,
            ) {
                Some(ms) => Some(miner_dic@.map_values(|m: MinerInfo| m@) + ms),
                None => None::<Seq<MinerModel>>,
            },
        decreases count - i,
    {
        let here = slice_range(body, pos, body.len());
        if here.len() < 40 {
            return None;
        }
        let ghost before = miner_dic@.map_values(|m: MinerInfo| m@);
        let owner = take_key(here);
        let token_balance = take_u64(slice_range(here, 32, here.len()));
        let m = MinerInfo { owner, token_balance };
        assert(here@.subrange(40, here@.len() as int) =~= body@.subrange(
            pos + 40,
            body@.len() as int,
        ));
        miner_dic.push(m);
        assert(miner_dic@.map_values(|m: MinerInfo| m@) =~= before.push(m@));
        proof {
            let after = parse_miners(
                body@.subrange(pos + 40, body@.len() as int),
                (count - i - 1) as nat,
            );
            if let Some(ms) = after {
                assert(before + (seq![m@] + ms) =~= before.push(m@) + ms);
            }
        }
        pos = pos + 40;
        i = i + 1;
    }
    assert(miner_dic@.map_values(|m: MinerInfo| m@) + Seq::<MinerModel>::empty()
        =~= miner_dic@.map_values(|m: MinerInfo| m@));
    if !keys_distinct(&miner_dic) {
        return None;
    }
    let ghost mv = miner_dic@.map_values(|m: MinerInfo| m@);
    assert forall|j: int| 0 <= j < mv.len() implies (#[trigger] mv[j]).owner.len() == 32 by {
        assert(miner_dic@[j].owner.bytes@.len() == 32);
    }
    Some((MinerRegistry { counter, miner_dic }, 8 + pos))
}

} // verus!
