use vstd::prelude::*;
use crate::RegistryError;

verus! {

/// An opaque 32-byte account identity.
#[derive(Clone, Copy, Debug)]
pub struct Pubkey {
    pub bytes: [u8; 32],
}

impl View for Pubkey {
    type V = Seq<u8>;

    open spec fn view(&self) -> Seq<u8> {
        self.bytes@
    }
}

impl Pubkey {
    pub fn new_from_array(bytes: [u8; 32]) -> (r: Pubkey)
        ensures
            r@ == bytes@,
    {
        Pubkey { bytes }
    }

    pub fn to_bytes(&self) -> (r: [u8; 32])
        ensures
            r@ == self@,
    {
        self.bytes
    }

    /// Whether two identities hold the same bytes.
    pub fn same_as(&self, other: &Pubkey) -> (r: bool)
        ensures
            r == (self@ == other@),
    {
        let mut i: usize = 0;
        while i < 32
            invariant
                i <= 32,
                self@.len() == 32,
                other@.len() == 32,
                forall|j: int| 0 <= j < i ==> self@[j] == other@[j],
            decreases 32 - i,
        {
            if self.bytes[i] != other.bytes[i] {
                return false;
            }
            i += 1;
        }
        assert(self@ =~= other@);
        true
    }
}

/// What a registered device is, as values.
pub ghost struct DeviceModel {
    pub mac_addr: Seq<char>,
    pub owner: Seq<u8>,
    pub token_balance: u64,
    pub reg_time: u64,
    pub merchant: Seq<char>,
    pub longitude: Seq<char>,
    pub latitude: Seq<char>,
}

/// One registered device.
#[derive(Debug)]
pub struct DeviceInfo {
    pub mac_addr: String,
    pub owner: Pubkey,
    pub token_balance: u64,
    pub reg_time: u64,
    pub merchant: String,
    pub longitude: String,
    pub latitude: String,
}

impl View for DeviceInfo {
    type V = DeviceModel;

    open spec fn view(&self) -> DeviceModel {
        DeviceModel {
            mac_addr: self.mac_addr@,
            owner: self.owner@,
            token_balance: self.token_balance,
            reg_time: self.reg_time,
            merchant: self.merchant@,
            longitude: self.longitude@,
            latitude: self.latitude@,
        }
    }
}

/// The persisted list of devices, with a count of registration attempts.
pub ghost struct DeviceRegistryModel {
    pub counter: u32,
    pub devices: Seq<DeviceModel>,
}

#[derive(Debug)]
pub struct DeviceRegistry {
    pub counter: u32,
    pub device_list: Vec<DeviceInfo>,
}

impl View for DeviceRegistry {
    type V = DeviceRegistryModel;

    open spec fn view(&self) -> DeviceRegistryModel {
        DeviceRegistryModel {
            counter: self.counter,
            devices: self.device_list@.map_values(|d: DeviceInfo| d@),
        }
    }
}

/// One miner and the tokens it has mined.
pub ghost struct MinerModel {
    pub owner: Seq<u8>,
    pub token_balance: u64,
}

#[derive(Clone, Copy, Debug)]
pub struct MinerInfo {
    pub owner: Pubkey,
    pub token_balance: u64,
}

impl View for MinerInfo {
    type V = MinerModel;

    open spec fn view(&self) -> MinerModel {
        MinerModel { owner: self.owner@, token_balance: self.token_balance }
    }
}

/// The persisted miners, one entry per identity.
pub ghost struct MinerRegistryModel {
    pub counter: u32,
    pub miners: Seq<MinerModel>,
}

#[derive(Debug)]
pub struct MinerRegistry {
    pub counter: u32,
    pub miner_dic: Vec<MinerInfo>,
}

impl View for MinerRegistry {
    type V = MinerRegistryModel;

    open spec fn view(&self) -> MinerRegistryModel {
        MinerRegistryModel {
            counter: self.counter,
            miners: self.miner_dic@.map_values(|m: MinerInfo| m@),
        }
    }
}

/// Whether some device in `devices` has hardware address `mac`.
pub open spec fn holds_mac(devices: Seq<DeviceModel>, mac: Seq<char>) -> bool {
    exists|i: int| 0 <= i < devices.len() && devices[i].mac_addr == mac
}

/// `i` is the first position in `devices` with hardware address `mac`.
pub open spec fn first_mac(devices: Seq<DeviceModel>, mac: Seq<char>, i: int) -> bool {
    &&& 0 <= i < devices.len()
    &&& devices[i].mac_addr == mac
    &&& forall|j: int| 0 <= j < i ==> devices[j].mac_addr != mac
}

/// The first position in `devices` with hardware address `mac`, when there is one.
pub open spec fn first_index(devices: Seq<DeviceModel>, mac: Seq<char>) -> int {
    choose|i: int| first_mac(devices, mac, i)
}

/// `first_index` names the position that `first_mac` holds of.
pub proof fn lemma_first_index(devices: Seq<DeviceModel>, mac: Seq<char>, i: int)
    requires
        first_mac(devices, mac, i),
    ensures
        first_index(devices, mac) == i,
{
    let j = first_index(devices, mac);
    assert(first_mac(devices, mac, j));
}

/// The devices after crediting `amount` to the first one with address `mac`;
/// unchanged when there is none.
pub open spec fn after_credit_devices(devices: Seq<DeviceModel>, mac: Seq<char>, amount: u64) -> Seq<
    DeviceModel,
> {
    if holds_mac(devices, mac) {
        let i = first_index(devices, mac);
        devices.update(
            i,
            DeviceModel { token_balance: sat_add(devices[i].token_balance, amount), ..devices[i] },
        )
    } else {
        devices
    }
}

/// Whether a token can be mined from the device with address `mac`: it is
/// listed and its first entry holds a token.
pub open spec fn can_mine(devices: Seq<DeviceModel>, mac: Seq<char>) -> bool {
    holds_mac(devices, mac) && devices[first_index(devices, mac)].token_balance > 0
}

/// The devices after taking one token from the first one with address `mac`.
pub open spec fn after_mine_devices(devices: Seq<DeviceModel>, mac: Seq<char>) -> Seq<DeviceModel> {
    let i = first_index(devices, mac);
    devices.update(
        i,
        DeviceModel { token_balance: (devices[i].token_balance - 1) as u64, ..devices[i] },
    )
}

/// The counter after one more registration attempt; it wraps at 2^32.
pub open spec fn next_count(c: u32) -> u32 {
    if c == u32::MAX {
        0
    } else {
        (c + 1) as u32
    }
}

/// The device list after registering `d`: appended unless its address is taken.
pub open spec fn after_register(devices: Seq<DeviceModel>, d: DeviceModel) -> Seq<DeviceModel> {
    if holds_mac(devices, d.mac_addr) {
        devices
    } else {
        devices.push(d)
    }
}

/// `a + b`, held at the largest `u64` when it would exceed it.
pub open spec fn sat_add(a: u64, b: u64) -> u64 {
    if a + b > u64::MAX {
        u64::MAX
    } else {
        (a + b) as u64
    }
}

/// Whether some miner in `miners` has identity `k`.
pub open spec fn holds_key(miners: Seq<MinerModel>, k: Seq<u8>) -> bool {
    exists|i: int| 0 <= i < miners.len() && miners[i].owner == k
}

/// No identity occurs twice among `miners`.
pub open spec fn keys_unique(miners: Seq<MinerModel>) -> bool {
    forall|i: int, j: int|
        0 <= i < miners.len() && 0 <= j < miners.len() && i != j ==> miners[i].owner != miners[j].owner
}

/// The miners after making sure that `k` has an entry: a zero-balance one is appended if absent.
pub open spec fn after_ensure(miners: Seq<MinerModel>, k: Seq<u8>) -> Seq<MinerModel> {
    if holds_key(miners, k) {
        miners
    } else {
        miners.push(MinerModel { owner: k, token_balance: 0 })
    }
}

/// The miners after adding `amount` to the balance of identity `k`, held at the largest `u64`.
pub open spec fn after_credit(miners: Seq<MinerModel>, k: Seq<u8>, amount: u64) -> Seq<MinerModel> {
    miners.map_values(
        |m: MinerModel|
            if m.owner == k {
                MinerModel { token_balance: sat_add(m.token_balance, amount), ..m }
            } else {
                m
            },
    )
}

/// The positions of `miners` whose identity is `k`.
pub open spec fn positions_of(miners: Seq<MinerModel>, k: Seq<u8>) -> Set<int> {
    Set::new(|i: int| 0 <= i < miners.len() && miners[i].owner == k)
}

impl DeviceRegistry {
    /// Counts a registration attempt, then appends `device` unless a device with
    /// its hardware address is already listed. The count is taken either way.
    pub fn register(&mut self, device: DeviceInfo) -> (r: Result<(), RegistryError>)
        ensures
            final(self)@.counter == next_count(old(self)@.counter),
            final(self)@.devices == after_register(old(self)@.devices, device@),
            r is Err <==> holds_mac(old(self)@.devices, device@.mac_addr),
            r is Err ==> r == Err::<(), RegistryError>(RegistryError::Conflict),
    {
        self.counter = if self.counter == u32::MAX {
            0
        } else {
            self.counter + 1
        };
        let mut i: usize = 0;
        while i < self.device_list.len()
            invariant
                i <= self.device_list@.len(),
                self@.devices == old(self)@.devices,
                self@.counter == next_count(old(self)@.counter),
                forall|j: int| 0 <= j < i ==> self@.devices[j].mac_addr != device@.mac_addr,
            decreases self.device_list@.len() - i,
        {
            if self.device_list[i].mac_addr == device.mac_addr {
                assert(self@.devices[i as int].mac_addr == device@.mac_addr);
                return Err(RegistryError::Conflict);
            }
            i += 1;
        }
        self.device_list.push(device);
        assert(self@.devices =~= old(self)@.devices.push(device@));
        Ok(())
    }

    /// The position of the first device with hardware address `mac`, if any.
    pub fn find(&self, mac: &String) -> (r: Option<usize>)
        ensures
            r is None <==> !holds_mac(self@.devices, mac@),
            r matches Some(i) ==> first_mac(self@.devices, mac@, i as int) && i == first_index(
                self@.devices,
                mac@,
            ),
    {
        let mut i: usize = 0;
        while i < self.device_list.len()
            invariant
                i <= self.device_list@.len(),
                forall|j: int| 0 <= j < i ==> self@.devices[j].mac_addr != mac@,
            decreases self.device_list@.len() - i,
        {
            if self.device_list[i].mac_addr == *mac {
                proof {
                    lemma_first_index(self@.devices, mac@, i as int);
                }
                return Some(i);
            }
            i += 1;
        }
        None
    }

    /// Adds `amount` to the balance of the first device with address `mac`,
    /// held at the largest `u64`. Without such a device nothing changes.
    pub fn credit(&mut self, mac: &String, amount: u64)
        ensures
            final(self)@.counter == old(self)@.counter,
            final(self)@.devices == after_credit_devices(old(self)@.devices, mac@, amount),
            !holds_mac(old(self)@.devices, mac@) ==> final(self)@ == old(self)@,
    {
        match self.find(mac) {
            None => {},
            Some(i) => {
                let b = self.device_list[i].token_balance;
                self.device_list[i].token_balance = b.saturating_add(amount);
                assert(self@.devices =~= after_credit_devices(old(self)@.devices, mac@, amount));
            },
        }
    }
}

impl MinerRegistry {
    /// No identity has two entries.
    pub open spec fn wf(&self) -> bool {
        keys_unique(self@.miners)
    }

    /// The position of the entry for `owner`, if any.
    pub fn find(&self, owner: &Pubkey) -> (r: Option<usize>)
        ensures
            r is None <==> !holds_key(self@.miners, owner@),
            r matches Some(i) ==> i < self@.miners.len() && self@.miners[i as int].owner == owner@,
    {
        let mut i: usize = 0;
        while i < self.miner_dic.len()
            invariant
                i <= self.miner_dic@.len(),
                forall|j: int| 0 <= j < i ==> self@.miners[j].owner != owner@,
            decreases self.miner_dic@.len() - i,
        {
            if self.miner_dic[i].owner.same_as(owner) {
                assert(self@.miners[i as int].owner == owner@);
                return Some(i);
            }
            i += 1;
        }
        None
    }

    /// Gives `owner` an entry with a zero balance unless it has one already.
    pub fn ensure_miner(&mut self, owner: Pubkey)
        requires
            old(self).wf(),
        ensures
            final(self).wf(),
            final(self)@.counter == old(self)@.counter,
            final(self)@.miners == after_ensure(old(self)@.miners, owner@),
    {
        match self.find(&owner) {
            Some(_) => {},
            None => {
                self.miner_dic.push(MinerInfo { owner, token_balance: 0 });
                assert(self@.miners =~= old(self)@.miners.push(
                    MinerModel { owner: owner@, token_balance: 0 },
                ));
            },
        }
    }

    /// Adds `amount` to the balance of `owner`, held at the largest `u64`;
    /// nothing changes when `owner` has no entry.
    pub fn credit(&mut self, owner: &Pubkey, amount: u64)
        requires
            old(self).wf(),
        ensures
            final(self).wf(),
            final(self)@.counter == old(self)@.counter,
            final(self)@.miners == after_credit(old(self)@.miners, owner@, amount),
    {
        match self.find(owner) {
            None => {
                assert(self@.miners =~= after_credit(old(self)@.miners, owner@, amount));
            },
            Some(i) => {
                let b = self.miner_dic[i].token_balance;
                self.miner_dic[i].token_balance = b.saturating_add(amount);
                assert(self@.miners =~= after_credit(old(self)@.miners, owner@, amount));
            },
        }
    }
}

/// Moves one token from the first device with address `mac` to the miner
/// `miner`, whose entry is made first if it has none. When that device is
/// missing or has no tokens, nothing changes.
pub fn mine_from(
    devices: &mut DeviceRegistry,
    miners: &mut MinerRegistry,
    mac: &String,
    miner: Pubkey,
) -> (r: Result<(), RegistryError>)
    requires
        old(miners).wf(),
    ensures
        final(miners).wf(),
        r is Ok <==> can_mine(old(devices)@.devices, mac@),
        r is Err ==> {
            &&& r == Err::<(), RegistryError>(RegistryError::NotFound)
            &&& final(devices)@ == old(devices)@
            &&& final(miners)@ == old(miners)@
        },
        r is Ok ==> {
            &&& first_mac(old(devices)@.devices, mac@, first_index(old(devices)@.devices, mac@))
            &&& final(devices)@.counter == old(devices)@.counter
            &&& final(devices)@.devices == after_mine_devices(old(devices)@.devices, mac@)
            &&& final(miners)@.counter == old(miners)@.counter
            &&& final(miners)@.miners == after_credit(
                after_ensure(old(miners)@.miners, miner@),
                miner@,
                1,
            )
        },
{
    let i = match devices.find(mac) {
        None => return Err(RegistryError::NotFound),
        Some(i) => i,
    };
    let b = devices.device_list[i].token_balance;
    if b == 0 {
        return Err(RegistryError::NotFound);
    }
    miners.ensure_miner(miner);
    miners.credit(&miner, 1);
    devices.device_list[i].token_balance = b - 1;
    assert(devices@.devices =~= after_mine_devices(old(devices)@.devices, mac@));
    Ok(())
}
/// Registering a second device with the hardware address of a first one is
/// refused and leaves the list, and its length, as the first registration left it.
pub proof fn lemma_register_same_mac_twice(devices: Seq<DeviceModel>, a: DeviceModel, b: DeviceModel)
    requires
        a.mac_addr == b.mac_addr,
    ensures
        holds_mac(after_register(devices, a), b.mac_addr),
        after_register(after_register(devices, a), b) == after_register(devices, a),
        after_register(after_register(devices, a), b).len() == after_register(devices, a).len(),
{
    let once = after_register(devices, a);
    if !holds_mac(devices, a.mac_addr) {
        assert(once[devices.len() as int] == a);
    }
}

/// Making sure of a miner's entry twice gives what doing it once gives, and the
/// identity then has exactly one entry.
pub proof fn lemma_ensure_miner_twice(miners: Seq<MinerModel>, k: Seq<u8>)
    requires
        keys_unique(miners),
    ensures
        after_ensure(after_ensure(miners, k), k) == after_ensure(miners, k),
        positions_of(after_ensure(after_ensure(miners, k), k), k).len() == 1,
{
    let once = after_ensure(miners, k);
    let i = if holds_key(miners, k) {
        choose|i: int| 0 <= i < miners.len() && miners[i].owner == k
    } else {
        miners.len() as int
    };
    assert(0 <= i < once.len() && once[i].owner == k);
    assert(holds_key(once, k));
    assert forall|j: int| 0 <= j < once.len() && once[j].owner == k implies j == i by {
        if !holds_key(miners, k) && j < miners.len() {
            assert(miners[j].owner == k);
        }
    }
    assert(positions_of(once, k) =~= set![i]);
}

} // verus!
