//! Pass accounts: an account is registered for a hashed user id with a first device, which the
//! runtime's authenticator attested; devices are then added and removed, and session keys act
//! for the account for a while. Each account, device and session key is backed by a deposit,
//! counted per account.

use std::collections::HashMap;
use vstd::prelude::*;

use crate::authn::{attestation_verified, same_authority, user_verified, Authenticator, DeviceChallengeResponse, DeviceId, ExtrinsicContext, HashedUserId, UserAuthenticator, UserChallengeResponse};
use crate::dispatch::DispatchError;
use crate::pass::consideration::{dec_count, inc_count, Consideration, ConsiderationHandler};
use crate::scale::{blake2_256, blake2_256_of, decode_u64, u64_from_le};

verus! {

broadcast use vstd::std_specs::hash::group_hash_axioms;

pub type AccountId = u64;

pub type BlockNumber = u64;

/// Why a call failed.
#[derive(Clone, Copy, Debug, PartialEq, Eq)]
pub enum Error {
    AccountAlreadyRegistered,
    AccountNotFound,
    CredentialInvalid,
    DeviceAttestationInvalid,
    DeviceNotFound,
    SessionExpired,
    SessionNotFound,
    AccountForSessionKeyAlreadyExists,
    InvalidConsideration,
    /// The signer is not a pass account.
    BadOrigin,
    /// A deposit could not be taken, adjusted or given back.
    Consideration(DispatchError),
}

/// Why funds are held by the pallet.
#[derive(Clone, Copy, Debug, PartialEq, Eq, Structural)]
pub enum HoldReason {
    /// For registering an account; released when the account is killed.
    AccountRegistration,
    /// For storing devices; released when they are removed.
    AccountDevices,
    /// For storing session keys; released when they expire.
    SessionKeys,
}

/// What a call reports.
#[derive(Clone, Copy, Debug, PartialEq, Eq)]
pub enum Event {
    Registered { who: AccountId },
    DeviceAdded { who: AccountId, device_id: DeviceId },
    DeviceRemoved { who: AccountId, device_id: DeviceId },
    SessionCreated { session_key: AccountId, until: BlockNumber },
    SessionRemoved { session_key: AccountId },
}

/// The parameters of the pallet: the longest a session lasts, and the sizes by which the
/// deposits of accounts, devices and session keys are counted.
#[derive(Clone, Copy, Debug, PartialEq, Eq, Structural)]
pub struct PassConfig {
    pub max_session_duration: BlockNumber,
    pub user_id_size: usize,
    pub device_size: usize,
    pub session_key_size: usize,
}

/// A device of an account, by its id.
pub struct DeviceEntry<D> {
    pub id: DeviceId,
    pub device: D,
}

/// The zeros that come before a user id when its address is derived.
pub open spec fn address_input(user: Seq<u8>) -> Seq<u8> {
    Seq::new(32, |i: int| 0u8) + user
}

/// The address of a user: the first eight bytes, read as a little-endian number, of the hash of
/// thirty-two zeros followed by the user id.
pub open spec fn address_of(user: HashedUserId) -> AccountId {
    u64_from_le(blake2_256_of(address_input(user@)))
}

/// Generates the account address of a hashed user id.
pub trait AddressGenerator {
    fn generate_address(id: HashedUserId) -> AccountId;
}

/// The address of a user id, as `address_of` says.
impl AddressGenerator for () {
    fn generate_address(id: HashedUserId) -> (r: AccountId)
        ensures
            r == address_of(id),
    {
        let mut input: Vec<u8> = Vec::new();
        let mut i: usize = 0;
        while i < 32
            invariant
                0 <= i <= 32,
                input@ == Seq::new(i as nat, |j: int| 0u8),
            decreases 32 - i,
        {
            input.push(0u8);
            i = i + 1;
            assert(input@ =~= Seq::new(i as nat, |j: int| 0u8));
        }
        let mut j: usize = 0;
        while j < 32
            invariant
                0 <= j <= 32,
                id@.len() == 32,
                input@ == Seq::new(32, |k: int| 0u8) + id@.take(j as int),
            decreases 32 - j,
        {
            input.push(id[j]);
            j = j + 1;
            assert(input@ =~= Seq::new(32, |k: int| 0u8) + id@.take(j as int));
        }
        assert(id@.take(32) =~= id@);
        let hash = blake2_256(input.as_slice());
        match decode_u64(&hash) {
            Some(a) => a,
            None => 0,
        }
    }
}

/// The index of the device `id` among an account's devices, if it is there.
pub open spec fn device_index<D>(entries: Seq<DeviceEntry<D>>, id: DeviceId) -> Option<int>
    decreases entries.len(),
{
    if entries.len() == 0 {
        None
    } else if entries.last().id@ == id@ {
        Some(entries.len() - 1)
    } else {
        device_index(entries.drop_last(), id)
    }
}

/// No device id occurs twice among an account's devices.
pub open spec fn distinct_ids<D>(entries: Seq<DeviceEntry<D>>) -> bool {
    forall|i: int, j: int|
        0 <= i < j < entries.len() ==> #[trigger] entries[i].id@ != #[trigger] entries[j].id@
}

proof fn lemma_device_index<D>(entries: Seq<DeviceEntry<D>>, id: DeviceId)
    ensures
        match device_index(entries, id) {
            Some(i) => 0 <= i < entries.len() && entries[i].id@ == id@,
            None => forall|k: int| 0 <= k < entries.len() ==> #[trigger] entries[k].id@ != id@,
        },
    decreases entries.len(),
{
    if entries.len() > 0 {
        lemma_device_index(entries.drop_last(), id);
        if entries.last().id@ != id@ {
            assert forall|k: int| 0 <= k < entries.len() - 1 implies #[trigger] entries[k].id@
                == entries.drop_last()[k].id@ by {}
        }
    }
}

/// The devices of the accounts after the device `id` is stored for `address` (replacing a
/// device with the same id).
pub open spec fn with_device<D>(
    devices: Map<AccountId, Seq<DeviceEntry<D>>>,
    address: AccountId,
    id: DeviceId,
    device: D,
) -> Map<AccountId, Seq<DeviceEntry<D>>> {
    let entries = if devices.contains_key(address) {
        devices[address]
    } else {
        Seq::empty()
    };
    let entry = DeviceEntry { id, device };
    match device_index(entries, id) {
        Some(i) => devices.insert(address, entries.update(i, entry)),
        None => devices.insert(address, entries.push(entry)),
    }
}

/// The devices of the accounts after the device `id` of `address` is removed; an account left
/// with no device has no entry.
pub open spec fn without_device<D>(
    devices: Map<AccountId, Seq<DeviceEntry<D>>>,
    address: AccountId,
    id: DeviceId,
) -> Map<AccountId, Seq<DeviceEntry<D>>> {
    let entries = devices[address];
    match device_index(entries, id) {
        Some(i) => if entries.len() == 1 {
            devices.remove(address)
        } else {
            devices.insert(address, entries.remove(i))
        },
        None => devices,
    }
}

/// Whether `address` has the device `id`.
pub open spec fn has_device<D>(devices: Map<AccountId, Seq<DeviceEntry<D>>>, address: AccountId, id: DeviceId) -> bool {
    devices.contains_key(address) && device_index(devices[address], id) is Some
}

/// Removing a device that was just added gives the devices back: adding and removing a new
/// device of an account leaves every account's devices as they were.
pub proof fn lemma_remove_undoes_add<D>(
    devices: Map<AccountId, Seq<DeviceEntry<D>>>,
    address: AccountId,
    id: DeviceId,
    device: D,
)
    requires
        forall|a: AccountId| #[trigger] devices.contains_key(a) ==> devices[a].len() > 0,
        !has_device(devices, address, id),
    ensures
        has_device(with_device(devices, address, id, device), address, id),
        without_device(with_device(devices, address, id, device), address, id) == devices,
{
    let entries = if devices.contains_key(address) {
        devices[address]
    } else {
        Seq::empty()
    };
    let added = entries.push(DeviceEntry { id, device });
    assert(added.drop_last() =~= entries);
    assert(device_index(added, id) == Some(entries.len() as int));
    assert(device_index(entries, id) is None);
    assert(added.remove(entries.len() as int) =~= entries);
    if devices.contains_key(address) {
        assert(devices.insert(address, entries) =~= devices);
    } else {
        assert(devices.insert(address, added).remove(address) =~= devices);
    }
}

/// The name of the scheduled removal of a session key: the hash of the SCALE encoding of the
/// text `remove_session_key` (its length, compact, then its bytes) and of the key.
pub open spec fn session_task_name(session_key: AccountId) -> Seq<u8> {
    blake2_256_of(
        seq![72u8] + seq![
            114u8, 101u8, 109u8, 111u8, 118u8, 101u8, 95u8, 115u8, 101u8, 115u8, 115u8, 105u8,
            111u8, 110u8, 95u8, 107u8, 101u8, 121u8,
        ] + crate::scale::le_bytes_u64(session_key),
    )
}

/// The name under which the removal of a session key is scheduled.
pub fn task_name_from_session_key(session_key: AccountId) -> (r: [u8; 32])
    ensures
        r@ == session_task_name(session_key),
{
    let mut input: Vec<u8> = vec![
        72u8, 114u8, 101u8, 109u8, 111u8, 118u8, 101u8, 95u8, 115u8, 101u8, 115u8, 115u8, 105u8,
        111u8, 110u8, 95u8, 107u8, 101u8, 121u8,
    ];
    let ghost prefix = input@;
    let encoded = crate::scale::encode_u64(session_key);
    let mut i: usize = 0;
    while i < encoded.len()
        invariant
            0 <= i <= encoded@.len(),
            input@ == prefix + encoded@.take(i as int),
        decreases encoded@.len() - i,
    {
        input.push(encoded[i]);
        i = i + 1;
        assert(input@ =~= prefix + encoded@.take(i as int));
    }
    assert(encoded@.take(encoded@.len() as int) =~= encoded@);
    assert(input@ =~= seq![72u8] + seq![
        114u8, 101u8, 109u8, 111u8, 118u8, 101u8, 95u8, 115u8, 101u8, 115u8, 115u8, 105u8,
        111u8, 110u8, 95u8, 107u8, 101u8, 121u8,
    ] + crate::scale::le_bytes_u64(session_key));
    blake2_256(input.as_slice())
}

/// A deposit bookkeeping where `address`'s count went up (or down) by one, its ticket being
/// its previous one (or a new one) that `C::update` recharged for the new count of items of
/// `size` bytes, and nothing else changed.
pub open spec fn bumped<C: Consideration<u64> + Clone>(
    old: Map<u64, (C, u32)>,
    new: Map<u64, (C, u32)>,
    address: u64,
    up: bool,
    size: usize,
) -> bool {
    &&& new.dom() == old.dom().insert(address)
    &&& ConsiderationHandler::recharged(old, new, address, size, moved_count(old, address, up), Ok(()))
    &&& forall|a: u64| a != address && #[trigger] old.contains_key(a) ==> new[a] == old[a]
}

/// The count of `address` after it went up (or down) by one, saturating.
pub open spec fn moved_count<C>(m: Map<u64, (C, u32)>, address: u64, up: bool) -> u32 {
    let c = ConsiderationHandler::count_of(m, address);
    if up {
        inc_count(c)
    } else {
        dec_count(c)
    }
}

/// The deposit bookkeeping refused to move `address`'s count by one, with `e`: the error that
/// `C::new` or `C::update` returned.
pub open spec fn refused<C: Consideration<u64> + Clone>(
    m: Map<u64, (C, u32)>,
    address: u64,
    up: bool,
    size: usize,
    e: DispatchError,
) -> bool {
    ConsiderationHandler::recharged(m, m, address, size, moved_count(m, address, up), Err(e))
}

/// The state of the pallet.
pub struct PassView<D, RC, DC, SC> {
    /// The accounts that exist, with their providers.
    pub accounts: Map<AccountId, u32>,
    /// The devices of each pass account: an account is a pass account while it has one.
    pub devices: Map<AccountId, Seq<DeviceEntry<D>>>,
    pub registrar_considerations: Map<u64, (RC, u32)>,
    pub device_considerations: Map<u64, (DC, u32)>,
    /// The session keys, with the pass account each acts for and how long it lasts.
    pub session_keys: Map<AccountId, (AccountId, BlockNumber)>,
    pub session_considerations: Map<u64, (SC, u32)>,
    /// The scheduled removals of session keys, with the delay they were scheduled with.
    pub scheduled_removals: Map<AccountId, BlockNumber>,
    pub config: PassConfig,
}

/// The device with id `id` of the account `address` (meaningful when it has one).
pub open spec fn device_of<D>(devices: Map<AccountId, Seq<DeviceEntry<D>>>, address: AccountId, id: DeviceId) -> D {
    devices[address][device_index(devices[address], id)->0].device
}

/// The wellformedness of the state: every pass account has at least one device, and no device
/// id occurs twice for an account.
pub open spec fn pass_wf<D, RC, DC, SC>(v: PassView<D, RC, DC, SC>) -> bool {
    forall|a: AccountId| #[trigger] v.devices.contains_key(a) ==> v.devices[a].len() > 0 && distinct_ids(v.devices[a])
}

/// The pallet.
pub struct Pass<D, RC, DC, SC> {
    accounts: HashMap<AccountId, u32>,
    devices: HashMap<AccountId, Vec<DeviceEntry<D>>>,
    registrar_considerations: HashMap<u64, (RC, u32)>,
    device_considerations: HashMap<u64, (DC, u32)>,
    session_keys: HashMap<AccountId, (AccountId, BlockNumber)>,
    session_considerations: HashMap<u64, (SC, u32)>,
    scheduled_removals: HashMap<AccountId, BlockNumber>,
    config: PassConfig,
}

/// The devices of each account, as sequences.
pub closed spec fn devices_view<D>(m: Map<AccountId, Vec<DeviceEntry<D>>>) -> Map<AccountId, Seq<DeviceEntry<D>>> {
    Map::new(|a: AccountId| m.contains_key(a), |a: AccountId| m[a]@)
}

impl<D, RC, DC, SC> View for Pass<D, RC, DC, SC> {
    type V = PassView<D, RC, DC, SC>;

    closed spec fn view(&self) -> PassView<D, RC, DC, SC> {
        PassView {
            accounts: self.accounts@,
            devices: devices_view(self.devices@),
            registrar_considerations: self.registrar_considerations@,
            device_considerations: self.device_considerations@,
            session_keys: self.session_keys@,
            session_considerations: self.session_considerations@,
            scheduled_removals: self.scheduled_removals@,
            config: self.config,
        }
    }
}

/// The state with other devices, and otherwise the same.
pub open spec fn with_devices<D, RC, DC, SC>(
    v: PassView<D, RC, DC, SC>,
    devices: Map<AccountId, Seq<DeviceEntry<D>>>,
) -> PassView<D, RC, DC, SC> {
    PassView { devices, ..v }
}

/// How long a session lasts: the duration asked for, or the longest when none is, capped at
/// the longest.
pub open spec fn session_length(duration: Option<BlockNumber>, max: BlockNumber) -> BlockNumber {
    match duration {
        Some(d) => if d < max {
            d
        } else {
            max
        },
        None => max,
    }
}

/// What registering the pass account of `user` for `registrar`, with the device `device_id`
/// that the authenticator made of its attestation (`attested`, `None` when it rejected it),
/// gives from the state `old`: the registrar's deposit is charged first; then an existing
/// account is refused, then a rejected attestation, then the account's device deposit is
/// charged. On success the account exists with one provider and its first device, both
/// deposits count one more, and the events say so; on any error nothing changed.
pub open spec fn registration<D, RC: Consideration<u64> + Clone, DC: Consideration<u64> + Clone, SC>(
    old: PassView<D, RC, DC, SC>,
    new: PassView<D, RC, DC, SC>,
    registrar: AccountId,
    user: HashedUserId,
    device_id: DeviceId,
    attested: Option<D>,
    r: Result<Vec<Event>, Error>,
) -> bool {
    let address = address_of(user);
    let exists = old.accounts.contains_key(address);
    &&& r is Err ==> new == old
    &&& r matches Ok(events) ==> {
        &&& !exists
        &&& attested is Some
        &&& new.accounts == old.accounts.insert(address, 1)
        &&& new.devices == with_device(old.devices, address, device_id, attested->0)
        &&& bumped(old.registrar_considerations, new.registrar_considerations, registrar, true, old.config.user_id_size)
        &&& bumped(old.device_considerations, new.device_considerations, address, true, old.config.device_size)
        &&& new.session_keys == old.session_keys
        &&& new.session_considerations == old.session_considerations
        &&& new.scheduled_removals == old.scheduled_removals
        &&& new.config == old.config
        &&& events@ == seq![Event::Registered { who: address }, Event::DeviceAdded { who: address, device_id }]
    }
    &&& r == Err::<Vec<Event>, Error>(Error::AccountAlreadyRegistered) ==> exists
    &&& exists ==> (r == Err::<Vec<Event>, Error>(Error::AccountAlreadyRegistered) || (r matches Err(
        Error::Consideration(e),
    ) && refused(old.registrar_considerations, registrar, true, old.config.user_id_size, e)))
    &&& r == Err::<Vec<Event>, Error>(Error::DeviceAttestationInvalid) ==> !exists && attested is None
    &&& !exists && attested is None ==> (r == Err::<Vec<Event>, Error>(Error::DeviceAttestationInvalid) || (
    r matches Err(Error::Consideration(e)) && refused(
        old.registrar_considerations,
        registrar,
        true,
        old.config.user_id_size,
        e,
    )))
    &&& !exists && attested is Some ==> (r is Ok || r matches Err(Error::Consideration(_)))
    &&& r matches Err(Error::Consideration(e)) ==> refused(
        old.registrar_considerations,
        registrar,
        true,
        old.config.user_id_size,
        e,
    ) || (!exists && attested is Some && (exists|mid: Map<u64, (RC, u32)>|
        #[trigger] bumped(old.registrar_considerations, mid, registrar, true, old.config.user_id_size))
        && refused(old.device_considerations, address, true, old.config.device_size, e))
    &&& (r is Ok || r matches Err(Error::Consideration(_)) || r == Err::<Vec<Event>, Error>(Error::AccountAlreadyRegistered)
        || r == Err::<Vec<Event>, Error>(Error::DeviceAttestationInvalid))
}

/// What the pass account `signer` adding the device `device_id`, that the authenticator made
/// of its attestation (`attested`, `None` when it rejected it), gives from the state `old`: a
/// signer that is not a pass account is refused, then a rejected attestation, then the device
/// deposit is charged. On success the device is added (replacing one with the same id), the
/// deposit counts one more, and the event says so; on any error nothing changed.
pub open spec fn device_addition<D, RC, DC: Consideration<u64> + Clone, SC>(
    old: PassView<D, RC, DC, SC>,
    new: PassView<D, RC, DC, SC>,
    signer: AccountId,
    device_id: DeviceId,
    attested: Option<D>,
    r: Result<Vec<Event>, Error>,
) -> bool {
    let is_pass = old.devices.contains_key(signer);
    &&& r is Err ==> new == old
    &&& r matches Ok(events) ==> {
        &&& is_pass
        &&& attested is Some
        &&& new == (PassView {
            devices: with_device(old.devices, signer, device_id, attested->0),
            device_considerations: new.device_considerations,
            ..old
        })
        &&& bumped(old.device_considerations, new.device_considerations, signer, true, old.config.device_size)
        &&& events@ == seq![Event::DeviceAdded { who: signer, device_id }]
    }
    &&& (r == Err::<Vec<Event>, Error>(Error::BadOrigin) <==> !is_pass)
    &&& (r == Err::<Vec<Event>, Error>(Error::DeviceAttestationInvalid) <==> is_pass && attested is None)
    &&& is_pass && attested is Some ==> (r is Ok || r matches Err(Error::Consideration(_)))
    &&& r matches Err(Error::Consideration(e)) ==> is_pass && attested is Some && refused(
        old.device_considerations,
        signer,
        true,
        old.config.device_size,
        e,
    )
}

impl<D, RC, DC, SC> Pass<D, RC, DC, SC> where
    RC: Consideration<AccountId> + Clone,
    DC: Consideration<AccountId> + Clone,
    SC: Consideration<AccountId> + Clone,
 {
    /// An empty pallet.
    pub fn new(config: PassConfig) -> (r: Self)
        ensures
            r@.accounts == Map::<AccountId, u32>::empty(),
            r@.devices == Map::<AccountId, Seq<DeviceEntry<D>>>::empty(),
            r@.registrar_considerations == Map::<u64, (RC, u32)>::empty(),
            r@.device_considerations == Map::<u64, (DC, u32)>::empty(),
            r@.session_keys == Map::<AccountId, (AccountId, BlockNumber)>::empty(),
            r@.session_considerations == Map::<u64, (SC, u32)>::empty(),
            r@.scheduled_removals == Map::<AccountId, BlockNumber>::empty(),
            r@.config == config,
            pass_wf(r@),
    {
        let r = Pass {
            accounts: HashMap::new(),
            devices: HashMap::new(),
            registrar_considerations: HashMap::new(),
            device_considerations: HashMap::new(),
            session_keys: HashMap::new(),
            session_considerations: HashMap::new(),
            scheduled_removals: HashMap::new(),
            config,
        };
        assert(r@.devices =~= Map::<AccountId, Seq<DeviceEntry<D>>>::empty());
        r
    }

    /// The address of a user.
    pub fn address_for(user: HashedUserId) -> (r: AccountId)
        ensures
            r == address_of(user),
    {
        <() as AddressGenerator>::generate_address(user)
    }

    /// Whether `who` is a pass account: whether it has a device.
    pub fn is_pass_account(&self, who: AccountId) -> (r: bool)
        ensures
            r == self@.devices.contains_key(who),
    {
        self.devices.contains_key(&who)
    }

    /// The pass account a session key acts for, if it is one.
    pub fn pass_account_from_session_key(&self, who: AccountId) -> (r: Option<AccountId>)
        ensures
            r == (if self@.session_keys.contains_key(who) {
                Some(self@.session_keys[who].0)
            } else {
                None
            }),
    {
        match self.session_keys.get(&who) {
            Some(s) => Some(s.0),
            None => None,
        }
    }

    /// Whether an account exists.
    pub fn account_exists(&self, who: AccountId) -> (r: bool)
        ensures
            r == self@.accounts.contains_key(who),
    {
        self.accounts.contains_key(&who)
    }

    /// Provisions a new account at `address`: refused when an account already exists there.
    pub fn create_account(&mut self, address: AccountId) -> (r: Result<Vec<Event>, Error>)
        ensures
            old(self)@.accounts.contains_key(address) ==> r == Err::<Vec<Event>, Error>(
                Error::AccountAlreadyRegistered,
            ) && final(self)@ == old(self)@,
            !old(self)@.accounts.contains_key(address) ==> (r matches Ok(events) && events@ == seq![
                Event::Registered { who: address },
            ]) && final(self)@ == (PassView { accounts: old(self)@.accounts.insert(address, 1), ..old(self)@ }),
    {
        if self.accounts.contains_key(&address) {
            return Err(Error::AccountAlreadyRegistered);
        }
        self.accounts.insert(address, 1);
        Ok(vec![Event::Registered { who: address }])
    }

    /// Whether `address` has the device `id`.
    pub fn has_device(&self, address: AccountId, id: &DeviceId) -> (r: bool)
        ensures
            r == has_device(self@.devices, address, *id),
    {
        match self.devices.get(&address) {
            None => false,
            Some(entries) => Self::find_entry(entries, id).is_some(),
        }
    }

    fn store_device(&mut self, address: AccountId, id: DeviceId, device: D)
        requires
            pass_wf(old(self)@),
        ensures
            final(self)@ == with_devices(old(self)@, with_device(old(self)@.devices, address, id, device)),
            pass_wf(final(self)@),
    {
        let mut entries = match self.devices.remove(&address) {
            Some(e) => e,
            None => Vec::new(),
        };
        let ghost before = entries@;
        proof {
            lemma_device_index(before, id);
            assert(before == (if old(self)@.devices.contains_key(address) {
                old(self)@.devices[address]
            } else {
                Seq::<DeviceEntry<D>>::empty()
            }));
            if old(self)@.devices.contains_key(address) {
                assert(distinct_ids(before));
            }
        }
        match Self::find_entry(&entries, &id) {
            Some(i) => {
                entries.set(i, DeviceEntry { id, device });
                proof {
                    let after = entries@;
                    assert(before[i as int].id@ == id@);
                    assert forall|k: int| 0 <= k < after.len() implies #[trigger] after[k].id@
                        == before[k].id@ by {
                        if k != i {
                            assert(after[k] == before[k]);
                        }
                    }
                    assert forall|a: int, b: int| 0 <= a < b < after.len() implies #[trigger] after[a].id@
                        != #[trigger] after[b].id@ by {
                        assert(after[a].id@ == before[a].id@);
                        assert(after[b].id@ == before[b].id@);
                        assert(before[a].id@ != before[b].id@);
                    }
                }
            },
            None => {
                entries.push(DeviceEntry { id, device });
                proof {
                    let after = entries@;
                    assert forall|a: int, b: int| 0 <= a < b < after.len() implies #[trigger] after[a].id@
                        != #[trigger] after[b].id@ by {
                        if b < before.len() {
                            assert(before[a].id@ != before[b].id@);
                        } else {
                            assert(before[a].id@ != id@);
                        }
                    }
                }
            },
        }
        let ghost after = entries@;
        assert(after.len() > 0);
        assert(distinct_ids(after));
        self.devices.insert(address, entries);
        assert(self@.devices =~= with_device(old(self)@.devices, address, id, device));
        assert forall|a: AccountId| #[trigger] self@.devices.contains_key(a) implies self@.devices[a].len() > 0
            && distinct_ids(self@.devices[a]) by {
            if a == address {
                assert(self@.devices[a] == after);
            } else {
                assert(old(self)@.devices.contains_key(a));
            }
        }
    }

    fn drop_device(&mut self, address: AccountId, id: &DeviceId)
        requires
            pass_wf(old(self)@),
            has_device(old(self)@.devices, address, *id),
        ensures
            final(self)@ == with_devices(old(self)@, without_device(old(self)@.devices, address, *id)),
            pass_wf(final(self)@),
    {
        let mut entries = match self.devices.remove(&address) {
            Some(e) => e,
            None => Vec::new(),
        };
        let ghost before = entries@;
        proof {
            lemma_device_index(before, *id);
            assert(before == old(self)@.devices[address]);
            assert(distinct_ids(before));
        }
        match Self::find_entry(&entries, id) {
            Some(i) => {
                if entries.len() == 1 {
                    assert(self@.devices =~= without_device(old(self)@.devices, address, *id));
                    return;
                }
                entries.remove(i);
                proof {
                    let after = entries@;
                    assert(after =~= before.remove(i as int));
                    assert(distinct_ids(after)) by {
                        assert forall|a: int, b: int| 0 <= a < b < after.len() implies #[trigger] after[a].id@
                            != #[trigger] after[b].id@ by {
                            let a0 = if a < i { a } else { a + 1 };
                            let b0 = if b < i { b } else { b + 1 };
                            assert(after[a] == before[a0]);
                            assert(after[b] == before[b0]);
                            assert(before[a0].id@ != before[b0].id@);
                        }
                    }
                }
            },
            None => {},
        }
        self.devices.insert(address, entries);
        assert(self@.devices =~= without_device(old(self)@.devices, address, *id));
    }

    /// Registers the pass account of `user` for `registrar`, with its first device: `attested`
    /// is what the authenticator made of the attestation of the device `device_id` (`None` when
    /// it rejected it). The registrar's deposit counts one more account, the account's one more
    /// device.
    pub fn register(&mut self, registrar: AccountId, user: HashedUserId, device_id: DeviceId, attested: Option<D>) -> (r:
        Result<Vec<Event>, Error>)
        requires
            pass_wf(old(self)@),
        ensures
            pass_wf(final(self)@),
            registration(old(self)@, final(self)@, registrar, user, device_id, attested, r),
    {
        let address = Self::address_for(user);
        let saved_registrars = self.registrar_considerations.clone();
        match ConsiderationHandler::increment(&mut self.registrar_considerations, registrar, self.config.user_id_size) {
            Err(e) => return Err(Error::Consideration(e)),
            Ok(()) => {},
        }
        if self.accounts.contains_key(&address) {
            self.registrar_considerations = saved_registrars;
            return Err(Error::AccountAlreadyRegistered);
        }
        let device = match attested {
            None => {
                self.registrar_considerations = saved_registrars;
                return Err(Error::DeviceAttestationInvalid);
            },
            Some(d) => d,
        };
        let ghost charged_registrars = self@.registrar_considerations;
        assert(bumped(old(self)@.registrar_considerations, charged_registrars, registrar, true, old(self)@.config.user_id_size));
        match ConsiderationHandler::increment(&mut self.device_considerations, address, self.config.device_size) {
            Err(e) => {
                self.registrar_considerations = saved_registrars;
                return Err(Error::Consideration(e));
            },
            Ok(()) => {},
        }
        self.accounts.insert(address, 1);
        assert(self@.devices == old(self)@.devices);
        self.store_device(address, device_id, device);
        Ok(vec![Event::Registered { who: address }, Event::DeviceAdded { who: address, device_id }])
    }

    /// Registers the pass account of `user` for `registrar` with the device that the
    /// authenticator `Au` takes out of `attestation`, verified in the extrinsic context `xtc`:
    /// the device's id is the one the attestation names.
    pub fn register_attested<Au: Authenticator<Device = D>, X: ExtrinsicContext + ?Sized>(
        &mut self,
        registrar: AccountId,
        user: HashedUserId,
        attestation: Au::DeviceAttestation,
        xtc: &X,
    ) -> (r: Result<Vec<Event>, Error>)
        requires
            pass_wf(old(self)@),
        ensures
            pass_wf(final(self)@),
            r is Err ==> final(self)@ == old(self)@,
            exists|attested: Option<D>|
                #[trigger] registration(
                    old(self)@,
                    final(self)@,
                    registrar,
                    user,
                    attestation.attested_device(),
                    attested,
                    r,
                ) && (attested is Some <==> attestation_verified::<Au>(attestation, xtc.context())),
    {
        let device_id = *attestation.device_id();
        let attested = Au::verify_device(attestation, xtc);
        self.register(registrar, user, device_id, attested)
    }

    /// The pass account `signer` adds the device that the authenticator `Au` takes out of
    /// `attestation`, verified in the extrinsic context `xtc`: the device's id is the one the
    /// attestation names.
    pub fn add_device_attested<Au: Authenticator<Device = D>, X: ExtrinsicContext + ?Sized>(
        &mut self,
        signer: AccountId,
        attestation: Au::DeviceAttestation,
        xtc: &X,
    ) -> (r: Result<Vec<Event>, Error>)
        requires
            pass_wf(old(self)@),
        ensures
            pass_wf(final(self)@),
            r is Err ==> final(self)@ == old(self)@,
            exists|attested: Option<D>|
                #[trigger] device_addition(old(self)@, final(self)@, signer, attestation.attested_device(), attested, r)
                    && (attested is Some <==> attestation_verified::<Au>(attestation, xtc.context())),
    {
        let device_id = *attestation.device_id();
        let attested = Au::verify_device(attestation, xtc);
        self.add_device(signer, device_id, attested)
    }

    /// The pass account `signer` adds the device `device_id`: `attested` is what the
    /// authenticator made of its attestation (`None` when it rejected it). A device with the
    /// same id is replaced; the account's deposit counts one more device.
    pub fn add_device(&mut self, signer: AccountId, device_id: DeviceId, attested: Option<D>) -> (r: Result<Vec<Event>, Error>)
        requires
            pass_wf(old(self)@),
        ensures
            pass_wf(final(self)@),
            device_addition(old(self)@, final(self)@, signer, device_id, attested, r),
    {
        if !self.devices.contains_key(&signer) {
            return Err(Error::BadOrigin);
        }
        let device = match attested {
            None => return Err(Error::DeviceAttestationInvalid),
            Some(d) => d,
        };
        match ConsiderationHandler::increment(&mut self.device_considerations, signer, self.config.device_size) {
            Err(e) => return Err(Error::Consideration(e)),
            Ok(()) => {},
        }
        let ghost charged = self@;
        self.store_device(signer, device_id, device);
        let events = vec![Event::DeviceAdded { who: signer, device_id }];
        proof {
            let expected = PassView {
                devices: with_device(old(self)@.devices, signer, device_id, device),
                device_considerations: self@.device_considerations,
                ..old(self)@
            };
            assert(self@ == with_devices(charged, with_device(charged.devices, signer, device_id, device)));
            assert(charged.devices == old(self)@.devices);
            assert(self@ == expected);
            assert(events@ =~= seq![Event::DeviceAdded { who: signer, device_id }]);
        }
        Ok(events)
    }

    /// The pass account `signer` removes its device `device_id`; the account's deposit counts
    /// one device less. An account without devices is no longer a pass account.
    pub fn remove_device(&mut self, signer: AccountId, device_id: DeviceId) -> (r: Result<Vec<Event>, Error>)
        requires
            pass_wf(old(self)@),
        ensures
            pass_wf(final(self)@),
            r is Err ==> final(self)@ == old(self)@,
            r matches Ok(events) ==> {
                &&& has_device(old(self)@.devices, signer, device_id)
                &&& final(self)@ == (PassView {
                    devices: without_device(old(self)@.devices, signer, device_id),
                    device_considerations: final(self)@.device_considerations,
                    ..old(self)@
                })
                &&& bumped(old(self)@.device_considerations, final(self)@.device_considerations, signer, false, old(self)@.config.device_size)
                &&& events@ == seq![Event::DeviceRemoved { who: signer, device_id }]
            },
            !old(self)@.devices.contains_key(signer) ==> r == Err::<Vec<Event>, Error>(Error::BadOrigin),
            old(self)@.devices.contains_key(signer) && !has_device(old(self)@.devices, signer, device_id) ==> r
                == Err::<Vec<Event>, Error>(Error::DeviceNotFound),
            has_device(old(self)@.devices, signer, device_id) ==> (r is Ok || r matches Err(Error::Consideration(_))),
            r matches Err(Error::Consideration(e)) ==> refused(
                old(self)@.device_considerations,
                signer,
                false,
                old(self)@.config.device_size,
                e,
            ),
    {
        if !self.devices.contains_key(&signer) {
            return Err(Error::BadOrigin);
        }
        if !self.has_device(signer, &device_id) {
            return Err(Error::DeviceNotFound);
        }
        match ConsiderationHandler::decrement(&mut self.device_considerations, signer, self.config.device_size) {
            Err(e) => return Err(Error::Consideration(e)),
            Ok(()) => {},
        }
        self.drop_device(signer, &device_id);
        Ok(vec![Event::DeviceRemoved { who: signer, device_id }])
    }

    /// Removes the session key, if there is one, and its scheduled removal.
    fn try_remove_session_key(&mut self, session_key: AccountId, events: &mut Vec<Event>) -> (r: Result<(), Error>)
        ensures
            final(self)@.accounts == old(self)@.accounts,
            final(self)@.devices == old(self)@.devices,
            final(self)@.registrar_considerations == old(self)@.registrar_considerations,
            final(self)@.device_considerations == old(self)@.device_considerations,
            final(self)@.config == old(self)@.config,
            r is Ok ==> final(self)@.scheduled_removals == old(self)@.scheduled_removals.remove(session_key),
            r is Ok ==> final(self)@.session_keys == old(self)@.session_keys.remove(session_key),
            r is Ok && old(self)@.session_keys.contains_key(session_key) ==> bumped(
                old(self)@.session_considerations,
                final(self)@.session_considerations,
                old(self)@.session_keys[session_key].0,
                false,
                old(self)@.config.session_key_size,
            ) && final(events)@ == old(events)@.push(Event::SessionRemoved { session_key }),
            r is Ok && !old(self)@.session_keys.contains_key(session_key) ==> final(self)@.session_considerations
                == old(self)@.session_considerations && final(events)@ == old(events)@,
            r is Err ==> (r matches Err(Error::Consideration(_)) && old(self)@.session_keys.contains_key(session_key)),
            r matches Err(Error::Consideration(e)) ==> refused(
                old(self)@.session_considerations,
                old(self)@.session_keys[session_key].0,
                false,
                old(self)@.config.session_key_size,
                e,
            ),
    {
        let owner = match self.session_keys.get(&session_key) {
            None => {
                self.scheduled_removals.remove(&session_key);
                return Ok(());
            },
            Some(s) => s.0,
        };
        match ConsiderationHandler::decrement(&mut self.session_considerations, owner, self.config.session_key_size) {
            Err(e) => return Err(Error::Consideration(e)),
            Ok(()) => {},
        }
        self.scheduled_removals.remove(&session_key);
        self.session_keys.remove(&session_key);
        events.push(Event::SessionRemoved { session_key });
        Ok(())
    }

    /// The pass account `signer` adds `session_key` for `duration` blocks (the longest when
    /// none is given, and never longer); a session of the same key is replaced. The key must
    /// not be an account. Its removal is scheduled after the duration.
    pub fn add_session_key(&mut self, signer: AccountId, session_key: AccountId, duration: Option<BlockNumber>) -> (r: Result<
        Vec<Event>,
        Error,
    >)
        requires
            pass_wf(old(self)@),
        ensures
            pass_wf(final(self)@),
            r is Err ==> final(self)@ == old(self)@,
            r matches Ok(events) ==> {
                let until = session_length(duration, old(self)@.config.max_session_duration);
                let removed = old(self)@.session_keys.contains_key(session_key);
                &&& old(self)@.devices.contains_key(signer)
                &&& !old(self)@.accounts.contains_key(session_key)
                &&& final(self)@.accounts == old(self)@.accounts
                &&& final(self)@.devices == old(self)@.devices
                &&& final(self)@.registrar_considerations == old(self)@.registrar_considerations
                &&& final(self)@.device_considerations == old(self)@.device_considerations
                &&& final(self)@.config == old(self)@.config
                &&& final(self)@.session_keys == old(self)@.session_keys.insert(session_key, (signer, until))
                &&& final(self)@.scheduled_removals == old(self)@.scheduled_removals.insert(session_key, until)
                &&& (exists|mid: Map<u64, (SC, u32)>| {
                    &&& bumped(old(self)@.session_considerations, mid, signer, true, old(self)@.config.session_key_size)
                    &&& if removed {
                        bumped(mid, final(self)@.session_considerations, old(self)@.session_keys[session_key].0, false, old(self)@.config.session_key_size)
                    } else {
                        final(self)@.session_considerations == mid
                    }
                })
                &&& events@ == (if removed {
                    seq![Event::SessionRemoved { session_key }, Event::SessionCreated { session_key, until }]
                } else {
                    seq![Event::SessionCreated { session_key, until }]
                })
            },
            !old(self)@.devices.contains_key(signer) ==> r == Err::<Vec<Event>, Error>(Error::BadOrigin),
            old(self)@.devices.contains_key(signer) && old(self)@.accounts.contains_key(session_key) ==> r == Err::<
                Vec<Event>,
                Error,
            >(Error::AccountForSessionKeyAlreadyExists),
            old(self)@.devices.contains_key(signer) && !old(self)@.accounts.contains_key(session_key) ==> (r is Ok
                || r matches Err(Error::Consideration(_))),
            r matches Err(Error::Consideration(e)) ==> refused(
                old(self)@.session_considerations,
                signer,
                true,
                old(self)@.config.session_key_size,
                e,
            ) || (old(self)@.session_keys.contains_key(session_key) && exists|mid: Map<u64, (SC, u32)>|
                #[trigger] bumped(old(self)@.session_considerations, mid, signer, true, old(self)@.config.session_key_size)
                    && refused(
                    mid,
                    old(self)@.session_keys[session_key].0,
                    false,
                    old(self)@.config.session_key_size,
                    e,
                )),
    {
        if !self.devices.contains_key(&signer) {
            return Err(Error::BadOrigin);
        }
        if self.accounts.contains_key(&session_key) {
            return Err(Error::AccountForSessionKeyAlreadyExists);
        }
        let saved_considerations = self.session_considerations.clone();
        let saved_keys = self.session_keys.clone();
        let saved_removals = self.scheduled_removals.clone();
        match ConsiderationHandler::increment(&mut self.session_considerations, signer, self.config.session_key_size) {
            Err(e) => return Err(Error::Consideration(e)),
            Ok(()) => {},
        }
        let ghost mid = self.session_considerations@;
        assert(bumped(old(self)@.session_considerations, mid, signer, true, old(self)@.config.session_key_size));
        let mut events: Vec<Event> = Vec::new();
        match self.try_remove_session_key(session_key, &mut events) {
            Err(e) => {
                self.session_considerations = saved_considerations;
                self.session_keys = saved_keys;
                self.scheduled_removals = saved_removals;
                return Err(e);
            },
            Ok(()) => {},
        }
        let max = self.config.max_session_duration;
        let until = match duration {
            Some(d) => if d < max {
                d
            } else {
                max
            },
            None => max,
        };
        self.session_keys.insert(session_key, (signer, until));
        self.scheduled_removals.insert(session_key, until);
        events.push(Event::SessionCreated { session_key, until });
        proof {
            assert(self@.session_keys =~= old(self)@.session_keys.insert(session_key, (signer, until)));
            assert(self@.scheduled_removals =~= old(self)@.scheduled_removals.insert(session_key, until));
            assert(self@.devices == old(self)@.devices);
            assert(bumped(old(self)@.session_considerations, mid, signer, true, old(self)@.config.session_key_size));
            if old(self)@.session_keys.contains_key(session_key) {
                assert(events@ =~= seq![Event::SessionRemoved { session_key }, Event::SessionCreated { session_key, until }]);
            } else {
                assert(events@ =~= seq![Event::SessionCreated { session_key, until }]);
            }
        }
        Ok(events)
    }

    /// Removes a session key (a call of the root), and its scheduled removal.
    pub fn remove_session_key(&mut self, session_key: AccountId) -> (r: Result<Vec<Event>, Error>)
        requires
            pass_wf(old(self)@),
        ensures
            pass_wf(final(self)@),
            r is Err ==> final(self)@ == old(self)@,
            r matches Ok(events) ==> {
                &&& final(self)@.accounts == old(self)@.accounts
                &&& final(self)@.devices == old(self)@.devices
                &&& final(self)@.registrar_considerations == old(self)@.registrar_considerations
                &&& final(self)@.device_considerations == old(self)@.device_considerations
                &&& final(self)@.config == old(self)@.config
                &&& final(self)@.session_keys == old(self)@.session_keys.remove(session_key)
                &&& final(self)@.scheduled_removals == old(self)@.scheduled_removals.remove(session_key)
                &&& if old(self)@.session_keys.contains_key(session_key) {
                    &&& bumped(
                        old(self)@.session_considerations,
                        final(self)@.session_considerations,
                        old(self)@.session_keys[session_key].0,
                        false,
                        old(self)@.config.session_key_size,
                    )
                    &&& events@ == seq![Event::SessionRemoved { session_key }]
                } else {
                    &&& final(self)@.session_considerations == old(self)@.session_considerations
                    &&& events@.len() == 0
                }
            },
            !old(self)@.session_keys.contains_key(session_key) ==> r is Ok,
            r is Err ==> r matches Err(Error::Consideration(_)),
            r matches Err(Error::Consideration(e)) ==> refused(
                old(self)@.session_considerations,
                old(self)@.session_keys[session_key].0,
                false,
                old(self)@.config.session_key_size,
                e,
            ),
    {
        let saved_considerations = self.session_considerations.clone();
        let saved_keys = self.session_keys.clone();
        let saved_removals = self.scheduled_removals.clone();
        let mut events: Vec<Event> = Vec::new();
        match self.try_remove_session_key(session_key, &mut events) {
            Err(e) => {
                self.session_considerations = saved_considerations;
                self.session_keys = saved_keys;
                self.scheduled_removals = saved_removals;
                return Err(e);
            },
            Ok(()) => {},
        }
        proof {
            if old(self)@.session_keys.contains_key(session_key) {
                assert(events@ =~= seq![Event::SessionRemoved { session_key }]);
            }
        }
        Ok(events)
    }
}

impl<D, RC, DC, SC> Pass<D, RC, DC, SC> {
    /// The pass account of `user`, when it has the device `device_id`.
    pub fn lookup_device(&self, user: HashedUserId, device_id: &DeviceId) -> (r: Result<AccountId, Error>)
        ensures
            !self@.devices.contains_key(address_of(user)) ==> r == Err::<AccountId, Error>(Error::AccountNotFound),
            self@.devices.contains_key(address_of(user)) && !has_device(self@.devices, address_of(user), *device_id)
                ==> r == Err::<AccountId, Error>(Error::DeviceNotFound),
            has_device(self@.devices, address_of(user), *device_id) ==> r == Ok::<AccountId, Error>(
                address_of(user),
            ),
    {
        let address = <() as AddressGenerator>::generate_address(user);
        match self.devices.get(&address) {
            None => Err(Error::AccountNotFound),
            Some(entries) => match Self::find_entry(entries, device_id) {
                Some(_) => Ok(address),
                None => Err(Error::DeviceNotFound),
            },
        }
    }

    fn find_entry(entries: &Vec<DeviceEntry<D>>, id: &DeviceId) -> (r: Option<usize>)
        ensures
            r matches Some(i) ==> device_index(entries@, *id) == Some(i as int) && i < entries@.len(),
            r is None ==> device_index(entries@, *id) is None,
    {
        let mut i: usize = entries.len();
        assert(entries@.take(entries@.len() as int) =~= entries@);
        while i > 0
            invariant
                0 <= i <= entries@.len(),
                device_index(entries@, *id) == device_index(entries@.take(i as int), *id),
            decreases i,
        {
            proof {
                assert(entries@.take(i as int).drop_last() =~= entries@.take(i - 1));
                assert(entries@.take(i as int).last() == entries@[i - 1]);
            }
            if same_authority(&entries[i - 1].id, id) {
                return Some(i - 1);
            }
            i = i - 1;
        }
        None
    }
}

impl<D: UserAuthenticator + Clone, RC, DC, SC> Pass<D, RC, DC, SC> {
    /// Authenticates the pass account of the credential's user with its device `device_id`:
    /// the device verifies the credential, bound to the extrinsic context `xtc`. An account
    /// that is missing or lacks the device is refused; otherwise the device's answer decides
    /// between the account and `CredentialInvalid`.
    pub fn authenticate<X: ExtrinsicContext + ?Sized>(
        &self,
        device_id: &DeviceId,
        credential: &D::Credential,
        xtc: &X,
    ) -> (r: Result<AccountId, Error>)
        ensures
            ({
                let address = address_of(credential.identified_user());
                &&& !self@.devices.contains_key(address) ==> r == Err::<AccountId, Error>(
                    Error::AccountNotFound,
                )
                &&& self@.devices.contains_key(address) && !has_device(self@.devices, address, *device_id)
                    ==> r == Err::<AccountId, Error>(Error::DeviceNotFound)
                &&& has_device(self@.devices, address, *device_id) ==> (r == Ok::<AccountId, Error>(address)
                    || r == Err::<AccountId, Error>(Error::CredentialInvalid))
                &&& has_device(self@.devices, address, *device_id) ==> exists|device: D|
                    #[trigger] cloned(device_of(self@.devices, address, *device_id), device) && (r == Ok::<
                        AccountId,
                        Error,
                    >(address) <==> user_verified(device, *credential, xtc.context()))
            }),
            r matches Ok(a) ==> has_device(self@.devices, a, *device_id),
            r matches Err(e) ==> (e == Error::AccountNotFound || e == Error::DeviceNotFound || e
                == Error::CredentialInvalid),
    {
        let user = credential.user_id();
        let address = match self.lookup_device(user, device_id) {
            Err(e) => return Err(e),
            Ok(a) => a,
        };
        let entries = match self.devices.get(&address) {
            None => return Err(Error::AccountNotFound),
            Some(entries) => entries,
        };
        let i = match Self::find_entry(entries, device_id) {
            None => return Err(Error::DeviceNotFound),
            Some(i) => i,
        };
        let mut device = entries[i].device.clone();
        proof {
            assert(cloned(device_of(self@.devices, address, *device_id), device));
        }
        match device.verify_user(credential, xtc) {
            Some(()) => Ok(address),
            None => Err(Error::CredentialInvalid),
        }
    }
}

} // verus!
