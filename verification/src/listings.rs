//! Listings: inventories of items offered by merchants, subscriptions to items, and the
//! disputes over the termination of a subscription.

use vstd::prelude::*;

use crate::dispatch::DispatchError;

verus! {

/// An identifier of merchants, inventories and items: a plain value that can be copied.
pub trait ListingsIdentifier: Copy {}

impl ListingsIdentifier for u8 {}

impl ListingsIdentifier for u16 {}

impl ListingsIdentifier for u32 {}

impl ListingsIdentifier for u64 {}

impl ListingsIdentifier for u128 {}

/// Reads the state of inventories, each identified by its merchant and its own id.
pub trait InspectInventory {
    type MerchantId: ListingsIdentifier;
    type InventoryId: ListingsIdentifier;

    /// Whether the inventory exists and is active.
    fn is_active(id: &(Self::MerchantId, Self::InventoryId)) -> bool;

    /// Whether the inventory exists.
    fn inventory_exists(id: &(Self::MerchantId, Self::InventoryId)) -> bool;

    /// The encoded value of an attribute of the inventory, by its encoded key.
    fn inventory_attribute(id: &(Self::MerchantId, Self::InventoryId), key: &[u8]) -> Option<Vec<u8>>;
}

/// Lists inventories.
pub trait InventoryInspectEnumerable: InspectInventory {
    /// All the inventories.
    fn all() -> Vec<(Self::MerchantId, Self::InventoryId)>;

    /// The inventories of a merchant.
    fn owned(who: &Self::MerchantId) -> Vec<(Self::MerchantId, Self::InventoryId)>;
}

/// Creates and archives inventories.
pub trait Lifecycle<AccountId>: InspectInventory {
    /// Creates an inventory owned by `owner`.
    fn create(id: (Self::MerchantId, Self::InventoryId), owner: &AccountId) -> Result<(), DispatchError>;

    /// Archives an inventory.
    fn archive(id: &(Self::MerchantId, Self::InventoryId)) -> Result<(), DispatchError>;
}

/// The price of an item.
#[derive(Clone, Debug, PartialEq, Eq)]
pub struct ItemPrice<Asset, Balance> {
    pub asset: Asset,
    pub amount: Balance,
}

/// An item of an inventory: its name, its owner and its price, if it is for sale.
#[derive(Clone, Debug, PartialEq, Eq)]
pub struct Item<AccountId, Asset, Balance> {
    pub name: Vec<u8>,
    pub owner: AccountId,
    pub price: Option<ItemPrice<Asset, Balance>>,
}

/// Reads the items of inventories, each item identified by its inventory and its own id.
pub trait InspectItem<AccountId> {
    type MerchantId: ListingsIdentifier;
    type InventoryId: ListingsIdentifier;
    type ItemId: ListingsIdentifier;
    type Asset;
    type Balance;

    fn item(
        inventory_id: &(Self::MerchantId, Self::InventoryId),
        id: &Self::ItemId,
    ) -> Option<Item<AccountId, Self::Asset, Self::Balance>>;

    fn creator(inventory_id: &(Self::MerchantId, Self::InventoryId), id: &Self::ItemId) -> Option<AccountId>;

    /// The encoded value of an attribute of the item, by its encoded key.
    fn attribute(inventory_id: &(Self::MerchantId, Self::InventoryId), id: &Self::ItemId, key: &[u8]) -> Option<
        Vec<u8>,
    >;

    fn transferable(inventory_id: &(Self::MerchantId, Self::InventoryId), id: &Self::ItemId) -> bool;

    fn can_resell(inventory_id: &(Self::MerchantId, Self::InventoryId), id: &Self::ItemId) -> bool;
}

/// Lists items.
pub trait ItemInspectEnumerable<AccountId>: InspectItem<AccountId> {
    /// The items of an inventory.
    fn items(inventory_id: &(Self::MerchantId, Self::InventoryId)) -> Vec<
        (Self::ItemId, Item<AccountId, Self::Asset, Self::Balance>),
    >;

    /// The items an account owns, with their inventories.
    fn owned(owner: &AccountId) -> Vec<
        ((Self::MerchantId, Self::InventoryId), Self::ItemId, Item<AccountId, Self::Asset, Self::Balance>),
    >;
}

/// Changes the items of inventories.
pub trait MutateItem<AccountId>: InspectItem<AccountId> {
    fn publish(
        inventory_id: &(Self::MerchantId, Self::InventoryId),
        id: &Self::ItemId,
        name: Vec<u8>,
        maybe_price: Option<ItemPrice<Self::Asset, Self::Balance>>,
    ) -> Result<(), DispatchError>;

    fn enable_resell(inventory_id: &(Self::MerchantId, Self::InventoryId), id: &Self::ItemId) -> Result<(), DispatchError>;

    fn disable_resell(inventory_id: &(Self::MerchantId, Self::InventoryId), id: &Self::ItemId) -> Result<(), DispatchError>;

    fn enable_transfer(inventory_id: &(Self::MerchantId, Self::InventoryId), id: &Self::ItemId) -> Result<(), DispatchError>;

    fn disable_transfer(inventory_id: &(Self::MerchantId, Self::InventoryId), id: &Self::ItemId) -> Result<(), DispatchError>;

    fn transfer(
        inventory_id: &(Self::MerchantId, Self::InventoryId),
        id: &Self::ItemId,
        beneficiary: &AccountId,
    ) -> Result<(), DispatchError>;

    fn set_price(
        inventory_id: &(Self::MerchantId, Self::InventoryId),
        id: &Self::ItemId,
        price: ItemPrice<Self::Asset, Self::Balance>,
    ) -> Result<(), DispatchError>;

    fn clear_price(inventory_id: &(Self::MerchantId, Self::InventoryId), id: &Self::ItemId) -> Result<(), DispatchError>;

    fn set_attribute(
        inventory_id: &(Self::MerchantId, Self::InventoryId),
        id: &Self::ItemId,
        key: &[u8],
        value: Vec<u8>,
    ) -> Result<(), DispatchError>;

    fn clear_attribute(
        inventory_id: &(Self::MerchantId, Self::InventoryId),
        id: &Self::ItemId,
        key: &[u8],
    ) -> Result<(), DispatchError>;
}

/// Changes inventories.
pub trait MutateInventory: InspectInventory {
    fn set_items_limit(id: &(Self::MerchantId, Self::InventoryId), limit: Option<usize>) -> Result<(), DispatchError>;

    fn set_inventory_attribute(
        id: &(Self::MerchantId, Self::InventoryId),
        key: &[u8],
        value: &[u8],
    ) -> Result<(), DispatchError>;

    fn clear_inventory_attribute(id: &(Self::MerchantId, Self::InventoryId), key: &[u8]) -> Result<(), DispatchError>;
}

/// What subscribing to an item costs, and how often.
pub struct SubscriptionConditions<Price, Moment> {
    pub price: Price,
    pub period: Moment,
}

/// An active subscription: what it costs, and when it is renewed next.
pub struct Subscription<Price, Moment> {
    pub price: Price,
    pub next_renewal: Moment,
}

/// The termination of a subscription, with the dispute over it, if any.
pub struct SubscriptionTermination<AccountId, Price, Moment, Reason> {
    pub when: Moment,
    pub reason: Reason,
    pub subscription: Subscription<Price, Moment>,
    pub maybe_dispute: Option<TerminationDispute<AccountId, Reason>>,
}

/// Where a dispute stands: submitted, assigned to a judge, in review by the judge, or decided by
/// the judge for a reason.
#[derive(Default)]
pub enum DisputeState<AccountId, Reason> {
    #[default]
    Submitted,
    Assigned(AccountId),
    InReview(AccountId),
    Accepted(AccountId, Reason),
    Rejected(AccountId, Reason),
}

/// A dispute over the termination of a subscription.
pub struct TerminationDispute<AccountId, Reason> {
    pub reason: Reason,
    pub state: DisputeState<AccountId, Reason>,
}

/// The judge a dispute is assigned to or reviewed by, when it is in one of those states.
pub open spec fn judge_of<AccountId, Reason>(state: DisputeState<AccountId, Reason>) -> Option<AccountId> {
    match state {
        DisputeState::Assigned(j) => Some(j),
        DisputeState::InReview(j) => Some(j),
        _ => None,
    }
}

/// The error every transition that does not apply to the dispute's state ends with.
pub open spec fn is_invalid_state<T>(r: Result<T, DispatchError>) -> bool {
    r matches Err(DispatchError::Other(s)) && s@ == "Invalid state"@
}

impl<AccountId: Clone, Reason> TerminationDispute<AccountId, Reason> {
    /// A new dispute for `reason`, just submitted.
    pub fn new(reason: Reason) -> (r: Self)
        ensures
            r.reason == reason,
            r.state is Submitted,
    {
        TerminationDispute { reason, state: DisputeState::Submitted }
    }

    /// Assigns a submitted dispute to `judge`.
    pub fn assign(&mut self, judge: AccountId) -> (r: Result<(), DispatchError>)
        ensures
            old(self).state is Submitted ==> r is Ok && final(self).state == DisputeState::<
                AccountId,
                Reason,
            >::Assigned(judge) && final(self).reason == old(self).reason,
            !(old(self).state is Submitted) ==> is_invalid_state(r) && *final(self) == *old(self),
    {
        match self.state {
            DisputeState::Submitted => {
                self.state = DisputeState::Assigned(judge);
                Ok(())
            },
            _ => Err(DispatchError::Other("Invalid state")),
        }
    }

    /// The judge a dispute is assigned to starts reviewing it.
    pub fn start_review(&mut self) -> (r: Result<(), DispatchError>)
        ensures
            old(self).state is Assigned ==> r is Ok && final(self).reason == old(self).reason && (
            final(self).state matches DisputeState::InReview(j) && cloned(
                old(self).state->Assigned_0,
                j,
            )),
            !(old(self).state is Assigned) ==> is_invalid_state(r) && *final(self) == *old(self),
    {
        match &self.state {
            DisputeState::Assigned(judge) => {
                let j = judge.clone();
                self.state = DisputeState::InReview(j);
                Ok(())
            },
            _ => Err(DispatchError::Other("Invalid state")),
        }
    }

    /// The judge of an assigned or reviewed dispute accepts it, for `reason`.
    pub fn approve(&mut self, reason: Reason) -> (r: Result<(), DispatchError>)
        ensures
            judge_of(old(self).state) is Some ==> r is Ok && final(self).reason == old(self).reason
                && (final(self).state matches DisputeState::Accepted(j, why) && why == reason
                && cloned(judge_of(old(self).state)->0, j)),
            judge_of(old(self).state) is None ==> is_invalid_state(r) && *final(self) == *old(self),
    {
        let judge = match &self.state {
            DisputeState::Assigned(judge) => judge.clone(),
            DisputeState::InReview(judge) => judge.clone(),
            _ => return Err(DispatchError::Other("Invalid state")),
        };
        self.state = DisputeState::Accepted(judge, reason);
        Ok(())
    }

    /// The judge of an assigned or reviewed dispute rejects it, for `reason`.
    pub fn reject(&mut self, reason: Reason) -> (r: Result<(), DispatchError>)
        ensures
            judge_of(old(self).state) is Some ==> r is Ok && final(self).reason == old(self).reason
                && (final(self).state matches DisputeState::Rejected(j, why) && why == reason
                && cloned(judge_of(old(self).state)->0, j)),
            judge_of(old(self).state) is None ==> is_invalid_state(r) && *final(self) == *old(self),
    {
        let judge = match &self.state {
            DisputeState::Assigned(judge) => judge.clone(),
            DisputeState::InReview(judge) => judge.clone(),
            _ => return Err(DispatchError::Other("Invalid state")),
        };
        self.state = DisputeState::Rejected(judge, reason);
        Ok(())
    }
}

/// Reads subscriptions to items.
pub trait InspectSubscription<AccountId>: InspectItem<AccountId> {
    type Moment;

    fn subscription_conditions(
        inventory_id: &(Self::MerchantId, Self::InventoryId),
        id: &Self::ItemId,
    ) -> Option<SubscriptionConditions<ItemPrice<Self::Asset, Self::Balance>, Self::Moment>>;

    fn subscription(
        inventory_id: &(Self::MerchantId, Self::InventoryId),
        id: &Self::ItemId,
    ) -> Option<Subscription<ItemPrice<Self::Asset, Self::Balance>, Self::Moment>>;

    /// The termination of a subscription, with its encoded reasons.
    fn dispute(inventory_id: &(Self::MerchantId, Self::InventoryId), id: &Self::ItemId) -> Option<
        SubscriptionTermination<AccountId, ItemPrice<Self::Asset, Self::Balance>, Self::Moment, Vec<u8>>,
    >;
}

/// Changes subscriptions to items.
pub trait MutateSubscription<AccountId>: InspectSubscription<AccountId> {
    fn publish(
        inventory_id: &(Self::MerchantId, Self::InventoryId),
        id: &Self::ItemId,
        name: Vec<u8>,
        conditions: SubscriptionConditions<ItemPrice<Self::Asset, Self::Balance>, Self::Moment>,
    ) -> Result<(), DispatchError>;

    fn set_conditions(
        inventory_id: &(Self::MerchantId, Self::InventoryId),
        id: &Self::ItemId,
        conditions: SubscriptionConditions<ItemPrice<Self::Asset, Self::Balance>, Self::Moment>,
    ) -> Result<(), DispatchError>;

    fn activate(inventory_id: &(Self::MerchantId, Self::InventoryId), id: &Self::ItemId) -> Result<(), DispatchError>;

    fn cancel(inventory_id: &(Self::MerchantId, Self::InventoryId), id: &Self::ItemId) -> Result<(), DispatchError>;

    fn terminate(inventory_id: &(Self::MerchantId, Self::InventoryId), id: &Self::ItemId) -> Result<(), DispatchError>;

    fn dispute_termination(
        inventory_id: &(Self::MerchantId, Self::InventoryId),
        id: &Self::ItemId,
        dispute_reason: Vec<u8>,
    ) -> Result<(), DispatchError>;

    fn resolve_termination_dispute(
        inventory_id: &(Self::MerchantId, Self::InventoryId),
        id: &Self::ItemId,
        dispute_reason: Vec<u8>,
    ) -> Result<(), DispatchError>;
}

} // verus!
