//! Choosing non-fungible items in a filter.

use vstd::prelude::*;

verus! {

/// Decides whether to select an item within a filter operation.
pub trait SelectNonFungibleItem<CollectionId, ItemId> {
    /// Returns `true` if the item should be selected.
    fn select(&self, collection_id: CollectionId, item_id: ItemId) -> bool;
}

/// Selects every item.
impl<C, I> SelectNonFungibleItem<C, I> for () {
    fn select(&self, collection_id: C, item_id: I) -> (r: bool)
        ensures
            r,
    {
        true
    }
}

/// A predicate on the collection and item selects what it holds for.
impl<CollectionId, ItemId, T> SelectNonFungibleItem<CollectionId, ItemId> for T where
    T: Fn(CollectionId, ItemId) -> bool,
    CollectionId: Clone,
    ItemId: Clone,
 {
    fn select(&self, collection_id: CollectionId, item_id: ItemId) -> bool {
        call_predicate(self, collection_id, item_id)
    }
}

/// Calls the caller's predicate (`Fn::call`): nothing is known of what a closure of the caller
/// answers, nor of the arguments it accepts, so this states nothing of the result.
#[verifier::external_body]
fn call_predicate<C, I, T: Fn(C, I) -> bool>(predicate: &T, collection_id: C, item_id: I) -> bool {
    predicate(collection_id, item_id)
}

} // verus!
