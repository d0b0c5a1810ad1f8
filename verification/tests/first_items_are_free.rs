use frame_contrib::dispatch::DispatchError;
use frame_contrib::pass::consideration::{
    Codec, Consideration, FirstItemIsFree, FirstItemsAreFree, Footprint,
};
use parity_scale_codec::{Decode, Encode, Output};

/// Records the footprint it was last charged for.
#[derive(Clone, Debug, Eq, PartialEq)]
struct Charged(Footprint);

impl Consideration<u64> for Charged {
    fn new(_: &u64, new: Footprint) -> Result<Self, DispatchError> {
        Ok(Self(new))
    }
    fn update(self, _: &u64, new: Footprint) -> Result<Self, DispatchError> {
        Ok(Self(new))
    }
    fn drop(self, _: &u64) -> Result<(), DispatchError> {
        Ok(())
    }
}

impl Encode for Charged {
    fn encode_to<T: Output + ?Sized>(&self, dest: &mut T) {
        self.0.count.encode_to(dest);
        self.0.size.encode_to(dest);
    }
}

impl Codec for Charged {
    fn encode(&self) -> Vec<u8> {
        Encode::encode(self)
    }
    fn decode(input: &[u8]) -> Option<(Self, usize)> {
        let mut rest = input;
        let count = u64::decode(&mut rest).ok()?;
        let size = u64::decode(&mut rest).ok()?;
        Some((Charged(Footprint { count, size }), 16))
    }
    fn max_encoded_len() -> usize {
        16
    }
}

type TwoFree = FirstItemsAreFree<2, Charged>;

fn items(count: u64) -> Footprint {
    Footprint {
        count,
        size: count * 10,
    }
}

#[test]
fn encodes_as_option_of_the_inner_consideration_for_any_n() {
    let inner = Some(Charged(items(3)));
    let expected = inner.encode();
    assert_eq!(
        FirstItemIsFree::<Charged>::wrap(inner.clone()).encode(),
        expected
    );
    assert_eq!(TwoFree::wrap(inner.clone()).encode(), expected);

    // So values written by `FirstItemIsFree` decode as `FirstItemsAreFree<N, _>`.
    assert_eq!(
        TwoFree::decode(&expected[..]).unwrap().0,
        TwoFree::wrap(inner)
    );
    assert_eq!(
        TwoFree::max_encoded_len(),
        FirstItemIsFree::<Charged>::max_encoded_len()
    );
}

#[test]
fn nesting_is_not_encoding_compatible() {
    // What `FirstItemIsFree<FirstItemIsFree<C>>` stores, for contrast.
    let nested = FirstItemIsFree::<FirstItemIsFree<Charged>>::wrap(Some(FirstItemIsFree::wrap(
        Some(Charged(items(1))),
    )));
    assert_ne!(nested.encode(), Some(Charged(items(1))).encode());
}

#[test]
fn only_items_beyond_n_are_charged() {
    assert_eq!(TwoFree::new(&0, items(1)).unwrap(), TwoFree::wrap(None));
    assert_eq!(TwoFree::new(&0, items(2)).unwrap(), TwoFree::wrap(None));
    assert_eq!(
        TwoFree::new(&0, items(3)).unwrap(),
        TwoFree::wrap(Some(Charged(Footprint { count: 1, size: 30 })))
    );
}

#[test]
fn first_item_is_free_behaves_as_before() {
    type OneFree = FirstItemIsFree<Charged>;
    assert_eq!(OneFree::new(&0, items(1)).unwrap(), OneFree::wrap(None));
    assert_eq!(
        OneFree::new(&0, items(2)).unwrap(),
        OneFree::wrap(Some(Charged(Footprint { count: 1, size: 20 })))
    );
    // `update` scales the size down to the charged items.
    assert_eq!(
        OneFree::wrap(Some(Charged(items(1))))
            .update(&0, items(4))
            .unwrap(),
        OneFree::wrap(Some(Charged(Footprint { count: 3, size: 30 })))
    );
}

#[test]
fn update_charges_once_beyond_n_and_releases_at_zero() {
    // Growing from free into charged.
    assert_eq!(
        TwoFree::wrap(None).update(&0, items(3)).unwrap(),
        TwoFree::wrap(Some(Charged(Footprint { count: 1, size: 30 })))
    );
    // An existing ticket is resized to the charged items only.
    assert_eq!(
        TwoFree::wrap(Some(Charged(items(1))))
            .update(&0, items(5))
            .unwrap(),
        TwoFree::wrap(Some(Charged(Footprint { count: 3, size: 30 })))
    );
    // Dropping to zero items releases it.
    assert_eq!(
        TwoFree::wrap(Some(Charged(items(1))))
            .update(&0, items(0))
            .unwrap(),
        TwoFree::wrap(None)
    );
}

#[test]
fn decoding_rejects_unknown_tags_and_reads_nothing_as_free() {
    assert_eq!(TwoFree::decode(&[]), None);
    assert_eq!(TwoFree::decode(&[2]), None);
    assert_eq!(TwoFree::decode(&[0, 9, 9]), Some((TwoFree::wrap(None), 1)));
    assert_eq!(TwoFree::wrap(None).encode(), vec![0u8]);
}

#[test]
fn charge_for_update_scales_the_size_to_the_charged_items() {
    let f = TwoFree::charge_for_update(Footprint { count: 5, size: 50 });
    assert_eq!(f, Footprint { count: 3, size: 30 });
    assert_eq!(TwoFree::charge_for_new(Footprint { count: 2, size: 7 }), None);
}
