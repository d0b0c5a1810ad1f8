use frame_contrib::authn::Get;
use frame_contrib::weight::{RuntimeDbWeight, Weight};
use frame_contrib::weights::pass::WeightInfo as PassWeights;
use frame_contrib::weights::payments::WeightInfo as PaymentWeights;
use frame_contrib::weights::pitch::WeightInfo as PitchWeights;
use frame_contrib::weights::{pass, payments, pitch};

struct Db;

impl Get<RuntimeDbWeight> for Db {
    fn value() -> RuntimeDbWeight {
        RuntimeDbWeight { read: 10, write: 100 }
    }

    fn get() -> RuntimeDbWeight {
        Self::value()
    }
}

#[test]
fn payment_weights_add_time_proof_and_database_accesses() {
    assert_eq!(
        <payments::SubstrateWeight<Db> as PaymentWeights>::release(),
        Weight::from_parts(404_550_000 + 8 * 10 + 8 * 100, 8856)
    );
    assert_eq!(
        <payments::SubstrateWeight<Db> as PaymentWeights>::pay(2),
        Weight::from_parts(218_726_681 + 2 * 900_944 + 6 * 10 + 6 * 100, 8517)
    );
    assert_eq!(
        <() as PaymentWeights>::cancel(),
        Weight::from_parts(308_347_000 + 7 * 25_000_000 + 7 * 100_000_000, 8517)
    );
}

#[test]
fn pass_and_pitch_weights() {
    assert_eq!(<pass::SubstrateWeight<Db> as PassWeights>::register(), Weight::from_parts(8_587_359, 0));
    assert_eq!(
        <pass::SubstrateWeight<Db> as PassWeights>::authenticate(),
        Weight::from_parts(20_000_000 + 2 * 10 + 100, 7_000)
    );
    assert_eq!(<() as PassWeights>::add_device(), Weight::zero());
    assert_eq!(<pitch::SubstrateWeight<()> as PitchWeights>::claim(), Weight::from_parts(20_000_000, 0));
}
