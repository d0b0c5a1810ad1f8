use std::collections::HashMap;

use frame_contrib::payments::{
    AssetOp, Balances, DisputeResult, Error, Event, Fees, Notification, PaymentState, Payments,
    PaymentsConfig, Role,
};

const ASSET: u32 = 1;
const SENDER: u64 = 10;
const BENEFICIARY: u64 = 20;
const SYSTEM: u64 = 30;
const RESOLVER: u64 = 40;

fn key(asset: u32, who: u64) -> u128 {
    ((asset as u128) << 64) | who as u128
}

fn pallet() -> Payments {
    let mut ledger = HashMap::new();
    ledger.insert(key(ASSET, SENDER), Balances { free: 1_000, held: 0 });
    ledger.insert(key(ASSET, BENEFICIARY), Balances { free: 100, held: 0 });
    ledger.insert(key(ASSET, RESOLVER), Balances { free: 0, held: 0 });
    Payments::new(
        PaymentsConfig { incentive_percentage: 10, cancel_buffer_block_length: 5, max_remark_length: 4 },
        ledger,
    )
}

fn fees() -> Fees {
    Fees { sender_pays: vec![(SYSTEM, 3, true), (SYSTEM, 2, false)], beneficiary_pays: vec![(SYSTEM, 4, true)] }
}

#[test]
fn paying_holds_the_amount_the_fees_and_the_incentive() {
    let mut p = pallet();
    let ev = p.create(SENDER, ASSET, 100, BENEFICIARY, Some(7), fees(), Some(vec![1, 2, 3, 4, 5])).unwrap();
    assert_eq!(ev, Event::PaymentCreated { payment_id: 7, asset: ASSET, amount: 100, remark: Some(vec![1, 2, 3, 4]) });
    // 10% incentive, 3 + 2 of fees, and the amount moved to the beneficiary's hold.
    assert_eq!(p.balances(ASSET, SENDER), Balances { free: 1_000 - 15 - 100, held: 15 });
    assert_eq!(p.balances(ASSET, BENEFICIARY), Balances { free: 100, held: 100 });
    assert_eq!(p.parties(7), Some((SENDER, BENEFICIARY)));
    assert_eq!(p.payment(SENDER, 7).unwrap().state, PaymentState::Created);
    assert_eq!(p.payment(SENDER, 7).unwrap().incentive_amount, 10);
}

#[test]
fn paying_without_an_id_or_funds_fails_and_changes_nothing() {
    let mut p = pallet();
    assert_eq!(p.create(SENDER, ASSET, 100, BENEFICIARY, None, fees(), None), Err(Error::NoPaymentIdAvailable));
    assert_eq!(p.create(SENDER, ASSET, 5_000, BENEFICIARY, Some(7), fees(), None), Err(Error::FundsUnavailable));
    assert_eq!(p.balances(ASSET, SENDER), Balances { free: 1_000, held: 0 });
    assert_eq!(p.parties(7), None);
}

#[test]
fn releasing_pays_the_beneficiary_and_the_fees() {
    let mut p = pallet();
    p.create(SENDER, ASSET, 100, BENEFICIARY, Some(7), fees(), None).unwrap();
    assert_eq!(p.release(SENDER, 7), Ok(Event::PaymentReleased { payment_id: 7 }));
    assert_eq!(p.balances(ASSET, SENDER), Balances { free: 1_000 - 5 - 100, held: 0 });
    assert_eq!(p.balances(ASSET, BENEFICIARY), Balances { free: 200 - 4, held: 0 });
    assert_eq!(p.balances(ASSET, SYSTEM), Balances { free: 9, held: 0 });
    assert_eq!(p.payment(SENDER, 7).unwrap().state, PaymentState::Finished);
    assert_eq!(p.release(SENDER, 7), Err(Error::InvalidAction));
    assert_eq!(p.release(SENDER, 8), Err(Error::InvalidPayment));
}

#[test]
fn cancelling_gives_everything_back() {
    let mut p = pallet();
    p.create(SENDER, ASSET, 100, BENEFICIARY, Some(7), fees(), None).unwrap();
    assert_eq!(p.cancel(SENDER, 7), Err(Error::InvalidBeneficiary));
    assert_eq!(p.cancel(BENEFICIARY, 7), Ok(Event::PaymentCancelled { payment_id: 7 }));
    assert_eq!(p.balances(ASSET, SENDER), Balances { free: 1_000, held: 0 });
    assert_eq!(p.balances(ASSET, BENEFICIARY), Balances { free: 100, held: 0 });
    assert_eq!(p.parties(7), None);
    assert_eq!(p.cancel(BENEFICIARY, 7), Err(Error::NonExistentStorageValue));
}

#[test]
fn a_refund_request_can_be_disputed_and_resolved() {
    let mut p = pallet();
    p.create(SENDER, ASSET, 100, BENEFICIARY, Some(7), fees(), None).unwrap();
    assert_eq!(
        p.request_refund(SENDER, 7, 100),
        Ok(Event::PaymentCreatorRequestedRefund { payment_id: 7, expiry: 105 })
    );
    assert_eq!(p.scheduled_cancel(7), Some(105));
    assert_eq!(p.request_refund(SENDER, 7, 100), Err(Error::InvalidAction));
    assert_eq!(p.dispute_refund(BENEFICIARY, 7, 105), Err(Error::InvalidAction));
    assert_eq!(p.dispute_refund(BENEFICIARY, 7, 104), Ok(Event::PaymentRefundDisputed { payment_id: 7 }));
    assert_eq!(p.scheduled_cancel(7), None);
    assert_eq!(p.balances(ASSET, BENEFICIARY), Balances { free: 90, held: 110 });
    let result = DisputeResult { percent_beneficiary: 70, in_favor_of: Role::Beneficiary };
    assert_eq!(p.resolve_dispute(RESOLVER, 7, result), Ok(Event::PaymentDisputeResolved { payment_id: 7 }));
    // The sender loses its incentive to the resolver and gets 30% of the amount back; only the
    // mandatory fees are charged.
    assert_eq!(p.balances(ASSET, RESOLVER), Balances { free: 10, held: 0 });
    assert_eq!(p.balances(ASSET, SENDER), Balances { free: 1_000 - 100 - 3 - 10 + 30, held: 0 });
    assert_eq!(p.balances(ASSET, BENEFICIARY), Balances { free: 100 + 100 - 4 - 30, held: 0 });
    assert_eq!(p.balances(ASSET, SYSTEM), Balances { free: 7, held: 0 });
}

#[test]
fn a_requested_payment_is_paid_by_the_sender() {
    let mut p = pallet();
    assert_eq!(
        p.request_payment(BENEFICIARY, SENDER, ASSET, 50, Some(3), fees()),
        Ok(Event::PaymentRequestCreated { payment_id: 3 })
    );
    assert_eq!(p.payment(SENDER, 3).unwrap().state, PaymentState::PaymentRequested);
    assert_eq!(p.accept_and_pay(SENDER, 3), Ok(Event::PaymentRequestCompleted { payment_id: 3 }));
    assert_eq!(p.balances(ASSET, SENDER), Balances { free: 1_000 - 5 - 50, held: 0 });
    assert_eq!(p.balances(ASSET, BENEFICIARY), Balances { free: 100 + 50 - 4, held: 0 });
    assert_eq!(p.accept_and_pay(SENDER, 9), Err(Error::NonExistentStorageValue));
}

#[test]
fn fee_summaries_split_mandatory_and_optional_fees() {
    let f = fees();
    let (list, mandatory, optional) = f.summary_for(Role::Sender, true).unwrap();
    assert_eq!(list, vec![(SYSTEM, 3, true)]);
    assert_eq!((mandatory, optional), (3, 2));
    let overflowing = Fees { sender_pays: vec![(1, u128::MAX, true), (2, 1, true)], beneficiary_pays: vec![] };
    assert_eq!(overflowing.summary_for(Role::Sender, false), Err(Error::Overflow));
}

#[test]
fn details_show_the_beneficiary_asset_and_amount() {
    let mut p = pallet();
    p.create(SENDER, ASSET, 100, BENEFICIARY, Some(7), fees(), None).unwrap();
    let d = p.details(7).unwrap();
    assert_eq!((*d.beneficiary(), *d.asset(), d.amount()), (BENEFICIARY, ASSET, 100));
    assert!(p.details(8).is_none());
    let _ = AssetOp::Hold { asset: ASSET, who: SENDER, amount: 1 };
}

#[test]
fn the_costs_of_each_party() {
    let p = pallet();
    assert_eq!(p.sender_costs(&fees(), 100), 15);
    assert_eq!(Payments::beneficiary_costs(&fees()), 4);
}

#[test]
fn creating_and_releasing_notify_the_runtime() {
    let mut p = pallet();
    p.create(SENDER, ASSET, 100, BENEFICIARY, Some(7), fees(), None).unwrap();
    assert_eq!(p.take_notifications(), vec![Notification::Created { payment_id: 7 }]);
    p.release(SENDER, 7).unwrap();
    // The beneficiary pays 4 of fees and is left with 96.
    assert_eq!(
        p.take_notifications(),
        vec![Notification::Released { payment_id: 7, fees: 4, resulting_amount: 96 }]
    );
    assert_eq!(p.release(SENDER, 7), Err(Error::InvalidAction));
    assert_eq!(p.take_notifications(), vec![]);
}

#[test]
fn paying_a_request_notifies_the_charge_then_the_release() {
    let mut p = pallet();
    p.request_payment(BENEFICIARY, SENDER, ASSET, 50, Some(3), fees()).unwrap();
    assert_eq!(p.take_notifications(), vec![Notification::Created { payment_id: 3 }]);
    p.accept_and_pay(SENDER, 3).unwrap();
    assert_eq!(
        p.take_notifications(),
        vec![
            Notification::ChargeSuccess { payment_id: 3, fees: 4, resulting_amount: 46 },
            Notification::Released { payment_id: 3, fees: 4, resulting_amount: 46 },
        ]
    );
}

#[test]
fn cancelling_notifies_the_cancellation() {
    let mut p = pallet();
    p.create(SENDER, ASSET, 100, BENEFICIARY, Some(7), fees(), None).unwrap();
    p.take_notifications();
    assert_eq!(p.cancel(BENEFICIARY, 7), Ok(Event::PaymentCancelled { payment_id: 7 }));
    assert_eq!(p.take_notifications(), vec![Notification::Cancelled { payment_id: 7 }]);
}

#[test]
fn a_dispute_won_by_the_beneficiary_notifies_its_release() {
    let mut p = pallet();
    p.create(SENDER, ASSET, 100, BENEFICIARY, Some(7), fees(), None).unwrap();
    p.request_refund(SENDER, 7, 100).unwrap();
    p.dispute_refund(BENEFICIARY, 7, 104).unwrap();
    p.take_notifications();
    let result = DisputeResult { percent_beneficiary: 70, in_favor_of: Role::Beneficiary };
    p.resolve_dispute(RESOLVER, 7, result).unwrap();
    // 70 of the amount and the 10 of incentive, less the 4 of mandatory fees.
    assert_eq!(
        p.take_notifications(),
        vec![Notification::Released { payment_id: 7, fees: 4, resulting_amount: 76 }]
    );
}

#[test]
fn cancelling_a_payment_to_oneself_restores_the_balances() {
    let mut p = pallet();
    p.create(SENDER, ASSET, 100, SENDER, Some(8), fees(), None).unwrap();
    assert_eq!(p.cancel(SENDER, 8), Ok(Event::PaymentCancelled { payment_id: 8 }));
    assert_eq!(p.balances(ASSET, SENDER), Balances { free: 1_000, held: 0 });
    assert_eq!(p.parties(8), None);
}

#[test]
fn notifying_the_hooks_passes_the_notifications_on_once() {
    let mut p = pallet();
    p.create(SENDER, ASSET, 100, BENEFICIARY, Some(7), fees(), None).unwrap();
    p.notify_hooks::<()>();
    assert_eq!(p.take_notifications(), vec![]);
    assert_eq!(p.parties(7), Some((SENDER, BENEFICIARY)));
}

#[test]
fn a_refund_request_schedules_the_cancel_as_the_beneficiary() {
    let mut p = pallet();
    p.create(SENDER, ASSET, 100, BENEFICIARY, Some(7), fees(), None).unwrap();
    p.request_refund(SENDER, 7, 100).unwrap();
    assert_eq!(p.scheduled_call(7), Some((105, BENEFICIARY)));
}

#[test]
fn a_due_refund_is_carried_out_and_leaves_the_schedule() {
    let mut p = pallet();
    p.create(SENDER, ASSET, 100, BENEFICIARY, Some(7), fees(), None).unwrap();
    p.request_refund(SENDER, 7, 100).unwrap();
    assert_eq!(p.run_scheduled_cancel(7, 104), None);
    assert_eq!(p.run_scheduled_cancel(7, 105), Some(Ok(Event::PaymentRefunded { payment_id: 7 })));
    assert_eq!(p.scheduled_call(7), None);
    assert_eq!(p.balances(ASSET, SENDER), Balances { free: 1_000, held: 0 });
    // The id can be used again, and its refund scheduled again.
    p.create(SENDER, ASSET, 100, BENEFICIARY, Some(7), fees(), None).unwrap();
    assert!(p.request_refund(SENDER, 7, 200).is_ok());
}

#[test]
fn keep_alive_transfers_leave_the_payer_its_minimum_balance() {
    // The amount moved to the beneficiary's hold keeps the sender alive.
    let mut p = pallet();
    p.set_min_balance(ASSET, 886);
    assert_eq!(p.min_balance(ASSET), 886);
    assert_eq!(p.create(SENDER, ASSET, 100, BENEFICIARY, Some(7), fees(), None), Err(Error::FundsUnavailable));
    assert_eq!(p.balances(ASSET, SENDER), Balances { free: 1_000, held: 0 });
    p.set_min_balance(ASSET, 885);
    assert!(p.create(SENDER, ASSET, 100, BENEFICIARY, Some(7), fees(), None).is_ok());

    // The beneficiary's fee would leave it 196 free: below a minimum of 197 it is refused.
    let mut p = pallet();
    p.set_min_balance(ASSET, 197);
    p.create(SENDER, ASSET, 100, BENEFICIARY, Some(7), fees(), None).unwrap();
    assert_eq!(p.release(SENDER, 7), Err(Error::TransferFailed));
    assert_eq!(p.balances(ASSET, BENEFICIARY), Balances { free: 100, held: 100 });
    assert_eq!(p.payment(SENDER, 7).unwrap().state, PaymentState::Created);
    p.set_min_balance(ASSET, 196);
    assert_eq!(p.release(SENDER, 7), Ok(Event::PaymentReleased { payment_id: 7 }));
    assert_eq!(p.balances(ASSET, BENEFICIARY), Balances { free: 196, held: 0 });
    // An asset with no minimum set has none.
    assert_eq!(p.min_balance(ASSET + 1), 0);
}
