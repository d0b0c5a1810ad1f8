use frame_contrib::gas_tank::{NonFungibleGasTank, TankItem, WeightTank};
use frame_contrib::weight::Weight;

fn w(t: u64) -> Weight {
    Weight { ref_time: t, proof_size: t }
}

fn item(tank: Option<WeightTank>) -> TankItem {
    TankItem { collection: 1, item: 1, selected: true, tank, reserved: None }
}

#[test]
fn checking_reserves_what_would_be_left() {
    let tank = NonFungibleGasTank::make_tank(Some(w(100)), Some(10), 5);
    assert_eq!(tank.used, w(0));
    let mut items = vec![item(Some(tank))];
    assert_eq!(NonFungibleGasTank::check_available_gas(&mut items, w(30), 6), Some(w(70)));
    assert_eq!(items[0].reserved, Some(w(70)));
    assert_eq!(NonFungibleGasTank::check_available_gas(&mut items, w(300), 6), None);
}

#[test]
fn burning_uses_the_reservation_and_refuelling_gives_gas_back() {
    let tank = NonFungibleGasTank::make_tank(Some(w(100)), None, 0);
    let mut items = vec![item(Some(tank))];
    let left = NonFungibleGasTank::check_available_gas(&mut items, w(30), 1).unwrap();
    assert_eq!(NonFungibleGasTank::burn_gas(&mut items, left, w(20)), w(80));
    assert_eq!(items[0].reserved, None);
    assert_eq!(items[0].tank.unwrap().used, w(20));
    // A second burn finds no reservation.
    assert_eq!(NonFungibleGasTank::burn_gas(&mut items, left, w(20)), w(0));
    let mut t = items[0].tank;
    assert_eq!(NonFungibleGasTank::refuel_gas(true, &mut t, w(15)), w(95));
    assert_eq!(t.unwrap().used, w(5));
}

#[test]
fn an_expired_period_renews_the_tank() {
    let mut tank = NonFungibleGasTank::make_tank(Some(w(100)), Some(10), 0);
    tank.used = w(90);
    let mut items = vec![item(Some(tank))];
    assert_eq!(NonFungibleGasTank::check_available_gas(&mut items, w(30), 11), Some(w(70)));
    assert_eq!(items[0].tank.unwrap().since, 21);
}

#[test]
fn unlimited_tanks_have_all_the_gas_and_unselected_items_none() {
    let tank = NonFungibleGasTank::make_tank(None, None, 0);
    let mut items = vec![item(Some(tank))];
    assert_eq!(
        NonFungibleGasTank::check_available_gas(&mut items, w(30), 1),
        Some(Weight { ref_time: u64::MAX, proof_size: u64::MAX })
    );
    let mut unselected = vec![TankItem { selected: false, ..item(Some(tank)) }, item(None)];
    assert_eq!(NonFungibleGasTank::check_available_gas(&mut unselected, w(30), 1), None);
    let mut none = None;
    assert_eq!(NonFungibleGasTank::refuel_gas(true, &mut none, w(1)), w(0));
}

#[test]
fn burning_the_estimate_leaves_what_the_check_said() {
    let other = TankItem { collection: 1, item: 0, selected: true, tank: None, reserved: None };
    let tank = NonFungibleGasTank::make_tank(Some(w(100)), Some(10), 0);
    let mut items = vec![other, item(Some(tank))];
    let left = NonFungibleGasTank::check_available_gas(&mut items, w(30), 3).unwrap();
    assert_eq!(left, w(70));
    assert_eq!(NonFungibleGasTank::burn_gas(&mut items, left, w(30)), left);
}

/// A weight that grows with the length of a remark, standing in for the runtime's remark weight.
fn remark(len: u64) -> Weight {
    Weight { ref_time: 1_000 * len, proof_size: 0 }
}

/// The membership an account holds in the collection, with a tank of `capacity`, as the
/// selector (`selected`) sees it.
fn membership(item_id: u32, capacity: Weight, selected: bool) -> Vec<TankItem> {
    vec![TankItem {
        collection: 1,
        item: item_id,
        selected,
        tank: Some(NonFungibleGasTank::make_tank(Some(capacity), None, 0)),
        reserved: None,
    }]
}

#[test]
fn fail_if_selector_discards_a_membership() {
    let mut small = membership(1, remark(100), false);
    assert!(NonFungibleGasTank::check_available_gas(&mut small, remark(100), 0).is_none());
}

#[test]
fn fail_if_gas_is_larger_than_membership_capacity() {
    let mut small = membership(1, remark(100), true);
    assert!(NonFungibleGasTank::check_available_gas(&mut small, remark(101), 0).is_none());
    let mut medium = membership(2, remark(1000), true);
    assert!(NonFungibleGasTank::check_available_gas(&mut medium, remark(1001), 0).is_none());
    let mut large = membership(3, remark(10000), true);
    assert!(NonFungibleGasTank::check_available_gas(&mut large, remark(10001), 0).is_none());
}

#[test]
fn it_works_returning_which_item_was_used_to_burn_gas() {
    for (item_id, size) in [(1u32, 100u64), (2, 1000), (3, 10000)] {
        let mut items = membership(item_id, remark(size), true);
        let remaining = NonFungibleGasTank::check_available_gas(&mut items, remark(size), 0)
            .expect("gas to burn equals tank capacity; qed");
        assert_eq!(
            NonFungibleGasTank::burn_gas(&mut items, remaining, remark(size)),
            Weight::zero()
        );
        assert_eq!(items[0].item, item_id);
        assert_eq!(items[0].tank.unwrap().used, remark(size));
    }
}
