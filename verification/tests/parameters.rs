use parameters::codec::AggregatedKey;
use parameters::codec::AggregatedKeyValue;
use parameters::codec::AggregatedValue;
use parameters::codec::FeeKey;
use parameters::codec::Key;
use parameters::codec::SpeedKey;
use parameters::store::AdminConfig;
use parameters::store::Error;
use parameters::store::Event;
use parameters::store::FamilyAdminConfig;
use parameters::store::Pallet;

const ADMIN: u64 = 1;
const NON_ADMIN: u64 = 2;

fn admin_store() -> Pallet<AdminConfig> {
    Pallet::new(AdminConfig { admin: ADMIN })
}

#[test]
fn round_trip_speed() {
    let mut p = admin_store();
    let r = p.set_parameter(ADMIN, SpeedKey::MaxSpeedKey.into_key_value(Some(120)));
    assert_eq!(r, Ok(()));
    assert_eq!(p.get(SpeedKey::MaxSpeedKey), Some(120));
}

#[test]
fn round_trip_fee() {
    let mut p = admin_store();
    let key = FeeKey { class: 7 };
    let r = p.set_parameter(ADMIN, key.into_key_value(Some(125_000)));
    assert_eq!(r, Ok(()));
    assert_eq!(p.get(key), Some(125_000));
}

#[test]
fn round_trip_largest_values() {
    let mut p = admin_store();
    let fee_key = FeeKey { class: u8::MAX };
    assert_eq!(
        p.set_parameter(ADMIN, SpeedKey::MaxSpeedKey.into_key_value(Some(u32::MAX))),
        Ok(())
    );
    assert_eq!(
        p.set_parameter(ADMIN, fee_key.into_key_value(Some(u64::MAX))),
        Ok(())
    );
    assert_eq!(p.get(SpeedKey::MaxSpeedKey), Some(u32::MAX));
    assert_eq!(p.get(fee_key), Some(u64::MAX));
}

#[test]
fn overwrite_takes_last_value() {
    let mut p = admin_store();
    assert_eq!(
        p.set_parameter(ADMIN, SpeedKey::MaxSpeedKey.into_key_value(Some(120))),
        Ok(())
    );
    assert_eq!(
        p.set_parameter(ADMIN, SpeedKey::MaxSpeedKey.into_key_value(Some(90))),
        Ok(())
    );
    assert_eq!(p.get(SpeedKey::MaxSpeedKey), Some(90));
}

#[test]
fn get_on_empty_store_is_none() {
    let p = admin_store();
    assert_eq!(p.get(SpeedKey::MaxSpeedKey), None);
    assert_eq!(p.get(FeeKey { class: 0 }), None);
}

#[test]
fn clear_removes_value() {
    let mut p = admin_store();
    assert_eq!(
        p.set_parameter(ADMIN, SpeedKey::MaxSpeedKey.into_key_value(Some(120))),
        Ok(())
    );
    assert_eq!(p.get(SpeedKey::MaxSpeedKey), Some(120));
    assert_eq!(
        p.set_parameter(ADMIN, SpeedKey::MaxSpeedKey.into_key_value(None)),
        Ok(())
    );
    assert_eq!(p.get(SpeedKey::MaxSpeedKey), None);
}

#[test]
fn idempotent_clear_of_absent_key() {
    let mut p = admin_store();
    assert_eq!(
        p.set_parameter(ADMIN, FeeKey { class: 3 }.into_key_value(Some(10))),
        Ok(())
    );
    assert_eq!(p.get(SpeedKey::MaxSpeedKey), None);
    let r = p.set_parameter(ADMIN, SpeedKey::MaxSpeedKey.into_key_value(None));
    assert_eq!(r, Ok(()));
    assert_eq!(p.get(SpeedKey::MaxSpeedKey), None);
    assert_eq!(p.get(FeeKey { class: 3 }), Some(10));
}

#[test]
fn authorization_gate_denies_and_mutates_nothing() {
    let mut p = admin_store();
    assert_eq!(
        p.set_parameter(ADMIN, SpeedKey::MaxSpeedKey.into_key_value(Some(120))),
        Ok(())
    );
    let emitted_before = p.events().len();
    let r = p.set_parameter(NON_ADMIN, SpeedKey::MaxSpeedKey.into_key_value(Some(200)));
    assert_eq!(r, Err(Error::NotAuthorized));
    assert_eq!(p.get(SpeedKey::MaxSpeedKey), Some(120));
    assert_eq!(p.events().len(), emitted_before);
}

#[test]
fn cross_family_isolation() {
    let mut p = admin_store();
    assert_eq!(
        p.set_parameter(ADMIN, SpeedKey::MaxSpeedKey.into_key_value(Some(120))),
        Ok(())
    );
    assert_eq!(p.get(FeeKey { class: 0 }), None);
    assert_eq!(
        p.set_parameter(ADMIN, FeeKey { class: 0 }.into_key_value(Some(9))),
        Ok(())
    );
    assert_eq!(p.get(SpeedKey::MaxSpeedKey), Some(120));
    assert_eq!(p.get(FeeKey { class: 0 }), Some(9));
}

#[test]
fn cross_key_isolation_within_family() {
    let mut p = admin_store();
    assert_eq!(
        p.set_parameter(ADMIN, SpeedKey::MaxSpeedKey.into_key_value(Some(120))),
        Ok(())
    );
    assert_eq!(p.get(SpeedKey::MinSpeedKey), None);
    assert_eq!(
        p.set_parameter(ADMIN, SpeedKey::MinSpeedKey.into_key_value(Some(30))),
        Ok(())
    );
    assert_eq!(p.get(SpeedKey::MaxSpeedKey), Some(120));
    assert_eq!(p.get(SpeedKey::MinSpeedKey), Some(30));
}

#[test]
fn notification_fidelity() {
    let mut p = admin_store();
    let first = SpeedKey::MaxSpeedKey.into_key_value(Some(120));
    let second = FeeKey { class: 2 }.into_key_value(None);
    assert_eq!(p.set_parameter(ADMIN, first), Ok(()));
    assert_eq!(p.set_parameter(ADMIN, second), Ok(()));
    assert_eq!(
        p.set_parameter(NON_ADMIN, SpeedKey::MaxSpeedKey.into_key_value(Some(1))),
        Err(Error::NotAuthorized)
    );
    let events = p.events();
    assert_eq!(events.len(), 2);
    assert_eq!(events[0], Event::Updated { key_value: first });
    assert_eq!(events[1], Event::Updated { key_value: second });
}

#[test]
fn example_scenario() {
    let mut p = admin_store();
    let pair = SpeedKey::MaxSpeedKey.into_key_value(Some(120));
    assert_eq!(p.set_parameter(ADMIN, pair), Ok(()));
    assert_eq!(p.events().len(), 1);
    assert_eq!(p.events()[0], Event::Updated { key_value: pair });
    assert_eq!(p.get(SpeedKey::MaxSpeedKey), Some(120));
    let r = p.set_parameter(NON_ADMIN, SpeedKey::MaxSpeedKey.into_key_value(Some(200)));
    assert_eq!(r, Err(Error::NotAuthorized));
    assert_eq!(p.get(SpeedKey::MaxSpeedKey), Some(120));
}

#[test]
fn per_family_policy() {
    let speed_admin = 10;
    let fee_admin = 20;
    let mut p = Pallet::new(FamilyAdminConfig { speed_admin, fee_admin });
    assert_eq!(
        p.set_parameter(speed_admin, SpeedKey::MaxSpeedKey.into_key_value(Some(120))),
        Ok(())
    );
    assert_eq!(
        p.set_parameter(speed_admin, FeeKey { class: 1 }.into_key_value(Some(5))),
        Err(Error::NotAuthorized)
    );
    assert_eq!(
        p.set_parameter(fee_admin, FeeKey { class: 1 }.into_key_value(Some(5))),
        Ok(())
    );
    assert_eq!(
        p.set_parameter(fee_admin, SpeedKey::MinSpeedKey.into_key_value(Some(30))),
        Err(Error::NotAuthorized)
    );
    assert_eq!(p.get(SpeedKey::MaxSpeedKey), Some(120));
    assert_eq!(p.get(FeeKey { class: 1 }), Some(5));
    assert_eq!(p.get(SpeedKey::MinSpeedKey), None);
}

#[test]
fn into_parts_decomposes_speed_pair() {
    let (key, value) = AggregatedKeyValue::Speed(SpeedKey::MaxSpeedKey, Some(120)).into_parts();
    assert_eq!(key, AggregatedKey::Speed(SpeedKey::MaxSpeedKey));
    assert_eq!(value, Some(AggregatedValue::Speed(120)));
}

#[test]
fn into_parts_decomposes_fee_clear() {
    let (key, value) = AggregatedKeyValue::Fee(FeeKey { class: 4 }, None).into_parts();
    assert_eq!(key, AggregatedKey::Fee(FeeKey { class: 4 }));
    assert_eq!(value, None);
}

#[test]
fn into_key_value_builds_concrete_pair() {
    assert_eq!(
        SpeedKey::MinSpeedKey.into_key_value(Some(30)),
        AggregatedKeyValue::Speed(SpeedKey::MinSpeedKey, Some(30))
    );
    assert_eq!(
        FeeKey { class: 9 }.into_key_value(None),
        AggregatedKeyValue::Fee(FeeKey { class: 9 }, None)
    );
}

#[test]
fn narrow_recovers_own_family_only() {
    assert_eq!(SpeedKey::narrow(AggregatedValue::Speed(120)), Some(120));
    assert_eq!(FeeKey::narrow(AggregatedValue::Fee(9)), Some(9));
    assert_eq!(SpeedKey::narrow(AggregatedValue::Fee(9)), None);
    assert_eq!(FeeKey::narrow(AggregatedValue::Speed(120)), None);
}

#[test]
fn into_aggregated_is_tag_preserving() {
    assert_eq!(
        SpeedKey::MaxSpeedKey.into_aggregated(),
        AggregatedKey::Speed(SpeedKey::MaxSpeedKey)
    );
    assert_eq!(
        FeeKey { class: 6 }.into_aggregated(),
        AggregatedKey::Fee(FeeKey { class: 6 })
    );
}
