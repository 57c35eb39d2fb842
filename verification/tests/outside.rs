use contest_engine::allocation::percentage_from_decimal;
use contest_engine::contest::{ContestStatus, Schedule};
use contest_engine::engine::Engine;
use contest_engine::model::Contest;
use contest_engine::money::{from_decimal_parts, to_decimal_parts};
use rust_decimal::prelude::ToPrimitive;
use rust_decimal::Decimal;
use uuid::{Uuid, Variant, Version};

/// The hundredths of a decimal as the decimal crate itself computes them,
/// where the decimal has no finer digit.
fn hundredths_by_decimal(d: Decimal) -> Option<i64> {
    let scaled = d.checked_mul(Decimal::new(100, 0))?;
    if scaled.fract().is_zero() {
        scaled.to_i64()
    } else {
        None
    }
}

#[test]
fn amounts_agree_with_the_decimal_type() {
    let samples = [
        Decimal::new(100, 0),
        Decimal::new(1_000, 2),
        Decimal::new(100_000, 2),
        Decimal::new(42_000, 2),
        Decimal::new(-1_050, 2),
        Decimal::new(105, 1),
        Decimal::new(10_500, 3),
        Decimal::new(10_501, 3),
        Decimal::new(1, 28),
        Decimal::new(0, 5),
        Decimal::new(i64::MAX, 2),
        Decimal::new(i64::MIN, 2),
        Decimal::new(i64::MAX, 0),
        Decimal::new(33_333_333, 6),
        Decimal::MAX,
        Decimal::MIN,
    ];
    for d in samples {
        assert_eq!(
            from_decimal_parts(d.mantissa(), d.scale()),
            hundredths_by_decimal(d),
            "for {d}"
        );
    }
}

#[test]
fn amounts_round_trip_through_the_decimal_type() {
    for a in [0i64, 1, -1, 1_000, 99_999, -12_345, i64::MAX, i64::MIN] {
        let (mantissa, scale) = to_decimal_parts(a);
        let d = Decimal::from_i128_with_scale(mantissa, scale);
        assert_eq!(d, Decimal::new(a, 2));
        assert_eq!(from_decimal_parts(d.mantissa(), d.scale()), Some(a));
    }
}

#[test]
fn percentages_agree_with_the_decimal_type() {
    // The sum that a request of 60 and 40 percent writes is exactly 100.
    let sixty = Decimal::new(60, 0);
    let forty = Decimal::new(400, 1);
    let a = percentage_from_decimal(sixty.mantissa(), sixty.scale()).unwrap();
    let b = percentage_from_decimal(forty.mantissa(), forty.scale()).unwrap();
    assert_eq!((a, b), (6_000, 4_000));
    assert_eq!(sixty + forty, Decimal::new(100, 0));
    assert_eq!(a + b, 10_000);
    let negative = Decimal::new(-50, 0);
    assert_eq!(percentage_from_decimal(negative.mantissa(), negative.scale()), None);
}

#[test]
fn drawn_participant_ids_are_version_four_uuids() {
    let mut e = Engine::new();
    e.add_contest(Contest {
        id: 1,
        title: String::new(),
        track: String::new(),
        entry_fee: 0,
        virtual_capital: 0,
        schedule: Schedule {
            open_time: 0,
            allocation_deadline: 10,
            start_time: 20,
            end_time: 30,
            slots: 0,
        },
        status: ContestStatus::JoiningOpen,
        assets: vec![],
    })
    .unwrap();
    for user in 1..=20u128 {
        e.open_account(user, 0).unwrap();
        let id = e.join(1, user, 1).unwrap().participant_id;
        let uuid = Uuid::from_u128(id);
        assert_eq!(uuid.as_u128(), id);
        assert_eq!(uuid.get_version(), Some(Version::Random));
        assert_eq!(uuid.get_variant(), Variant::RFC4122);
    }
}
