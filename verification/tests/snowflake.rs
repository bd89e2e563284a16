use database::snowflake::{Snowflake, SnowflakeGenerator};
use database::time;
use std::collections::HashSet;

const T: i64 = 5_000;

#[test]
fn first_identifier_carries_time_machine_and_sequence_one() {
    let mut generator = SnowflakeGenerator::new(7);
    let id = generator.generate_at(T).unwrap();
    assert_eq!(id.timestamp, 5_000);
    assert_eq!(id.machine_id, 7);
    assert_eq!(id.increment, 1);
    assert_eq!(id.into_number(), (5_000 << 21) | (7 << 11) | 1);
}

#[test]
fn new_generator_starts_empty() {
    let generator = SnowflakeGenerator::new(1023);
    assert_eq!(generator.machine_id(), 1023);
    assert_eq!(generator.last_timestamp(), 0);
    assert_eq!(generator.sequence(), 0);
    assert_eq!(generator.debt(), 0);
}

#[test]
fn call_2048_of_a_millisecond_exhausts_it() {
    let mut generator = SnowflakeGenerator::new(7);
    for n in 1..=2047u16 {
        let id = generator.generate_at(T).unwrap();
        assert_eq!((id.timestamp, id.machine_id, id.increment), (5_000, 7, n));
        assert_eq!(generator.debt(), 0);
    }
    let id = generator.generate_at(T).unwrap();
    assert_eq!((id.timestamp, id.machine_id, id.increment), (5_000, 7, 0));
    assert_eq!(generator.sequence(), 0);
    assert_eq!(generator.debt(), 1);
    assert_eq!(generator.last_timestamp() + u64::from(generator.debt()), 5_001);
    let id = generator.generate_at(T).unwrap();
    assert_eq!((id.timestamp, id.machine_id, id.increment), (5_001, 7, 1));
}

#[test]
fn a_later_millisecond_pays_the_debt_back() {
    let mut generator = SnowflakeGenerator::new(7);
    for _ in 0..2048 {
        generator.generate_at(T).unwrap();
    }
    assert_eq!(generator.debt(), 1);
    let id = generator.generate_at(T + 1).unwrap();
    assert_eq!(generator.debt(), 0);
    assert_eq!((id.timestamp, id.machine_id, id.increment), (5_001, 7, 1));
    assert_eq!(generator.last_timestamp(), 5_001);
}

#[test]
fn burst_of_2100_spills_into_the_next_millisecond() {
    let mut generator = SnowflakeGenerator::new(3);
    let mut numbers = HashSet::new();
    let mut timestamps = HashSet::new();
    for _ in 0..2100 {
        let id = generator.generate_at(T).unwrap();
        numbers.insert(id.into_number());
        timestamps.insert(id.timestamp);
    }
    assert_eq!(numbers.len(), 2100);
    assert_eq!(timestamps.len(), 2);
    assert!(timestamps.contains(&5_000) && timestamps.contains(&5_001));
    assert_eq!(generator.debt(), 1);
    assert_eq!(generator.sequence(), 52);
    let id = generator.generate_at(T + 2).unwrap();
    assert_eq!(generator.debt(), 0);
    assert_eq!((id.timestamp, id.increment), (5_002, 1));
    let id = generator.generate_at(T + 3).unwrap();
    assert_eq!((id.timestamp, id.increment), (5_003, 1));
}

#[test]
fn debt_of_two_is_paid_back_over_two_milliseconds() {
    let mut generator = SnowflakeGenerator::new(3);
    for _ in 0..(2 * 2048 + 5) {
        generator.generate_at(T).unwrap();
    }
    assert_eq!(generator.debt(), 2);
    assert_eq!(generator.sequence(), 5);
    let id = generator.generate_at(T + 1).unwrap();
    assert_eq!(generator.debt(), 1);
    assert_eq!((id.timestamp, id.increment), (5_002, 6));
    let id = generator.generate_at(T + 5).unwrap();
    assert_eq!(generator.debt(), 0);
    assert_eq!((id.timestamp, id.increment), (5_005, 1));
}

#[test]
fn identifiers_of_a_clear_run_are_distinct() {
    let mut generator = SnowflakeGenerator::new(9);
    let mut numbers = HashSet::new();
    let mut calls = 0;
    for (clock, count) in [(10i64, 5000usize), (15, 3), (15, 4100), (30, 10), (31, 2048)] {
        for _ in 0..count {
            let id = generator.generate_at(clock).unwrap();
            assert!(numbers.insert(id.into_number()));
            calls += 1;
        }
    }
    assert_eq!(numbers.len(), calls);
}

#[test]
fn numbers_grow_but_for_the_call_that_exhausts_a_millisecond() {
    let mut generator = SnowflakeGenerator::new(9);
    let mut last = generator.generate_at(T).unwrap();
    for clock in [T, T, T + 5, T + 5, T + 9] {
        for _ in 0..1500 {
            let id = generator.generate_at(clock).unwrap();
            if id.timestamp == last.timestamp && id.increment == 0 {
                assert!(id.into_number() < last.into_number());
            } else {
                assert!(id.into_number() > last.into_number());
            }
            last = id;
        }
    }
}

#[test]
fn clock_that_catches_up_with_a_borrowed_millisecond_repeats_an_identifier() {
    let mut generator = SnowflakeGenerator::new(7);
    for _ in 0..2048 {
        generator.generate_at(T).unwrap();
    }
    let borrowed = generator.generate_at(T).unwrap();
    let repaid = generator.generate_at(T + 1).unwrap();
    assert_eq!(borrowed.into_number(), repaid.into_number());
}

#[test]
fn negative_clock_reading_is_refused() {
    let mut generator = SnowflakeGenerator::new(7);
    generator.generate_at(T).unwrap();
    assert!(generator.generate_at(-1).is_none());
    assert_eq!(generator.last_timestamp(), 5_000);
    assert_eq!(generator.sequence(), 1);
}

#[test]
fn clock_reading_beyond_42_bits_is_refused() {
    let mut generator = SnowflakeGenerator::new(7);
    let id = generator.generate_at((1 << 42) - 1).unwrap();
    assert_eq!((id.timestamp, id.increment), ((1 << 42) - 1, 1));
    assert!(generator.generate_at(1 << 42).is_none());
    assert!(generator.generate_at(i64::MAX).is_none());
    assert_eq!(generator.last_timestamp(), (1 << 42) - 1);
    for _ in 0..2047 {
        generator.generate_at((1 << 42) - 1).unwrap();
    }
    assert_eq!(generator.debt(), 1);
    assert!(generator.generate_at((1 << 42) - 1).is_none());
    assert_eq!(generator.debt(), 1);
    assert_eq!(generator.sequence(), 0);
}

#[test]
fn generate_reads_the_clock() {
    let mut generator = SnowflakeGenerator::new(12);
    let before = time::now();
    let id = generator.generate().unwrap();
    let after = time::now();
    assert!(before >= 0);
    assert!(before as u64 <= id.timestamp && id.timestamp <= after as u64);
    assert_eq!(id.machine_id, 12);
    assert_eq!(id.increment, 1);
}

#[test]
fn from_number_splits_the_three_fields() {
    let id = Snowflake::from_number((123_456 << 21) | (1023 << 11) | 2047);
    assert_eq!(id.timestamp, 123_456);
    assert_eq!(id.machine_id, 1023);
    assert_eq!(id.increment, 2047);
}

#[test]
fn into_number_packs_the_three_fields() {
    let id = Snowflake { timestamp: 1, machine_id: 1, increment: 1 };
    assert_eq!(id.into_number(), 2_097_152 + 2_048 + 1);
    let id = Snowflake { timestamp: (1 << 42) - 1, machine_id: 1023, increment: 2047 };
    assert_eq!(id.into_number(), i64::MAX);
    let id = Snowflake { timestamp: 0, machine_id: 0, increment: 0 };
    assert_eq!(id.into_number(), 0);
}

#[test]
fn packing_round_trips() {
    for timestamp in [0u64, 1, 5_000, 1 << 20, (1 << 42) - 1] {
        for machine_id in [0u16, 1, 7, 512, 1023] {
            for increment in [0u16, 1, 1024, 2047] {
                let id = Snowflake { timestamp, machine_id, increment };
                let back = Snowflake::from_number(id.into_number() as u64);
                assert_eq!(back.timestamp, timestamp);
                assert_eq!(back.machine_id, machine_id);
                assert_eq!(back.increment, increment);
            }
        }
    }
    for number in [0u64, 1, 2047, 2048, 1 << 21, (1 << 63) - 1] {
        assert_eq!(Snowflake::from_number(number).into_number() as u64, number);
    }
}

#[test]
fn snowflakes_compare_by_number_and_order_by_timestamp() {
    let a = Snowflake { timestamp: 5, machine_id: 1, increment: 9 };
    let b = Snowflake { timestamp: 5, machine_id: 2, increment: 1 };
    let c = Snowflake { timestamp: 6, machine_id: 0, increment: 0 };
    assert!(a == a);
    assert!(a != b);
    assert_eq!(a.partial_cmp(&b), Some(std::cmp::Ordering::Equal));
    assert!(a < c);
    assert!(c > b);
}

#[test]
fn snowflakes_convert_to_and_from_numbers() {
    let id = Snowflake::from(4_196_353u64);
    assert_eq!((id.timestamp, id.machine_id, id.increment), (2, 1, 1));
    let id = Snowflake::from(4_196_353i64);
    assert_eq!((id.timestamp, id.machine_id, id.increment), (2, 1, 1));
    assert_eq!(i64::from(id), 4_196_353);
    assert_eq!(u64::from(id), 4_196_353);
    let id = Snowflake::from(-1i64);
    assert_eq!((id.timestamp, id.machine_id, id.increment), ((1 << 43) - 1, 1023, 2047));
}

#[test]
fn timestamps_become_points_in_time() {
    let epoch = std::time::UNIX_EPOCH + std::time::Duration::from_millis(1_672_531_200_000);
    assert_eq!(time::into_systime(0), Some(epoch));
    let id = Snowflake { timestamp: 1_000, machine_id: 0, increment: 0 };
    assert_eq!(id.timestamp(), Some(epoch + std::time::Duration::from_secs(1)));
    assert_eq!(time::into_systime(u64::MAX), None);
    assert_eq!(time::checked_unix_millis(5), Some(1_672_531_200_005));
    assert_eq!(time::checked_unix_millis(u64::MAX - 1_672_531_200_000), Some(u64::MAX));
    assert_eq!(time::checked_unix_millis(u64::MAX - 1_672_531_199_999), None);
}

#[test]
fn now_counts_from_the_database_epoch() {
    let unix = std::time::SystemTime::now()
        .duration_since(std::time::UNIX_EPOCH)
        .unwrap()
        .as_millis() as i64;
    let now = time::now();
    assert_eq!(time::DB_EPOCH, 1_672_531_200_000);
    assert!((now + time::DB_EPOCH - unix).abs() < 60_000);
}

#[test]
fn debt_that_outgrows_its_counter_stops_the_generator() {
    let mut generator = SnowflakeGenerator::new(1);
    let mut last = 0;
    for _ in 0..(65_535u64 * 2048) {
        last = generator.generate_at(T).unwrap().into_number();
    }
    assert_eq!(generator.debt(), 65_535);
    assert_eq!(generator.sequence(), 0);
    for _ in 0..2047 {
        last = generator.generate_at(T).unwrap().into_number();
    }
    assert_eq!(generator.sequence(), 2047);
    assert!(generator.generate_at(T).is_none());
    assert_eq!(generator.debt(), 65_535);
    assert_eq!(generator.sequence(), 2047);
    assert_eq!(Snowflake::from_number(last as u64).timestamp, 5_000 + 65_535);
    let id = generator.generate_at(T + 1).unwrap();
    assert_eq!(generator.debt(), 65_535);
    assert_eq!((id.timestamp, id.increment), (5_001 + 65_534, 0));
}
