use std::collections::HashSet;
use ulidgen::{
    generate, generate_ulid, generate_with, with_entropy, Error, Identifier, MAX_RANDOMNESS,
    MAX_TIMESTAMP,
};

/// Test ULID generation functions
#[test]
fn test_generate_ulid() {
    // Test regular ULID
    let regular = generate_ulid(false);
    assert_ne!(regular, Identifier::nil());

    // Test nil ULID
    let nil = generate_ulid(true);
    assert_eq!(nil, Identifier::nil());
}

#[test]
fn generate_ulid_is_stamped_with_the_present() {
    let before = std::time::SystemTime::now()
        .duration_since(std::time::UNIX_EPOCH)
        .unwrap()
        .as_millis() as u64;
    let id = generate_ulid(false);
    let after = std::time::SystemTime::now()
        .duration_since(std::time::UNIX_EPOCH)
        .unwrap()
        .as_millis() as u64;
    assert!(before <= id.timestamp());
    assert!(id.timestamp() <= after);
}

#[test]
fn generate_nil_whatever_the_time() {
    assert_eq!(generate(true, None), Ok(Identifier::nil()));
    assert_eq!(generate(true, Some(5)), Ok(Identifier::nil()));
    assert_eq!(generate(true, Some(u64::MAX)), Ok(Identifier::nil()));
}

#[test]
fn generate_stamps_the_supplied_time() {
    let id = generate(false, Some(1_700_000_000_000)).unwrap();
    assert_eq!(id.timestamp(), 1_700_000_000_000);
    let id = generate(false, Some(0)).unwrap();
    assert_eq!(id.timestamp(), 0);
    let id = generate(false, Some(MAX_TIMESTAMP)).unwrap();
    assert_eq!(id.timestamp(), MAX_TIMESTAMP);
}

#[test]
fn generate_without_a_time_reads_the_clock() {
    let before = std::time::SystemTime::now()
        .duration_since(std::time::UNIX_EPOCH)
        .unwrap()
        .as_millis() as u64;
    let id = generate(false, None).unwrap();
    assert!(id.timestamp() >= before);
    assert!(!id.is_nil());
}

#[test]
fn generate_refuses_a_timestamp_of_49_bits() {
    assert_eq!(
        generate(false, Some(MAX_TIMESTAMP + 1)),
        Err(Error::TimestampOverflow)
    );
    assert_eq!(
        Identifier::new_random(MAX_TIMESTAMP + 1),
        Err(Error::TimestampOverflow)
    );
    assert_eq!(
        Identifier::new_random(u64::MAX),
        Err(Error::TimestampOverflow)
    );
}

#[test]
fn new_random_stamps_the_supplied_time() {
    let a = Identifier::new_random(1_469_918_176_385).unwrap();
    let b = Identifier::new_random(1_469_918_176_385).unwrap();
    assert_eq!(a.timestamp(), 1_469_918_176_385);
    assert_eq!(b.timestamp(), 1_469_918_176_385);
    assert!(a.randomness() <= MAX_RANDOMNESS);
    assert_ne!(a, b);
    assert_eq!(&a.to_string()[..10], "01ARYZ6S41");
}

#[test]
fn thousand_identifiers_of_one_millisecond_are_distinct() {
    let mut seen: HashSet<u128> = HashSet::new();
    for _ in 0..1000 {
        let id = generate(false, Some(1_700_000_000_000)).unwrap();
        assert_eq!(id.timestamp(), 1_700_000_000_000);
        assert!(!id.is_nil());
        seen.insert(id.randomness());
    }
    assert_eq!(seen.len(), 1000);
}

#[test]
fn with_entropy_builds_from_time_and_bits() {
    let id = with_entropy(5, Some(9)).unwrap();
    assert_eq!(id, Identifier::from_parts(5, 9).unwrap());
    assert_eq!(id.value(), (5u128 << 80) + 9);
    let id = with_entropy(MAX_TIMESTAMP, Some(u128::MAX)).unwrap();
    assert_eq!(id.value(), u128::MAX);
    let id = with_entropy(0, Some(0)).unwrap();
    assert!(id.is_nil());
}

#[test]
fn with_entropy_reports_a_source_that_failed() {
    assert_eq!(with_entropy(5, None), Err(Error::RandomnessUnavailable));
    assert_eq!(with_entropy(0, None), Err(Error::RandomnessUnavailable));
}

#[test]
fn with_entropy_judges_the_timestamp_first() {
    assert_eq!(
        with_entropy(MAX_TIMESTAMP + 1, None),
        Err(Error::TimestampOverflow)
    );
    assert_eq!(
        with_entropy(MAX_TIMESTAMP + 1, Some(1)),
        Err(Error::TimestampOverflow)
    );
}

#[test]
fn generate_with_follows_the_flag_the_time_and_the_clock() {
    assert_eq!(generate_with(true, Some(u64::MAX), 7, None), Ok(Identifier::nil()));
    assert_eq!(
        generate_with(false, Some(3), 7, Some(11)),
        Identifier::from_parts(3, 11)
    );
    assert_eq!(
        generate_with(false, None, 7, Some(11)),
        Identifier::from_parts(7, 11)
    );
    assert_eq!(
        generate_with(false, None, 7, None),
        Err(Error::RandomnessUnavailable)
    );
    assert_eq!(
        generate_with(false, Some(MAX_TIMESTAMP + 1), 7, Some(11)),
        Err(Error::TimestampOverflow)
    );
    assert_eq!(
        generate_with(false, None, MAX_TIMESTAMP + 1, Some(11)),
        Err(Error::TimestampOverflow)
    );
}

#[test]
fn generated_lines_read_back() {
    let mut output = String::new();
    for _ in 0..3 {
        let id = generate_ulid(false);
        output.push_str(&id.to_string());
        output.push('\n');
    }
    let lines: Vec<&str> = output.lines().collect();
    assert_eq!(lines.len(), 3);
    for line in lines {
        assert!(Identifier::from_string(line).is_ok());
        assert!(ulid::Ulid::from_string(line).is_ok());
    }
}
