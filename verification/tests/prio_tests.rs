//! Tests for the priority bitmap.

use ucosiii::config::CFG_PRIO_MAX;
use ucosiii::prio::PrioTable;

#[test]
fn prio_test_empty_table() {
    let table = PrioTable::new();
    assert!(table.is_empty());
    assert_eq!(table.get_highest(), (CFG_PRIO_MAX - 1) as u8);
}

#[test]
fn test_insert_remove() {
    let mut table = PrioTable::new();

    table.insert(5);
    assert!(table.is_set(5));
    assert!(!table.is_set(4));
    assert_eq!(table.get_highest(), 5);

    table.insert(3);
    assert_eq!(table.get_highest(), 3);

    table.remove(3);
    assert_eq!(table.get_highest(), 5);

    table.remove(5);
    assert!(table.is_empty());
}

#[test]
fn test_priority_order() {
    let mut table = PrioTable::new();

    table.insert(10);
    table.insert(5);
    table.insert(20);
    table.insert(0);
    table.insert(15);

    assert_eq!(table.get_highest(), 0);

    table.remove(0);
    assert_eq!(table.get_highest(), 5);

    table.remove(5);
    assert_eq!(table.get_highest(), 10);
}

#[test]
fn prio_test_boundary_priorities() {
    let mut table = PrioTable::new();

    table.insert(31);
    assert_eq!(table.get_highest(), 31);

    table.insert(32);
    assert_eq!(table.get_highest(), 31);

    table.remove(31);
    assert_eq!(table.get_highest(), 32);
}

#[test]
fn unit_tests_test_empty_table() {
    let table = PrioTable::new();
    assert!(table.is_empty());
    assert_eq!(table.get_highest(), (CFG_PRIO_MAX - 1) as u8);
}

#[test]
fn test_single_priority() {
    let mut table = PrioTable::new();

    table.insert(5);
    assert!(!table.is_empty());
    assert!(table.is_set(5));
    assert!(!table.is_set(4));
    assert_eq!(table.get_highest(), 5);

    table.remove(5);
    assert!(table.is_empty());
}

#[test]
fn test_multiple_priorities() {
    let mut table = PrioTable::new();

    // Insert in random order
    table.insert(20);
    table.insert(5);
    table.insert(10);
    table.insert(0);
    table.insert(15);

    // Highest (lowest number) should be 0
    assert_eq!(table.get_highest(), 0);

    // Remove in order
    table.remove(0);
    assert_eq!(table.get_highest(), 5);

    table.remove(5);
    assert_eq!(table.get_highest(), 10);

    table.remove(10);
    assert_eq!(table.get_highest(), 15);

    table.remove(15);
    assert_eq!(table.get_highest(), 20);

    table.remove(20);
    assert!(table.is_empty());
}

#[test]
fn unit_tests_test_boundary_priorities() {
    let mut table = PrioTable::new();

    // Test at word boundaries (31, 32, 33)
    table.insert(31);
    assert_eq!(table.get_highest(), 31);

    table.insert(32);
    assert_eq!(table.get_highest(), 31);

    table.remove(31);
    assert_eq!(table.get_highest(), 32);

    table.insert(0);
    assert_eq!(table.get_highest(), 0);

    table.insert(63);
    table.remove(0);
    table.remove(32);
    assert_eq!(table.get_highest(), 63);
}

#[test]
fn test_all_priorities() {
    let mut table = PrioTable::new();

    // Insert all priorities
    for i in 0..CFG_PRIO_MAX {
        table.insert(i as u8);
    }

    // Highest should be 0
    assert_eq!(table.get_highest(), 0);

    // Remove from highest to lowest
    for i in 0..CFG_PRIO_MAX {
        assert_eq!(table.get_highest(), i as u8);
        table.remove(i as u8);
    }

    assert!(table.is_empty());
}

#[test]
fn test_duplicate_insert_remove() {
    let mut table = PrioTable::new();

    // Insert same priority twice
    table.insert(10);
    table.insert(10);
    assert_eq!(table.get_highest(), 10);

    // First remove clears the bit
    table.remove(10);
    // Table should be empty now (bit is cleared)
    // Note: This tests that we don't track count per priority
}
