use rustnum::store::Table;
use rustnum::structs::{Failure, Record};

#[test]
fn new_table_is_empty() {
    let table = Table::new();
    assert_eq!(table.len(), 0);
    assert_eq!(table.fetch("00001_a"), Err(Failure::NotFound));
}

#[test]
fn ensure_adds_a_missing_row() {
    let mut table = Table::new();
    assert_eq!(table.ensure("00042_myproject", 42), Ok(()));
    assert_eq!(table.len(), 1);
    assert_eq!(
        table.fetch("00042_myproject"),
        Ok(Record { dir_id: 1, dir_name: "00042_myproject".to_string(), current_number: 42 })
    );
}

#[test]
fn ensure_twice_keeps_one_row_and_its_counter() {
    let mut table = Table::new();
    assert_eq!(table.ensure("00042_myproject", 42), Ok(()));
    assert_eq!(table.ensure("00042_myproject", 42), Ok(()));
    assert_eq!(table.len(), 1);
    assert_eq!(table.ensure("00042_myproject", 7), Ok(()));
    assert_eq!(table.len(), 1);
    assert_eq!(table.fetch("00042_myproject").unwrap().current_number, 42);
}

#[test]
fn ensure_does_not_overwrite_a_persisted_counter() {
    let mut table = Table::new();
    table.ensure("00001_root", 1).unwrap();
    table.persist("00001_root", 9);
    table.ensure("00001_root", 1).unwrap();
    assert_eq!(table.fetch("00001_root").unwrap().current_number, 9);
    assert_eq!(table.len(), 1);
}

#[test]
fn rows_are_numbered_as_they_come() {
    let mut table = Table::new();
    table.ensure("00001_a", 1).unwrap();
    table.ensure("00005_b", 5).unwrap();
    table.ensure("00001_a", 3).unwrap();
    table.ensure("00009_c", 9).unwrap();
    assert_eq!(table.len(), 3);
    assert_eq!(table.fetch("00001_a").unwrap().dir_id, 1);
    assert_eq!(table.fetch("00005_b").unwrap().dir_id, 2);
    assert_eq!(table.fetch("00009_c").unwrap().dir_id, 3);
    assert_eq!(table.fetch("00009_c").unwrap().current_number, 9);
}

#[test]
fn fetch_of_a_missing_row_is_not_found() {
    let mut table = Table::new();
    table.ensure("00001_a", 1).unwrap();
    assert_eq!(table.fetch("00001_b"), Err(Failure::NotFound));
    assert_eq!(table.fetch(""), Err(Failure::NotFound));
    assert_eq!(table.fetch("00001_A"), Err(Failure::NotFound));
}

#[test]
fn persist_writes_the_counter_of_its_row_only() {
    let mut table = Table::new();
    table.ensure("00001_a", 1).unwrap();
    table.ensure("00005_b", 5).unwrap();
    table.persist("00005_b", 8);
    assert_eq!(
        table.fetch("00005_b"),
        Ok(Record { dir_id: 2, dir_name: "00005_b".to_string(), current_number: 8 })
    );
    assert_eq!(
        table.fetch("00001_a"),
        Ok(Record { dir_id: 1, dir_name: "00001_a".to_string(), current_number: 1 })
    );
}

#[test]
fn persist_of_a_missing_row_changes_nothing() {
    let mut table = Table::new();
    table.ensure("00001_a", 1).unwrap();
    table.persist("00002_b", 8);
    assert_eq!(table.len(), 1);
    assert_eq!(table.fetch("00001_a").unwrap().current_number, 1);
    assert_eq!(table.fetch("00002_b"), Err(Failure::NotFound));
}
