use basics::collections::count_words;
use basics::collections::hashmaps;
use basics::collections::hashmaps_counter;
use basics::collections::strings;
use basics::collections::strings_clone;
use basics::collections::strings_format;
use basics::collections::vectors;
use basics::table::Table;

fn owned(key: &str) -> String {
    String::from(key)
}

fn sorted(table: Table) -> Vec<(String, i32)> {
    let mut entries = table.into_entries();
    entries.sort();
    entries
}

#[test]
fn vectors_pushes_and_finds_the_third() {
    let (v, third) = vectors();
    assert_eq!(v, vec![1, 2, 3, 4]);
    assert_eq!(third, Some(3));
}

#[test]
fn strings_joins_and_keeps_the_second() {
    let (joined, second) = strings();
    assert_eq!(joined, "Hello, world!");
    assert_eq!(second, "world!");
}

#[test]
fn strings_clone_keeps_the_first() {
    let (first, joined) = strings_clone();
    assert_eq!(first, "Hello, ");
    assert_eq!(joined, "Hello, world!");
}

#[test]
fn strings_format_joins_with_hyphens() {
    assert_eq!(strings_format(), "tic-tac-toe");
}

#[test]
fn hashmaps_overwrites_and_enters() {
    let scores = hashmaps();
    assert_eq!(scores.first, 10);
    assert_eq!(scores.second, 25);
    assert_eq!(sorted(scores.inserted), vec![(owned("Blue"), 25)]);
    assert_eq!(sorted(scores.entered), vec![(owned("Blue"), 25), (owned("Yellow"), 50)]);
}

#[test]
fn hashmaps_counter_counts_the_fixed_text() {
    let counts = hashmaps_counter().unwrap();
    assert_eq!(counts.len(), 3);
    assert_eq!(counts.get(&owned("hello")), Some(1));
    assert_eq!(counts.get(&owned("world")), Some(2));
    assert_eq!(counts.get(&owned("wonderful")), Some(1));
    assert_eq!(counts.get(&owned("hello world")), None);
    assert_eq!(counts.get(&owned("")), None);
}

#[test]
fn count_words_of_nothing_is_empty() {
    let counts = count_words(&Vec::new());
    assert_eq!(counts.len(), 0);
    assert!(counts.into_entries().is_empty());
}

#[test]
fn count_words_counts_each_occurrence() {
    let words = vec![owned("a"), owned("b"), owned("a"), owned("c"), owned("a"), owned("b")];
    let counts = count_words(&words);
    assert_eq!(counts.get(&owned("a")), Some(3));
    assert_eq!(counts.get(&owned("b")), Some(2));
    assert_eq!(counts.get(&owned("c")), Some(1));
    assert_eq!(counts.get(&owned("d")), None);
    assert_eq!(sorted(counts), vec![(owned("a"), 3), (owned("b"), 2), (owned("c"), 1)]);
}

#[test]
fn count_words_tells_case_and_empty_words_apart() {
    let words = vec![owned("A"), owned("a"), owned(""), owned("")];
    let counts = count_words(&words);
    assert_eq!(sorted(counts), vec![(owned(""), 2), (owned("A"), 1), (owned("a"), 1)]);
}

#[test]
fn table_starts_empty() {
    let table = Table::new();
    assert_eq!(table.len(), 0);
    assert_eq!(table.get(&owned("Blue")), None);
}

#[test]
fn table_insert_returns_what_was_there() {
    let mut table = Table::new();
    assert_eq!(table.insert(owned("Blue"), 10), None);
    assert_eq!(table.get(&owned("Blue")), Some(10));
    assert_eq!(table.insert(owned("Blue"), 25), Some(10));
    assert_eq!(table.get(&owned("Blue")), Some(25));
    assert_eq!(table.insert(owned("Yellow"), 50), None);
    assert_eq!(table.len(), 2);
    assert_eq!(table.get(&owned("blue")), None);
}

#[test]
fn table_or_insert_keeps_what_is_there() {
    let mut table = Table::new();
    assert_eq!(table.or_insert(owned("Yellow"), 50), 50);
    assert_eq!(table.or_insert(owned("Yellow"), 7), 50);
    assert_eq!(table.get(&owned("Yellow")), Some(50));
    assert_eq!(table.len(), 1);
}

#[test]
fn table_add_one_counts_from_one() {
    let mut table = Table::new();
    table.add_one(owned("x"));
    assert_eq!(table.get(&owned("x")), Some(1));
    table.add_one(owned("x"));
    table.add_one(owned("y"));
    assert_eq!(table.get(&owned("x")), Some(2));
    assert_eq!(table.get(&owned("y")), Some(1));
    table.insert(owned("z"), -1);
    table.add_one(owned("z"));
    assert_eq!(table.get(&owned("z")), Some(0));
    table.insert(owned("top"), i32::MAX - 1);
    table.add_one(owned("top"));
    assert_eq!(table.get(&owned("top")), Some(i32::MAX));
}

#[test]
fn table_snapshot_does_not_follow_later_changes() {
    let mut table = Table::new();
    table.insert(owned("Blue"), 25);
    let copy = table.snapshot();
    table.insert(owned("Blue"), 1);
    table.insert(owned("Yellow"), 50);
    assert_eq!(copy.len(), 1);
    assert_eq!(copy.get(&owned("Blue")), Some(25));
    assert_eq!(table.get(&owned("Blue")), Some(1));
}

#[test]
fn table_entries_hold_each_key_once() {
    let mut table = Table::new();
    table.insert(owned("c"), 3);
    table.insert(owned("a"), 1);
    table.insert(owned("b"), 2);
    table.insert(owned("a"), 9);
    assert_eq!(sorted(table), vec![(owned("a"), 9), (owned("b"), 2), (owned("c"), 3)]);
}
