use basics::text::calculate_length;
use basics::text::change;
use basics::text::get_first_word;

#[test]
fn first_word_of_two() {
    let s = String::from("hello world");
    assert_eq!(get_first_word(&s), "hello");
}

#[test]
fn first_word_without_space_is_everything() {
    let s = String::from("hello");
    assert_eq!(get_first_word(&s), "hello");
}

#[test]
fn first_word_of_empty_is_empty() {
    let s = String::new();
    assert_eq!(get_first_word(&s), "");
}

#[test]
fn first_word_behind_leading_space_is_empty() {
    let s = String::from(" hello world");
    assert_eq!(get_first_word(&s), "");
    let s = String::from(" ");
    assert_eq!(get_first_word(&s), "");
}

#[test]
fn first_word_ends_at_first_of_several_spaces() {
    let s = String::from("one  two three");
    assert_eq!(get_first_word(&s), "one");
}

#[test]
fn first_word_ends_only_at_a_space() {
    let s = String::from("tab\there\nand there");
    assert_eq!(get_first_word(&s), "tab\there\nand");
}

#[test]
fn first_word_with_characters_of_several_bytes() {
    let s = String::from("grüße an alle");
    assert_eq!(get_first_word(&s), "grüße");
    let s = String::from("日本語 テキスト");
    assert_eq!(get_first_word(&s), "日本語");
    let s = String::from("\u{a0}\u{2020}\u{10420} x");
    assert_eq!(get_first_word(&s), "\u{a0}\u{2020}\u{10420}");
}

#[test]
fn length_counts_bytes() {
    assert_eq!(calculate_length(&String::from("hello")), 5);
    assert_eq!(calculate_length(&String::new()), 0);
    assert_eq!(calculate_length(&String::from("grüße")), 7);
    assert_eq!(calculate_length(&String::from("日本語")), 9);
}

#[test]
fn change_appends_the_world() {
    let mut s = String::from("hello");
    change(&mut s);
    assert_eq!(s, "hello, world!");
    assert_eq!(calculate_length(&s), 13);
    change(&mut s);
    assert_eq!(s, "hello, world!, world!");
}

#[test]
fn change_on_empty_string() {
    let mut s = String::new();
    change(&mut s);
    assert_eq!(s, ", world!");
    assert_eq!(get_first_word(&s), ",");
}
