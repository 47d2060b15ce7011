use seed::messages::{colorize, format_chat};
use seed::text::{
    chars_of, contains_text, decimal, format_list, format_sorted_list, join, position_of,
    glued, push_unique, sorted_copy, text_le_exec,
};

fn strings(items: &[&str]) -> Vec<String> {
    items.iter().map(|s| s.to_string()).collect()
}

#[test]
fn format_list_of_nothing_is_none() {
    assert_eq!(format_list(&vec![]), "(none)");
    assert_eq!(format_sorted_list(&vec![]), "(none)");
}

#[test]
fn format_list_keeps_order() {
    assert_eq!(format_list(&strings(&["b", "a", "c"])), "b, a, c");
    assert_eq!(format_list(&strings(&["only"])), "only");
}

#[test]
fn format_sorted_list_sorts_by_text() {
    assert_eq!(format_sorted_list(&strings(&["b", "a", "c"])), "a, b, c");
    assert_eq!(format_sorted_list(&strings(&["b", "B", "ab", "a", ""])), ", B, a, ab, b");
    assert_eq!(format_sorted_list(&strings(&["x", "x"])), "x, x");
}

#[test]
fn sorted_copy_agrees_with_the_standard_sort() {
    let items = strings(&[
        "minecraft:command.list",
        "minecraft:command.help",
        "*",
        "zeta",
        "Zeta",
        "é",
        "e",
        "ez",
        "",
        "日本",
        "\u{10000}",
        "\u{ffff}",
    ]);
    let mut expected = items.clone();
    expected.sort();
    assert_eq!(sorted_copy(&items), expected);
}

#[test]
fn text_order_is_by_character_then_length() {
    assert!(text_le_exec("", ""));
    assert!(text_le_exec("", "a"));
    assert!(!text_le_exec("a", ""));
    assert!(text_le_exec("a", "a"));
    assert!(text_le_exec("a", "ab"));
    assert!(!text_le_exec("ab", "a"));
    assert!(text_le_exec("ab", "b"));
    assert!(text_le_exec("Z", "a"));
    assert!(!text_le_exec("é", "z"));
}

#[test]
fn join_puts_separator_between_entries() {
    assert_eq!(join(&vec![], ", "), "");
    assert_eq!(join(&strings(&["a"]), ", "), "a");
    assert_eq!(join(&strings(&["a", "b", "c"]), "-"), "a-b-c");
    assert_eq!(join(&strings(&["", ""]), ","), ",");
}

#[test]
fn glued_puts_parts_together() {
    assert_eq!(glued(&vec![]), "");
    assert_eq!(glued(&vec!["a", "", "bc"]), "abc");
}

#[test]
fn decimal_writes_numbers() {
    assert_eq!(decimal(0), "0");
    assert_eq!(decimal(7), "7");
    assert_eq!(decimal(10), "10");
    assert_eq!(decimal(1234567890), "1234567890");
    assert_eq!(decimal(usize::MAX), usize::MAX.to_string());
}

#[test]
fn position_and_contains_find_first_entry() {
    let items = strings(&["a", "b", "a"]);
    assert_eq!(position_of(&items, &"a".to_string()), Some(0));
    assert_eq!(position_of(&items, &"b".to_string()), Some(1));
    assert_eq!(position_of(&items, &"c".to_string()), None);
    assert!(contains_text(&items, &"b".to_string()));
    assert!(!contains_text(&items, &"".to_string()));
}

#[test]
fn push_unique_adds_only_new_texts() {
    let mut items = strings(&["a"]);
    push_unique(&mut items, &"a".to_string());
    push_unique(&mut items, &"b".to_string());
    push_unique(&mut items, &"b".to_string());
    assert_eq!(items, strings(&["a", "b"]));
}

#[test]
fn chars_of_gives_characters() {
    assert_eq!(chars_of("aé日"), vec!['a', 'é', '日']);
    assert_eq!(chars_of(""), Vec::<char>::new());
}

#[test]
fn colorize_turns_ampersands_into_section_signs() {
    assert_eq!(colorize("&6[VIP]&r"), "§6[VIP]§r");
    assert_eq!(colorize("plain"), "plain");
    assert_eq!(colorize("&&"), "§§");
    assert_eq!(colorize(""), "");
}

#[test]
fn format_chat_builds_the_line() {
    assert_eq!(format_chat("&a[A]", "bob", "hi & ho"), "§a[A] <bob> hi & ho");
}
