use pumpkin_worldedit::strutil::{str_ends_with, str_eq};
use pumpkin_worldedit::tag::{Compound, Tag};

#[test]
fn string_helpers() {
    assert!(str_eq("abc", "abc"));
    assert!(!str_eq("abc", "abd"));
    assert!(!str_eq("abc", "ab"));
    assert!(str_ends_with("castle.schem", ".schem"));
    assert!(!str_ends_with("castle.schem", ".litematic"));
    assert!(!str_ends_with("hem", ".schem"));
}

#[test]
fn typed_getters_return_absence_on_mismatch() {
    let mut c = Compound::new();
    c.put("a".to_string(), Tag::Int(7));
    c.put("b".to_string(), Tag::Short(3));
    assert_eq!(c.get_int("a"), Some(7));
    assert_eq!(c.get_short("a"), None);
    assert_eq!(c.get_short("b"), Some(3));
    assert_eq!(c.get_int("missing"), None);
    assert!(c.get_compound("a").is_none());
}

#[test]
fn first_entry_wins_for_typed_getters() {
    let mut c = Compound::new();
    c.put("k".to_string(), Tag::Int(1));
    c.put("k".to_string(), Tag::Int(2));
    assert_eq!(c.get_int("k"), Some(1));
}
