use elemtok::{ELEMENT_SYMBOLS, SYMBOL_COUNT};
use std::collections::HashSet;

const EXCLUDED_SINGLE_LETTERS: [&str; 14] = [
    "H", "B", "C", "N", "O", "F", "P", "S", "K", "V", "W", "Y", "I", "U",
];

#[test]
fn contains_exactly_104_symbols() {
    assert_eq!(ELEMENT_SYMBOLS.len(), 104);
    assert_eq!(SYMBOL_COUNT, 104);
}

#[test]
fn has_no_duplicates() {
    let unique: HashSet<&str> = ELEMENT_SYMBOLS.into_iter().collect();
    assert_eq!(unique.len(), ELEMENT_SYMBOLS.len());
}

#[test]
fn is_entirely_canonical_two_letter_casing() {
    for symbol in ELEMENT_SYMBOLS {
        let mut chars = symbol.chars();
        let first = chars.next().unwrap();
        let second = chars.next().unwrap();
        assert!(chars.next().is_none(), "{symbol} is not two characters");
        assert!(first.is_ascii_uppercase(), "{symbol} must start uppercase");
        assert!(second.is_ascii_lowercase(), "{symbol} must end lowercase");
    }
}

#[test]
fn excludes_every_single_letter_element_symbol() {
    for single in EXCLUDED_SINGLE_LETTERS {
        assert!(!ELEMENT_SYMBOLS.contains(&single));
    }
}
