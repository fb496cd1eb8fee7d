use elemtok::validate;

#[test]
fn accepts_a_canonical_token() {
    assert!(validate("FeAuRnCuXe"));
    assert!(validate("Fe"));
}

#[test]
fn rejects_an_empty_token() {
    assert!(!validate(""));
}

#[test]
fn rejects_a_token_that_is_not_a_whole_number_of_symbols() {
    assert!(!validate("Fea"));
    assert!(!validate("FeAuR"));
}

#[test]
fn is_case_sensitive() {
    assert!(!validate("feau"));
    assert!(!validate("FEAU"));
    assert!(!validate("FeAU"));
}

#[test]
fn rejects_well_formed_but_unknown_symbols() {
    assert!(!validate("XxFe"));
}

#[test]
fn rejects_excluded_single_letter_symbols() {
    assert!(!validate("U"));
}

#[test]
fn rejects_surrounding_whitespace() {
    assert!(!validate(" FeAu"));
    assert!(!validate("FeAu "));
}

#[test]
fn rejects_delimiters() {
    assert!(!validate("Fe-Au"));
    assert!(!validate("Fe.Au"));
}

#[test]
fn rejects_non_ascii_without_panicking() {
    assert!(!validate("Fé"));
    assert!(!validate("日本語abc"));
}
