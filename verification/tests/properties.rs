use elemtok::{
    accept_word, generate, generate_from, random_index_from, validate, Error, ELEMENT_SYMBOLS,
    MAX_LENGTH, SYMBOL_COUNT,
};

#[test]
fn accept_word_selects_the_word_modulo_n_below_the_limit() {
    assert_eq!(accept_word(104, 150), Some(46));
    assert_eq!(accept_word(104, 0), Some(0));
    assert_eq!(accept_word(104, 65519), Some(103));
    assert_eq!(accept_word(104, 65520), None);
    assert_eq!(accept_word(104, 65535), None);
    assert_eq!(accept_word(1, 65535), Some(0));
    assert_eq!(accept_word(65536, 65535), Some(65535));
    assert_eq!(accept_word(3, 65534), Some(2));
    assert_eq!(accept_word(3, 65535), None);
}

#[test]
fn every_index_has_the_same_number_of_words() {
    for n in [1u32, 2, 3, 7, 104, 1000, 40000, 65535, 65536] {
        let mut counts = vec![0u32; n as usize];
        let mut rejected = 0u32;
        for w in 0u32..65536 {
            match accept_word(n, w as u16) {
                Some(i) => counts[i as usize] += 1,
                None => rejected += 1,
            }
        }
        assert_eq!(rejected, 65536 % n);
        assert!(rejected < n);
        for c in counts {
            assert_eq!(c, 65536 / n);
        }
    }
}

#[test]
fn random_index_from_reports_the_rejected_n() {
    assert_eq!(
        random_index_from(0, || 0),
        Err(Error::InvalidLength { got: 0, max: 65536 })
    );
    assert_eq!(
        random_index_from(70000, || 0),
        Err(Error::InvalidLength { got: 70000, max: 65536 })
    );
    assert_eq!(random_index_from(65536, || 65535), Ok(65535));
}

#[test]
fn invalid_lengths_report_the_length_and_the_bound() {
    assert_eq!(
        generate(Some(0)),
        Err(Error::InvalidLength { got: 0, max: MAX_LENGTH })
    );
    assert_eq!(
        generate_from(|| 0, Some(MAX_LENGTH + 1)),
        Err(Error::InvalidLength { got: MAX_LENGTH + 1, max: MAX_LENGTH })
    );
}

#[test]
fn a_constant_source_spells_one_symbol_repeatedly() {
    assert_eq!(generate_from(|| 7, Some(4)).unwrap(), "SiSiSiSi");
    assert_eq!(generate_from(|| 104 + 15, Some(2)).unwrap(), "FeFe");
    assert_eq!(generate_from(|| 65519, None).unwrap(), "Og".repeat(10));
}

#[test]
fn default_length_is_ten_symbols() {
    assert_eq!(generate_from(|| 0, None).unwrap(), "He".repeat(10));
    assert_eq!(generate(None).unwrap().len(), 20);
}

#[test]
fn every_spelling_of_symbols_validates() {
    for symbol in ELEMENT_SYMBOLS {
        assert!(validate(symbol));
    }
    let mut token = String::new();
    for i in 0..SYMBOL_COUNT {
        token.push_str(ELEMENT_SYMBOLS[(i * 37) % SYMBOL_COUNT]);
        assert!(validate(&token));
    }
    assert!(!validate(&token[1..]));
}

#[test]
fn the_secure_source_varies_between_tokens() {
    let first = generate(Some(12)).unwrap();
    let mut differs = false;
    for _ in 0..20 {
        if generate(Some(12)).unwrap() != first {
            differs = true;
        }
    }
    assert!(differs);
}

#[test]
fn errors_describe_themselves() {
    assert_eq!(
        Error::InvalidLength { got: 0, max: 65536 }.to_string(),
        "elemtok: length must be an integer in [1, 65536], got 0"
    );
    assert_eq!(
        Error::InvalidLength { got: 123456789, max: 10 }.to_string(),
        "elemtok: length must be an integer in [1, 10], got 123456789"
    );
    assert_eq!(
        Error::NoSecureRandom.to_string(),
        "elemtok: no secure random source available"
    );
}
