use elemtok::{random_index, random_index_from, Error};

/// A 16-bit source that yields the given values in order, then panics if
/// drawn from again.
fn words_from(values: &[u16]) -> impl FnMut() -> u16 + '_ {
    let mut i = 0;
    move || {
        let v = values[i];
        i += 1;
        v
    }
}

#[test]
fn random_index_always_in_range() {
    for n in [2u32, 3, 16, 100, 104, 128, 200, 256] {
        for _ in 0..2000 {
            let v = random_index(n).unwrap();
            assert!(v < n);
        }
    }
}

#[test]
fn random_index_rejects_out_of_range_n() {
    assert!(matches!(
        random_index(0),
        Err(Error::InvalidLength { got: 0, .. })
    ));
    assert!(matches!(
        random_index(65537),
        Err(Error::InvalidLength { got: 65537, .. })
    ));
}

#[test]
fn random_index_from_skips_reject_zone() {
    // For n=104, max=65520: values >= 65520 are rejected.
    let mut src = words_from(&[65530, 5]); // 65530 rejected, 5 accepted -> 5 % 104
    assert_eq!(random_index_from(104, &mut src).unwrap(), 5);
}

#[test]
fn random_index_from_maps_accepted_value_via_modulo() {
    // 150 < 65520, so 150 % 104 = 46.
    let mut src = words_from(&[150]);
    assert_eq!(random_index_from(104, &mut src).unwrap(), 46);
}

#[test]
#[should_panic]
fn random_index_from_never_accepts_the_reject_zone() {
    // Feeding only a rejected value must exhaust the source (panic),
    // proving it is never accepted.
    let mut src = words_from(&[65530]);
    let _ = random_index_from(104, &mut src);
}

#[test]
fn random_index_from_is_provably_unbiased() {
    // Enumerating all 65536 values hits each of the 104 indices exactly
    // 630 times, with the top 16 values (65520..65536) rejected. A rejected
    // value is seen as a second draw from the source.
    let mut counts = [0u32; 104];
    let mut rejected = 0;
    for v in 0u32..65536 {
        let v16 = v as u16;
        let mut calls = 0u32;
        let index = random_index_from(104, || {
            calls += 1;
            if calls == 1 {
                v16
            } else {
                0
            }
        })
        .unwrap();
        if calls > 1 {
            assert!(v >= 65520, "value {v} should not be in the reject zone");
            rejected += 1;
            continue;
        }
        assert!(v < 65520, "value {v} should be in the reject zone");
        counts[index as usize] += 1;
    }
    assert_eq!(rejected, 16); // 65536 - 65520
    for c in counts {
        assert_eq!(c, 630); // 65520 / 104
    }
}

/// Integration-level no-bias check: a chi-square goodness-of-fit test on a
/// large sample of real draws from the secure source.
#[test]
fn random_index_distribution_passes_chi_square() {
    const N: u32 = 104;
    const SAMPLES: u32 = N * 5000; // ~520k draws
    let mut counts = [0u32; N as usize];
    for _ in 0..SAMPLES {
        counts[random_index(N).unwrap() as usize] += 1;
    }

    let expected = SAMPLES as f64 / N as f64;
    let chi_square: f64 = counts
        .iter()
        .map(|&observed| {
            let diff = observed as f64 - expected;
            (diff * diff) / expected
        })
        .sum();

    assert!(chi_square < 149.4);
}
