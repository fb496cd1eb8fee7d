//! Token generation.
use vstd::prelude::*;

use crate::error::Error;
use crate::rng::{
    accept_spec, acceptance_limit, accepted_indices, draws_since, lemma_acceptance_limit,
    lemma_accepted_after_failure, lemma_accepted_after_rejected, lemma_accepted_after_sample,
    lemma_accepted_in_range, no_failed_draw, rejected_draws, rejection_sample, words_from,
    CallerSource, OsSource, WordSource, DRAW_SPACE, REJECT_BUDGET,
};
use crate::symbols::{
    in_vocabulary, lemma_spell_chunk, lemma_spell_len, spell, ELEMENT_SYMBOLS, SYMBOL_COUNT,
};
use crate::validate::{is_token, lemma_spell_is_token};

verus! {

/// Default number of symbols in a token.
pub const DEFAULT_LENGTH: usize = 10;

/// Maximum number of symbols in a token (`2^16`), so that an unbounded or
/// attacker-influenced `length` cannot turn one call into an unbounded
/// allocation.
pub const MAX_LENGTH: usize = 65536;

/// The number of symbols that `length` asks for.
pub open spec fn requested_length(length: Option<usize>) -> int {
    match length {
        Some(l) => l as int,
        None => DEFAULT_LENGTH as int,
    }
}

/// The outcome `r` of building a token of `length` symbols, given the
/// draws `d` that the building made, in order (`None` for a draw that
/// failed): words are drawn until `length` of them are accepted, and the
/// token spells the indices they select, in the order they were drawn; a
/// failed draw ends the building with `NoSecureRandom`, and so does a run of
/// `REJECT_BUDGET` rejected words.
pub open spec fn token_outcome(length: Option<usize>, d: Seq<Option<u16>>, r: Result<String, Error>) -> bool {
    let l = requested_length(length);
    let n = SYMBOL_COUNT as u32;
    let idx = accepted_indices(n, d);
    if !(1 <= l <= MAX_LENGTH) {
        &&& r == Err::<String, Error>(Error::InvalidLength { got: l as usize, max: MAX_LENGTH })
        &&& d.len() == 0
    } else {
        match r {
            Ok(token) => {
                &&& no_failed_draw(d)
                &&& d.len() >= 1
                &&& d.last() matches Some(w) && accept_spec(n, w) is Some
                &&& idx.len() == l
                &&& token@ == spell(idx)
            },
            Err(e) => {
                &&& e == Error::NoSecureRandom
                &&& idx.len() < l
                &&& d.len() >= 1
                &&& {
                    ||| d.last() is None && no_failed_draw(d.drop_last())
                    ||| {
                        &&& no_failed_draw(d)
                        &&& d.len() >= REJECT_BUDGET
                        &&& rejected_draws(n, d.skip(d.len() - REJECT_BUDGET))
                    }
                }
            },
        }
    }
}

/// Every token that generation returns passes validation and has two
/// characters per requested symbol, whatever words were drawn.
pub proof fn lemma_generated_token_validates(length: Option<usize>, d: Seq<Option<u16>>, token: String)
    requires
        token_outcome(length, d, Ok(token)),
    ensures
        is_token(token@),
        token@.len() == 2 * requested_length(length),
{
    let idx = accepted_indices(SYMBOL_COUNT as u32, d);
    lemma_accepted_in_range(SYMBOL_COUNT as u32, d);
    assert(in_vocabulary(idx));
    lemma_spell_is_token(idx);
    lemma_spell_len(idx);
}

/// A draw that returned a word which sampling from the vocabulary accepts.
pub open spec fn is_accepted_draw(o: Option<u16>) -> bool {
    o matches Some(w) && (w as int) < acceptance_limit(SYMBOL_COUNT as int)
}

/// The accepted indices of the draws are the accepted words modulo 104.
proof fn lemma_accepted_indices_are_words_mod(d: Seq<Option<u16>>)
    ensures
        ({
            let ws = d.filter(|o: Option<u16>| is_accepted_draw(o));
            &&& accepted_indices(SYMBOL_COUNT as u32, d).len() == ws.len()
            &&& forall|k: int|
                0 <= k < ws.len() ==> #[trigger] accepted_indices(SYMBOL_COUNT as u32, d)[k] as int
                    == (ws[k]->0 as int) % 104
        }),
    decreases d.len(),
{
    reveal_with_fuel(Seq::<Option<u16>>::filter, 1);
    let pred = |o: Option<u16>| is_accepted_draw(o);
    if d.len() > 0 {
        lemma_accepted_indices_are_words_mod(d.drop_last());
        let earlier = accepted_indices(SYMBOL_COUNT as u32, d.drop_last());
        let ws0 = d.drop_last().filter(pred);
        let ws = d.filter(pred);
        assert(ws == (if pred(d.last()) { ws0.push(d.last()) } else { ws0 }));
        if pred(d.last()) {
            let w = d.last()->0;
            assert(accept_spec(SYMBOL_COUNT as u32, w) == Some((w as int % 104) as u32));
            assert(accepted_indices(SYMBOL_COUNT as u32, d) == earlier.push((w as int % 104) as u32));
            assert forall|k: int| 0 <= k < ws.len() implies #[trigger] accepted_indices(SYMBOL_COUNT as u32, d)[k] as int
                == (ws[k]->0 as int) % 104 by {
                if k < ws0.len() {
                    assert(ws[k] == ws0[k]);
                    assert(accepted_indices(SYMBOL_COUNT as u32, d)[k] == earlier[k]);
                }
            }
        } else {
            assert(accepted_indices(SYMBOL_COUNT as u32, d) == earlier);
        }
    } else {
        assert(d.filter(pred) =~= Seq::<Option<u16>>::empty());
    }
}

/// A generated token spells the accepted words in the order they were
/// drawn: its `k`-th symbol is `ELEMENT_SYMBOLS[w % 104]`, where `w` is the
/// `k`-th word among the draws that lies below the acceptance limit, and it
/// has exactly one symbol per accepted word.
pub proof fn lemma_token_follows_draw_order(length: Option<usize>, d: Seq<Option<u16>>, token: String)
    requires
        token_outcome(length, d, Ok(token)),
    ensures
        ({
            let ws = d.filter(|o: Option<u16>| is_accepted_draw(o));
            &&& ws.len() == requested_length(length)
            &&& token@.len() == 2 * ws.len()
            &&& forall|k: int|
                0 <= k < ws.len() ==> #[trigger] token@.subrange(2 * k, 2 * k + 2)
                    == ELEMENT_SYMBOLS@[(ws[k]->0 as int) % 104]@
        }),
{
    let ws = d.filter(|o: Option<u16>| is_accepted_draw(o));
    let idx = accepted_indices(SYMBOL_COUNT as u32, d);
    lemma_accepted_indices_are_words_mod(d);
    lemma_accepted_in_range(SYMBOL_COUNT as u32, d);
    assert(in_vocabulary(idx));
    lemma_spell_len(idx);
    assert forall|k: int| 0 <= k < ws.len() implies #[trigger] token@.subrange(2 * k, 2 * k + 2)
        == ELEMENT_SYMBOLS@[(ws[k]->0 as int) % 104]@ by {
        lemma_spell_chunk(idx, k);
        assert(idx[k] as int == (ws[k]->0 as int) % 104);
    }
}

/// Draws that all return the same accepted word `w` determine the token:
/// each of its symbols is the one at `w % 104`, and building never gives up.
pub proof fn lemma_single_word_source_determines_token(
    w: u16,
    length: Option<usize>,
    d: Seq<Option<u16>>,
    r: Result<String, Error>,
)
    requires
        forall|k: int| 0 <= k < d.len() ==> #[trigger] d[k] == Some(w),
        (w as int) < acceptance_limit(SYMBOL_COUNT as int),
        1 <= requested_length(length) <= MAX_LENGTH,
        token_outcome(length, d, r),
    ensures
        r matches Ok(token) && token@ == spell(
            Seq::new(requested_length(length) as nat, |k: int| (w % 104) as u32),
        ),
{
    let n = SYMBOL_COUNT as u32;
    lemma_constant_draws(n, w, d);
    if r is Err {
        assert(d[d.len() - 1] == Some(w));
        let tail = d.skip(d.len() - REJECT_BUDGET);
        assert(tail[0] == d[d.len() - REJECT_BUDGET]);
    }
    let expected = Seq::new(requested_length(length) as nat, |k: int| (w % 104) as u32);
    assert(accepted_indices(n, d) =~= expected);
}

/// Draws that all return the same accepted word `w` select `w % n` each time.
proof fn lemma_constant_draws(n: u32, w: u16, d: Seq<Option<u16>>)
    requires
        1 <= n <= DRAW_SPACE,
        forall|k: int| 0 <= k < d.len() ==> #[trigger] d[k] == Some(w),
        (w as int) < acceptance_limit(n as int),
    ensures
        accepted_indices(n, d) == Seq::new(d.len(), |k: int| (w as int % n as int) as u32),
    decreases d.len(),
{
    if d.len() > 0 {
        let p = d.drop_last();
        assert forall|k: int| 0 <= k < p.len() implies #[trigger] p[k] == Some(w) by {
            assert(p[k] == d[k]);
        }
        lemma_constant_draws(n, w, p);
        assert(d.last() == Some(w));
        assert(accepted_indices(n, d) =~= Seq::new(d.len(), |k: int| (w as int % n as int) as u32));
    } else {
        assert(accepted_indices(n, d) =~= Seq::new(d.len(), |k: int| (w as int % n as int) as u32));
    }
}

/// Builds a token of `length` symbols (default 10), drawing each symbol's
/// index from `src`.
fn build_token<S: WordSource>(length: Option<usize>, src: &mut S) -> (r: Result<String, Error>)
    requires
        old(src).ready(),
    ensures
        final(src).ready(),
        final(src).draws() == old(src).draws() + draws_since(old(src).draws(), final(src).draws()),
        token_outcome(length, draws_since(old(src).draws(), final(src).draws()), r),
        old(src).infallible() ==> words_from(
            draws_since(old(src).draws(), final(src).draws()),
            |w: u16| old(src).yields(w),
        ),
{
    let ghost before = src.draws();
    let l: usize = match length {
        Some(l) => l,
        None => DEFAULT_LENGTH,
    };
    if l < 1 || l > MAX_LENGTH {
        assert(src.draws().skip(before.len() as int) =~= Seq::<Option<u16>>::empty());
        assert(src.draws() =~= before + Seq::<Option<u16>>::empty());
        return Err(Error::InvalidLength { got: l, max: MAX_LENGTH });
    }
    let mut token = String::new();
    let ghost mut d: Seq<Option<u16>> = Seq::empty();
    let mut k: usize = 0;
    while k < l
        invariant
            1 <= l <= MAX_LENGTH,
            l == requested_length(length),
            k <= l,
            before == old(src).draws(),
            src.ready(),
            src.infallible() == old(src).infallible(),
            forall|w: u16| #[trigger] src.yields(w) == old(src).yields(w),
            src.draws() == before + d,
            no_failed_draw(d),
            forall|j: int| 0 <= j < d.len() ==> match #[trigger] d[j] {
                Some(w) => old(src).yields(w),
                None => false,
            },
            accepted_indices(SYMBOL_COUNT as u32, d).len() == k,
            k == 0 <==> d.len() == 0,
            k > 0 ==> (d.last() matches Some(w) && accept_spec(SYMBOL_COUNT as u32, w) is Some),
            token@ == spell(accepted_indices(SYMBOL_COUNT as u32, d)),
        decreases l - k,
    {
        let ghost mid = src.draws();
        let sampled = rejection_sample(104, src);
        let ghost e = draws_since(mid, src.draws());
        proof {
            assert(src.draws() =~= before + (d + e));
        }
        match sampled {
            Ok(i) => {
                proof {
                    lemma_accepted_after_sample(SYMBOL_COUNT as u32, d, e, i);
                    lemma_acceptance_limit(104);
                }
                assert(i < 104);
                token.append(ELEMENT_SYMBOLS[i as usize]);
                proof {
                    let old_idx = accepted_indices(SYMBOL_COUNT as u32, d);
                    let old_d = d;
                    d = d + e;
                    assert(accepted_indices(SYMBOL_COUNT as u32, d) == old_idx.push(i));
                    assert(accepted_indices(SYMBOL_COUNT as u32, d).drop_last() =~= old_idx);
                    assert(d.last() == e.last());
                    assert forall|j: int| 0 <= j < d.len() implies (#[trigger] d[j]) is Some by {
                        if j >= old_d.len() {
                            assert(d[j] == e[j - old_d.len()]);
                            if j - old_d.len() < e.len() - 1 {
                                assert(e.drop_last()[j - old_d.len()] == e[j - old_d.len()]);
                            }
                        } else {
                            assert(d[j] == old_d[j]);
                        }
                    }
                    assert forall|j: int| 0 <= j < d.len() implies match #[trigger] d[j] {
                        Some(w) => old(src).yields(w),
                        None => false,
                    } by {
                        if j >= old_d.len() {
                            assert(d[j] == e[j - old_d.len()]);
                        } else {
                            assert(d[j] == old_d[j]);
                        }
                    }
                }
            },
            Err(err) => {
                proof {
                    let old_d = d;
                    let n = SYMBOL_COUNT as u32;
                    let dd = d + e;
                    if e.last() is None && rejected_draws(n, e.drop_last()) {
                        lemma_accepted_after_failure(n, d, e);
                        assert(dd.drop_last() =~= d + e.drop_last());
                        assert forall|j: int| 0 <= j < dd.drop_last().len() implies (#[trigger] dd.drop_last()[j]) is Some by {
                            if j >= old_d.len() {
                                assert(dd.drop_last()[j] == e.drop_last()[j - old_d.len()]);
                            } else {
                                assert(dd.drop_last()[j] == old_d[j]);
                            }
                        }
                    } else {
                        lemma_accepted_after_rejected(n, d, e);
                        assert(dd.skip(dd.len() - REJECT_BUDGET) =~= e);
                        assert forall|j: int| 0 <= j < dd.len() implies (#[trigger] dd[j]) is Some by {
                            if j >= old_d.len() {
                                assert(dd[j] == e[j - old_d.len()]);
                            } else {
                                assert(dd[j] == old_d[j]);
                            }
                        }
                    }
                    assert(src.draws().skip(before.len() as int) =~= dd);
                    if old(src).infallible() {
                        assert forall|j: int| 0 <= j < dd.len() implies match #[trigger] dd[j] {
                            Some(w) => old(src).yields(w),
                            None => false,
                        } by {
                            if j >= old_d.len() {
                                assert(dd[j] == e[j - old_d.len()]);
                            } else {
                                assert(dd[j] == old_d[j]);
                            }
                        }
                    }
                }
                return Err(err);
            },
        }
        k = k + 1;
    }
    assert(src.draws().skip(before.len() as int) =~= d);
    Ok(token)
}

/// Derives a token from a caller-supplied 16-bit source instead of the
/// platform's secure source, with the same rejection sampling, so no modulo
/// bias for any source: words in the reject zone are drawn again, and each
/// symbol comes from a fresh accepted word, in the order they were drawn.
///
/// `length` defaults to 10 when `None`.
///
/// # Errors
///
/// [`Error::InvalidLength`] if `length` is a value outside `[1, MAX_LENGTH]`;
/// [`Error::NoSecureRandom`] if the source keeps returning rejected words.
pub fn generate_from<F: FnMut() -> u16>(next16: F, length: Option<usize>) -> (r: Result<String, Error>)
    requires
        call_requires(next16, ()),
    ensures
        exists|d: Seq<Option<u16>>|
            words_from(d, |w: u16| call_ensures(next16, (), w)) && #[trigger] token_outcome(length, d, r),
{
    let mut src = CallerSource { next16, drawn: Ghost(Seq::empty()) };
    let ghost start = src;
    let r = build_token(length, &mut src);
    let ghost d = draws_since(Seq::<Option<u16>>::empty(), src.draws());
    assert((|w: u16| start.yields(w)) =~= (|w: u16| call_ensures(next16, (), w)));
    assert(token_outcome(length, d, r));
    r
}

/// Generates a token of `length` symbols (default 10) drawn uniformly from
/// the vocabulary with the platform's secure source: words in the reject
/// zone are drawn again, and each symbol comes from a fresh accepted word.
///
/// # Errors
///
/// [`Error::InvalidLength`] if `length` is a value outside `[1, MAX_LENGTH]`;
/// [`Error::NoSecureRandom`] if the platform has no secure random source.
pub fn generate(length: Option<usize>) -> (r: Result<String, Error>)
    ensures
        exists|d: Seq<Option<u16>>| #[trigger] token_outcome(length, d, r),
{
    let mut src = OsSource { drawn: Ghost(Seq::empty()) };
    let r = build_token(length, &mut src);
    let ghost d = draws_since(Seq::<Option<u16>>::empty(), src.draws());
    assert(token_outcome(length, d, r));
    r
}

} // verus!
