//! Format validation of tokens.
use vstd::prelude::*;

use crate::symbols::{
    in_vocabulary, is_symbol, lemma_spell_chunk, lemma_spell_len, lemma_symbols_are_canonical, spell,
    symbol, ELEMENT_SYMBOLS, SYMBOL_COUNT,
};

verus! {

broadcast use vstd::string::group_string_axioms;

/// `s` is a non-empty concatenation of vocabulary symbols: it splits into
/// two-character chunks, each of which is a symbol.
pub open spec fn is_token(s: Seq<char>) -> bool {
    &&& s.len() > 0
    &&& s.len() % 2 == 0
    &&& forall|k: int| 0 <= k < s.len() / 2 ==> #[trigger] is_symbol(s.subrange(2 * k, 2 * k + 2))
}

/// Whether the two ASCII characters with codes `b0` and `b1` form a symbol.
fn is_symbol_bytes(b0: u8, b1: u8) -> (r: bool)
    ensures
        r == is_symbol(seq![b0 as char, b1 as char]),
{
    let mut i: usize = 0;
    while i < SYMBOL_COUNT
        invariant
            i <= SYMBOL_COUNT,
            forall|j: int| 0 <= j < i ==> #[trigger] symbol(j) != seq![b0 as char, b1 as char],
        decreases SYMBOL_COUNT - i,
    {
        let s: &str = ELEMENT_SYMBOLS[i];
        proof {
            lemma_symbols_are_canonical();
            assert(s@ == symbol(i as int));
            assert forall|j: int| 0 <= j < s@.len() implies '\0' <= #[trigger] s@[j] <= '\u{7f}' by {
                assert(j == 0 || j == 1);
            }
            assert(vstd::string::is_ascii(s));
        }
        let sb: &[u8] = s.as_bytes();
        assert(sb@.len() == 2);
        if sb[0] == b0 && sb[1] == b1 {
            assert(symbol(i as int) == seq![b0 as char, b1 as char]);
            return true;
        }
        i = i + 1;
    }
    false
}

/// Spelling any non-empty sequence of vocabulary positions gives a token.
pub proof fn lemma_spell_is_token(idx: Seq<u32>)
    requires
        idx.len() > 0,
        in_vocabulary(idx),
    ensures
        is_token(spell(idx)),
{
    lemma_spell_len(idx);
    let s = spell(idx);
    assert forall|k: int| 0 <= k < s.len() / 2 implies #[trigger] is_symbol(s.subrange(2 * k, 2 * k + 2)) by {
        lemma_spell_chunk(idx, k);
        assert(idx[k] < SYMBOL_COUNT);
        assert(symbol(idx[k] as int) == s.subrange(2 * k, 2 * k + 2));
    }
}

/// The tokens are exactly the spellings of the non-empty sequences of
/// vocabulary positions: `validate` accepts a string if and only if it is a
/// non-empty concatenation of symbols.
pub proof fn lemma_token_iff_spelled(s: Seq<char>)
    ensures
        is_token(s) <==> exists|idx: Seq<u32>|
            idx.len() > 0 && in_vocabulary(idx) && #[trigger] spell(idx) == s,
{
    if is_token(s) {
        let half = s.len() / 2;
        let idx = Seq::new(
            half as nat,
            |k: int| (choose|j: int| 0 <= j < SYMBOL_COUNT && #[trigger] symbol(j) == s.subrange(2 * k, 2 * k + 2)) as u32,
        );
        assert forall|k: int| 0 <= k < idx.len() implies symbol(#[trigger] idx[k] as int) == s.subrange(2 * k, 2 * k + 2) && idx[k] < SYMBOL_COUNT by {
            assert(is_symbol(s.subrange(2 * k, 2 * k + 2)));
        }
        lemma_spell_len(idx);
        let t = spell(idx);
        assert forall|i: int| 0 <= i < s.len() implies #[trigger] t[i] == s[i] by {
            let k = i / 2;
            lemma_spell_chunk(idx, k);
            assert(t[i] == t.subrange(2 * k, 2 * k + 2)[i - 2 * k]);
            assert(s[i] == s.subrange(2 * k, 2 * k + 2)[i - 2 * k]);
        }
        assert(t =~= s);
    }
    if exists|idx: Seq<u32>| idx.len() > 0 && in_vocabulary(idx) && #[trigger] spell(idx) == s {
        let idx = choose|idx: Seq<u32>| idx.len() > 0 && in_vocabulary(idx) && #[trigger] spell(idx) == s;
        lemma_spell_is_token(idx);
    }
}

/// Every character of a token is ASCII, since every symbol is.
proof fn lemma_token_is_ascii(s: Seq<char>)
    requires
        is_token(s),
    ensures
        vstd::utf8::is_ascii_chars(s),
{
    lemma_symbols_are_canonical();
    assert forall|i: int| 0 <= i < s.len() implies '\0' <= #[trigger] s[i] <= '\u{7f}' by {
        let k = i / 2;
        let chunk = s.subrange(2 * k, 2 * k + 2);
        assert(is_symbol(chunk));
        let j = choose|j: int| 0 <= j < SYMBOL_COUNT && #[trigger] symbol(j) == chunk;
        assert(symbol(j).len() == 2);
        assert(s[i] == chunk[i - 2 * k]);
    }
}

/// Validates that `token` is a concatenation of known element symbols.
///
/// This is a syntax gate, not authentication: it confirms the token is
/// well-formed against the public vocabulary, nothing more. Validation is
/// strict and case-sensitive, with no trimming and no checksum: an empty
/// token, a token that is not a whole number of two-character symbols, or
/// any two-character chunk that is not an element symbol gives `false`.
pub fn validate(token: &str) -> (r: bool)
    ensures
        r == is_token(token@),
{
    if !token.is_ascii() {
        proof {
            if is_token(token@) {
                lemma_token_is_ascii(token@);
            }
        }
        return false;
    }
    let bytes: &[u8] = token.as_bytes();
    let n: usize = bytes.len();
    assert(n == token@.len());
    if n == 0 || n % 2 != 0 {
        return false;
    }
    let half: usize = n / 2;
    let mut k: usize = 0;
    while k < half
        invariant
            n == token@.len(),
            n == bytes@.len(),
            half == n / 2,
            k <= half,
            forall|i: int| 0 <= i < n ==> #[trigger] bytes@[i] == token@[i] as u8,
            vstd::string::is_ascii(token),
            forall|j: int| 0 <= j < k ==> #[trigger] is_symbol(token@.subrange(2 * j, 2 * j + 2)),
        decreases half - k,
    {
        let b0: u8 = bytes[2 * k];
        let b1: u8 = bytes[2 * k + 1];
        let found = is_symbol_bytes(b0, b1);
        let ghost chunk = token@.subrange(2 * k as int, 2 * k + 2);
        assert(token@[2 * k as int] == chunk[0]);
        assert(token@[2 * k + 1] == chunk[1]);
        assert(chunk == seq![b0 as char, b1 as char]);
        if !found {
            return false;
        }
        k = k + 1;
    }
    true
}

} // verus!
