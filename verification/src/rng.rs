//! Unbiased index sampling by rejection over a 16-bit window.
//!
//! A 16-bit word `w` is accepted for a range `[0, n)` when it lies below the
//! largest multiple of `n` that fits the window; it then selects `w % n`.
//! Within the accepted window every residue class is equally populated, so
//! the selected index carries no modulo bias.
use vstd::prelude::*;

use crate::error::Error;
use crate::os_random::os_fill;

verus! {

/// Size of the sampling window: a 16-bit value.
pub const DRAW_SPACE: u32 = 65536;

/// The largest multiple of `n` that fits the window: words below it are
/// accepted.
pub open spec fn acceptance_limit(n: int) -> int {
    (DRAW_SPACE as int / n) * n
}

/// What one drawn word yields when sampling from `[0, n)`: the index
/// `word % n` when the word is accepted, nothing when it is rejected.
pub open spec fn accept_spec(n: u32, word: u16) -> Option<u32> {
    if (word as int) < acceptance_limit(n as int) {
        Some((word as int % n as int) as u32)
    } else {
        None
    }
}

/// The number of consecutive rejected words after which a draw gives up.
/// At one word per nanosecond it takes centuries to reach.
pub const REJECT_BUDGET: u64 = 0xffff_ffff_ffff_ffff;

/// Every draw in `d` returned a word, and sampling from `[0, n)` rejects it.
pub open spec fn rejected_draws(n: u32, d: Seq<Option<u16>>) -> bool {
    forall|k: int|
        0 <= k < d.len() ==> match #[trigger] d[k] {
            Some(w) => accept_spec(n, w) is None,
            None => false,
        }
}

/// Every draw in `d` returned a word, and every such word satisfies `yields`.
pub open spec fn words_from(d: Seq<Option<u16>>, yields: spec_fn(u16) -> bool) -> bool {
    forall|k: int|
        0 <= k < d.len() ==> match #[trigger] d[k] {
            Some(w) => yields(w),
            None => false,
        }
}

/// The outcome `r` of sampling an index in `[0, n)`, given the draws `d`
/// that the sampling made, in order (`None` for a draw that failed):
/// rejected words are drawn again until one is accepted, and the index is
/// the accepted word modulo `n`; a failed draw ends the sampling with
/// `NoSecureRandom`, and so does a run of `REJECT_BUDGET` rejected words.
pub open spec fn sample_outcome(n: u32, d: Seq<Option<u16>>, r: Result<u32, Error>) -> bool {
    if !(1 <= n <= DRAW_SPACE) {
        &&& r == Err::<u32, Error>(Error::InvalidLength { got: n as usize, max: DRAW_SPACE as usize })
        &&& d.len() == 0
    } else {
        match r {
            Ok(i) => {
                &&& d.len() >= 1
                &&& rejected_draws(n, d.drop_last())
                &&& d.last() matches Some(w) && accept_spec(n, w) == Some(i)
            },
            Err(e) => {
                &&& e == Error::NoSecureRandom
                &&& d.len() >= 1
                &&& {
                    ||| d.last() is None && rejected_draws(n, d.drop_last())
                    ||| d.len() == REJECT_BUDGET && rejected_draws(n, d)
                }
            },
        }
    }
}

pub proof fn lemma_acceptance_limit(n: int)
    requires
        1 <= n <= DRAW_SPACE,
    ensures
        0 <= DRAW_SPACE - acceptance_limit(n) < n,
        acceptance_limit(n) % n == 0,
{
    assert(0 <= DRAW_SPACE - acceptance_limit(n) < n) by (nonlinear_arith)
        requires
            1 <= n <= 65536,
            DRAW_SPACE == 65536,
            acceptance_limit(n) == (65536int / n) * n,
    ;
    vstd::arithmetic::div_mod::lemma_mod_multiples_basic(DRAW_SPACE as int / n, n);
}

/// The words that select index `i` when sampling from `[0, n)`.
pub open spec fn words_selecting(n: u32, i: u32) -> Set<u16> {
    Set::new(|w: u16| accept_spec(n, w) == Some(i))
}

/// The words that are rejected when sampling from `[0, n)`.
pub open spec fn rejected_words(n: u32) -> Set<u16> {
    Set::new(|w: u16| accept_spec(n, w) is None)
}

/// Rejection sampling is free of modulo bias: of the 65536 words, every
/// index in `[0, n)` is selected by exactly `65536 / n` of them, and the
/// remaining `65536 % n` words, fewer than `n`, are rejected.
pub proof fn lemma_sampling_is_unbiased(n: u32, i: u32)
    requires
        1 <= n <= DRAW_SPACE,
        i < n,
    ensures
        words_selecting(n, i).finite(),
        words_selecting(n, i).len() == DRAW_SPACE as int / n as int,
        rejected_words(n).finite(),
        rejected_words(n).len() == DRAW_SPACE as int % n as int,
        rejected_words(n).len() < n,
{
    let nn = n as int;
    let q = DRAW_SPACE as int / nn;
    let limit = acceptance_limit(nn);
    lemma_acceptance_limit(nn);
    vstd::arithmetic::div_mod::lemma_fundamental_div_mod(DRAW_SPACE as int, nn);
    assert(limit == q * nn);

    // The selecting words are i, i + n, ..., i + (q - 1) n.
    let ks = vstd::set_lib::set_int_range(0, q);
    vstd::set_lib::lemma_int_range(0, q);
    let f = |k: int| (i + k * nn) as u16;
    assert forall|k: int| 0 <= k < q implies 0 <= #[trigger] (i + k * nn) < limit by {
        assert(k * nn <= (q - 1) * nn) by (nonlinear_arith)
            requires
                0 <= k < q,
                nn >= 1,
        ;
        assert((q - 1) * nn == q * nn - nn) by (nonlinear_arith);
        assert(0 <= k * nn) by (nonlinear_arith)
            requires
                0 <= k,
                nn >= 1,
        ;
    }
    assert forall|k1: int, k2: int| ks.contains(k1) && ks.contains(k2) && #[trigger] f(k1) == #[trigger] f(k2) implies k1 == k2 by {
        assert(0 <= i + k1 * nn < limit);
        assert(0 <= i + k2 * nn < limit);
        assert(i + k1 * nn == i + k2 * nn);
        assert(k1 == k2) by (nonlinear_arith)
            requires
                k1 * nn == k2 * nn,
                nn >= 1,
        ;
    }
    assert(vstd::relations::injective_on(f, ks));
    assert forall|w: u16| #[trigger] words_selecting(n, i).contains(w) <==> ks.map(f).contains(w) by {
        if words_selecting(n, i).contains(w) {
            let k = w as int / nn;
            vstd::arithmetic::div_mod::lemma_fundamental_div_mod(w as int, nn);
            assert(w as int == nn * k + i);
            assert(k < q) by (nonlinear_arith)
                requires
                    w as int == nn * k + i,
                    (w as int) < q * nn,
                    0 <= i,
                    nn >= 1,
            ;
            assert(0 <= k) by (nonlinear_arith)
                requires
                    k == w as int / nn,
                    0 <= w,
                    nn >= 1,
            ;
            assert(k * nn == nn * k) by (nonlinear_arith);
            assert(i + k * nn == w as int);
            assert(f(k) == w);
            assert(ks.contains(k));
        }
        if ks.map(f).contains(w) {
            let k = choose|k: int| ks.contains(k) && f(k) == w;
            assert(0 <= i + k * nn < limit);
            assert(w as int == i + k * nn);
            vstd::arithmetic::div_mod::lemma_mod_multiples_vanish(k, i as int, nn);
            vstd::arithmetic::div_mod::lemma_small_mod(i as nat, nn as nat);
            assert((i + k * nn) % nn == i);
        }
    }
    assert(words_selecting(n, i) =~= ks.map(f));
    vstd::set_lib::lemma_map_size(ks, words_selecting(n, i), f);

    // The rejected words are limit, ..., 65535.
    let rs = vstd::set_lib::set_int_range(limit, DRAW_SPACE as int);
    vstd::set_lib::lemma_int_range(limit, DRAW_SPACE as int);
    let g = |v: int| v as u16;
    assert(vstd::relations::injective_on(g, rs));
    assert forall|w: u16| #[trigger] rejected_words(n).contains(w) <==> rs.map(g).contains(w) by {
        if rejected_words(n).contains(w) {
            assert(g(w as int) == w);
            assert(rs.contains(w as int));
        }
    }
    assert(rejected_words(n) =~= rs.map(g));
    vstd::set_lib::lemma_map_size(rs, rejected_words(n), g);
}

/// Decides one draw: the index that `word` selects in `[0, n)`, or `None`
/// when the word lies in the reject zone and a fresh word must be drawn.
pub fn accept_word(n: u32, word: u16) -> (r: Option<u32>)
    requires
        1 <= n <= DRAW_SPACE,
    ensures
        r == accept_spec(n, word),
        r matches Some(i) ==> i < n,
{
    proof {
        lemma_acceptance_limit(n as int);
    }
    let max: u32 = (DRAW_SPACE / n) * n;
    let w: u32 = word as u32;
    if w < max {
        Some(w % n)
    } else {
        None
    }
}


/// The indices that the accepted words among the draws `d` select from
/// `[0, n)`, in the order they were drawn.
pub open spec fn accepted_indices(n: u32, d: Seq<Option<u16>>) -> Seq<u32>
    decreases d.len(),
{
    if d.len() == 0 {
        Seq::empty()
    } else {
        let earlier = accepted_indices(n, d.drop_last());
        match d.last() {
            Some(w) => match accept_spec(n, w) {
                Some(i) => earlier.push(i),
                None => earlier,
            },
            None => earlier,
        }
    }
}

/// Every draw in `d` returned a word.
pub open spec fn no_failed_draw(d: Seq<Option<u16>>) -> bool {
    forall|k: int| 0 <= k < d.len() ==> (#[trigger] d[k]) is Some
}

/// Rejected words select nothing.
pub proof fn lemma_accepted_after_rejected(n: u32, d: Seq<Option<u16>>, e: Seq<Option<u16>>)
    requires
        rejected_draws(n, e),
    ensures
        accepted_indices(n, d + e) == accepted_indices(n, d),
    decreases e.len(),
{
    if e.len() > 0 {
        assert((d + e).drop_last() =~= d + e.drop_last());
        assert(e[e.len() - 1] is Some);
        assert(rejected_draws(n, e.drop_last()));
        lemma_accepted_after_rejected(n, d, e.drop_last());
    } else {
        assert(d + e =~= d);
    }
}

/// A failed draw after rejected words selects nothing.
pub proof fn lemma_accepted_after_failure(n: u32, d: Seq<Option<u16>>, e: Seq<Option<u16>>)
    requires
        e.len() >= 1,
        e.last() is None,
        rejected_draws(n, e.drop_last()),
    ensures
        accepted_indices(n, d + e) == accepted_indices(n, d),
{
    assert((d + e).drop_last() =~= d + e.drop_last());
    lemma_accepted_after_rejected(n, d, e.drop_last());
}

/// Rejected words followed by a word that selects `i` add `i`.
pub proof fn lemma_accepted_after_sample(n: u32, d: Seq<Option<u16>>, e: Seq<Option<u16>>, i: u32)
    requires
        e.len() >= 1,
        rejected_draws(n, e.drop_last()),
        e.last() matches Some(w) && accept_spec(n, w) == Some(i),
    ensures
        accepted_indices(n, d + e) == accepted_indices(n, d).push(i),
{
    assert((d + e).drop_last() =~= d + e.drop_last());
    lemma_accepted_after_rejected(n, d, e.drop_last());
}

/// Accepted words select indices in `[0, n)`.
pub proof fn lemma_accepted_in_range(n: u32, d: Seq<Option<u16>>)
    requires
        1 <= n <= DRAW_SPACE,
    ensures
        forall|k: int| 0 <= k < accepted_indices(n, d).len() ==> #[trigger] accepted_indices(n, d)[k] < n,
    decreases d.len(),
{
    if d.len() > 0 {
        let earlier = accepted_indices(n, d.drop_last());
        lemma_accepted_in_range(n, d.drop_last());
        lemma_acceptance_limit(n as int);
        if let Some(w) = d.last() {
            if let Some(i) = accept_spec(n, w) {
                assert(i == (w as int % n as int) as u32);
                assert(accepted_indices(n, d) == earlier.push(i));
                assert forall|k: int| 0 <= k < earlier.len() + 1 implies #[trigger] earlier.push(i)[k] < n by {
                    if k < earlier.len() {
                        assert(earlier.push(i)[k] == earlier[k]);
                    }
                }
            }
        }
    }
}

/// A source of 16-bit words for the sampler, which keeps a record of the
/// draws made from it.
pub(crate) trait WordSource: Sized {
    /// The draws made so far, in order: the word each returned, or `None`
    /// for a draw that failed.
    spec fn draws(&self) -> Seq<Option<u16>>;

    /// `w` is a word that a draw from this source may return.
    spec fn yields(&self, w: u16) -> bool;

    /// A draw from this source may be made.
    spec fn ready(&self) -> bool;

    /// Draws from this source never fail.
    spec fn infallible(&self) -> bool;

    /// Draws one word, and records the draw.
    fn next_word(&mut self) -> (r: Result<u16, Error>)
        requires
            old(self).ready(),
        ensures
            final(self).ready(),
            final(self).infallible() == old(self).infallible(),
            forall|w: u16| #[trigger] final(self).yields(w) == old(self).yields(w),
            match r {
                Ok(w) => old(self).yields(w) && final(self).draws() == old(self).draws().push(Some(w)),
                Err(e) => {
                    &&& e == Error::NoSecureRandom
                    &&& !old(self).infallible()
                    &&& final(self).draws() == old(self).draws().push(None)
                },
            },
    ;
}

/// A caller-supplied 16-bit source.
pub(crate) struct CallerSource<F> {
    pub(crate) next16: F,
    pub(crate) drawn: Ghost<Seq<Option<u16>>>,
}

impl<F: FnMut() -> u16> WordSource for CallerSource<F> {
    open spec fn draws(&self) -> Seq<Option<u16>> {
        self.drawn@
    }

    open spec fn yields(&self, w: u16) -> bool {
        call_ensures(self.next16, (), w)
    }

    open spec fn ready(&self) -> bool {
        call_requires(self.next16, ())
    }

    open spec fn infallible(&self) -> bool {
        true
    }

    fn next_word(&mut self) -> (r: Result<u16, Error>) {
        let w = (self.next16)();
        self.drawn = Ghost(self.drawn@.push(Some(w)));
        Ok(w)
    }
}

/// The big-endian 16-bit word made of the bytes `hi` and `lo`.
fn word_from_be_bytes(hi: u8, lo: u8) -> (w: u16)
    ensures
        w == hi as int * 256 + lo as int,
{
    (hi as u16) * 256 + (lo as u16)
}

/// The word that a read of the two bytes `hi` and `lo` from the platform's
/// source gives: their big-endian word when the read succeeded, and
/// `NoSecureRandom` when it failed.
fn word_from_read<E>(read: Result<(), E>, hi: u8, lo: u8) -> (r: Result<u16, Error>)
    ensures
        r == (if read is Ok {
            Ok::<u16, Error>((hi as int * 256 + lo as int) as u16)
        } else {
            Err::<u16, Error>(Error::NoSecureRandom)
        }),
{
    match read {
        Ok(()) => Ok(word_from_be_bytes(hi, lo)),
        Err(_) => Err(Error::NoSecureRandom),
    }
}

/// Reads one 16-bit word from the platform's secure source. Both bytes come
/// from a single call, so each draw costs one call.
fn secure_uint16() -> (r: Result<u16, Error>)
    ensures
        r matches Err(e) ==> e == Error::NoSecureRandom,
{
    let mut buffer: [u8; 2] = [0u8, 0u8];
    let read = os_fill(&mut buffer);
    word_from_read(read, buffer[0], buffer[1])
}

/// The platform's secure source.
pub(crate) struct OsSource {
    pub(crate) drawn: Ghost<Seq<Option<u16>>>,
}

impl WordSource for OsSource {
    open spec fn draws(&self) -> Seq<Option<u16>> {
        self.drawn@
    }

    open spec fn yields(&self, w: u16) -> bool {
        true
    }

    open spec fn ready(&self) -> bool {
        true
    }

    open spec fn infallible(&self) -> bool {
        false
    }

    fn next_word(&mut self) -> (r: Result<u16, Error>) {
        let r = secure_uint16();
        match r {
            Ok(w) => {
                self.drawn = Ghost(self.drawn@.push(Some(w)));
            },
            Err(_) => {
                self.drawn = Ghost(self.drawn@.push(None));
            },
        }
        r
    }
}

/// The draws made since a source's record was `before`, given that it is
/// now `after`.
pub open spec fn draws_since(before: Seq<Option<u16>>, after: Seq<Option<u16>>) -> Seq<Option<u16>> {
    after.skip(before.len() as int)
}

/// Samples an index in `[0, n)` by rejection over the words drawn from
/// `src`. A failing draw is passed on.
pub(crate) fn rejection_sample<S: WordSource>(n: u32, src: &mut S) -> (r: Result<u32, Error>)
    requires
        old(src).ready(),
    ensures
        final(src).ready(),
        final(src).infallible() == old(src).infallible(),
        forall|w: u16| #[trigger] final(src).yields(w) == old(src).yields(w),
        final(src).draws() == old(src).draws() + draws_since(old(src).draws(), final(src).draws()),
        sample_outcome(n, draws_since(old(src).draws(), final(src).draws()), r),
        old(src).infallible() ==> words_from(
            draws_since(old(src).draws(), final(src).draws()),
            |w: u16| old(src).yields(w),
        ),
        forall|k: int|
            0 <= k < draws_since(old(src).draws(), final(src).draws()).len() ==> match #[trigger] draws_since(
                old(src).draws(),
                final(src).draws(),
            )[k] {
                Some(w) => old(src).yields(w),
                None => true,
            },
{
    let ghost before = src.draws();
    if n < 1 || n > DRAW_SPACE {
        assert(src.draws().skip(before.len() as int) =~= Seq::<Option<u16>>::empty());
        assert(src.draws() =~= before + Seq::<Option<u16>>::empty());
        return Err(Error::InvalidLength { got: n as usize, max: DRAW_SPACE as usize });
    }
    let ghost mut d: Seq<Option<u16>> = Seq::empty();
    let mut rejects: u64 = 0;
    while rejects < REJECT_BUDGET
        invariant
            1 <= n <= DRAW_SPACE,
            before == old(src).draws(),
            src.ready(),
            src.infallible() == old(src).infallible(),
            forall|w: u16| #[trigger] src.yields(w) == old(src).yields(w),
            src.draws() == before + d,
            d.len() == rejects,
            rejected_draws(n, d),
            forall|k: int| 0 <= k < d.len() ==> match #[trigger] d[k] {
                Some(w) => old(src).yields(w),
                None => false,
            },
        decreases REJECT_BUDGET - rejects,
    {
        let ghost prev = d;
        let drawn = src.next_word();
        match drawn {
            Ok(w) => {
                proof {
                    d = d.push(Some(w));
                    assert(src.draws() =~= before + d);
                }
                match accept_word(n, w) {
                    Some(i) => {
                        assert(d.drop_last() =~= prev);
                        assert(src.draws().skip(before.len() as int) =~= d);
                        return Ok(i);
                    },
                    None => {
                        rejects = rejects + 1;
                    },
                }
            },
            Err(e) => {
                proof {
                    d = d.push(None);
                    assert(src.draws() =~= before + d);
                    assert(d.drop_last() =~= prev);
                    assert(src.draws().skip(before.len() as int) =~= d);
                }
                return Err(e);
            },
        }
    }
    assert(src.draws().skip(before.len() as int) =~= d);
    Err(Error::NoSecureRandom)
}

/// Uniformly samples an index in `[0, n)` from a caller-supplied 16-bit
/// source, free of modulo bias: words in the reject zone are drawn again.
///
/// # Errors
///
/// [`Error::InvalidLength`] when `n` is outside `[1, 65536]`;
/// [`Error::NoSecureRandom`] when the source keeps returning rejected words.
pub fn random_index_from<F: FnMut() -> u16>(n: u32, next16: F) -> (r: Result<u32, Error>)
    requires
        call_requires(next16, ()),
    ensures
        exists|d: Seq<Option<u16>>|
            words_from(d, |w: u16| call_ensures(next16, (), w)) && #[trigger] sample_outcome(n, d, r),
{
    let mut src = CallerSource { next16, drawn: Ghost(Seq::empty()) };
    let r = rejection_sample(n, &mut src);
    let ghost d = draws_since(Seq::<Option<u16>>::empty(), src.draws());
    assert((|w: u16| src.yields(w)) =~= (|w: u16| call_ensures(next16, (), w)));
    assert(sample_outcome(n, d, r));
    r
}

/// Uniformly samples an index in `[0, n)` from the platform's secure
/// source, free of modulo bias: words in the reject zone are drawn again.
///
/// # Errors
///
/// [`Error::InvalidLength`] when `n` is outside `[1, 65536]`;
/// [`Error::NoSecureRandom`] when the platform's source fails.
pub fn random_index(n: u32) -> (r: Result<u32, Error>)
    ensures
        exists|d: Seq<Option<u16>>| #[trigger] sample_outcome(n, d, r),
        r matches Ok(i) ==> i < n,
{
    let mut src = OsSource { drawn: Ghost(Seq::empty()) };
    let r = rejection_sample(n, &mut src);
    let ghost d = draws_since(Seq::<Option<u16>>::empty(), src.draws());
    assert(sample_outcome(n, d, r));
    r
}

} // verus!
