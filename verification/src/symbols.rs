//! The closed vocabulary: the two-letter IUPAC element symbols.
//!
//! The fourteen one-letter symbols are left out, so every symbol is exactly
//! two ASCII letters, an uppercase one followed by a lowercase one, and a
//! token splits into symbols at every second character.
use vstd::prelude::*;

verus! {

/// The vocabulary, in canonical two-letter chemical casing, in
/// atomic-number order.
pub const ELEMENT_SYMBOLS: [&'static str; 104] = [
    "He", "Li", "Be", "Ne", "Na", "Mg", "Al", "Si", "Cl", "Ar", "Ca", "Sc", "Ti", "Cr", "Mn", "Fe",
    "Co", "Ni", "Cu", "Zn", "Ga", "Ge", "As", "Se", "Br", "Kr", "Rb", "Sr", "Zr", "Nb", "Mo", "Tc",
    "Ru", "Rh", "Pd", "Ag", "Cd", "In", "Sn", "Sb", "Te", "Xe", "Cs", "Ba", "La", "Ce", "Pr", "Nd",
    "Pm", "Sm", "Eu", "Gd", "Tb", "Dy", "Ho", "Er", "Tm", "Yb", "Lu", "Hf", "Ta", "Re", "Os", "Ir",
    "Pt", "Au", "Hg", "Tl", "Pb", "Bi", "Po", "At", "Rn", "Fr", "Ra", "Ac", "Th", "Pa", "Np", "Pu",
    "Am", "Cm", "Bk", "Cf", "Es", "Fm", "Md", "No", "Lr", "Rf", "Db", "Sg", "Bh", "Hs", "Mt", "Ds",
    "Rg", "Cn", "Nh", "Fl", "Mc", "Lv", "Ts", "Og",
];

/// Size of the vocabulary.
pub const SYMBOL_COUNT: usize = 104;

/// The characters of the symbol at position `i` of `ELEMENT_SYMBOLS`.
pub open spec fn symbol(i: int) -> Seq<char> {
    ELEMENT_SYMBOLS@[i]@
}

/// `s` is one of the symbols of the vocabulary.
pub open spec fn is_symbol(s: Seq<char>) -> bool {
    exists|i: int| 0 <= i < SYMBOL_COUNT && #[trigger] symbol(i) == s
}

/// The characters of the token made of the symbols at positions `idx`, in
/// order.
pub open spec fn spell(idx: Seq<u32>) -> Seq<char>
    decreases idx.len(),
{
    if idx.len() == 0 {
        Seq::empty()
    } else {
        spell(idx.drop_last()) + symbol(idx.last() as int)
    }
}

/// Every position of `idx` names a symbol of the vocabulary.
pub open spec fn in_vocabulary(idx: Seq<u32>) -> bool {
    forall|k: int| 0 <= k < idx.len() ==> #[trigger] idx[k] < SYMBOL_COUNT
}

/// A spelled token has two characters per symbol.
pub proof fn lemma_spell_len(idx: Seq<u32>)
    requires
        in_vocabulary(idx),
    ensures
        spell(idx).len() == 2 * idx.len(),
    decreases idx.len(),
{
    lemma_symbols_are_canonical();
    if idx.len() > 0 {
        assert(in_vocabulary(idx.drop_last()));
        lemma_spell_len(idx.drop_last());
        assert(idx.last() < SYMBOL_COUNT);
    }
}

/// The `k`-th two-character chunk of a spelled token is the `k`-th symbol.
pub proof fn lemma_spell_chunk(idx: Seq<u32>, k: int)
    requires
        in_vocabulary(idx),
        0 <= k < idx.len(),
    ensures
        spell(idx).subrange(2 * k, 2 * k + 2) == symbol(idx[k] as int),
    decreases idx.len(),
{
    lemma_symbols_are_canonical();
    let prefix = idx.drop_last();
    assert(in_vocabulary(prefix));
    lemma_spell_len(prefix);
    assert(idx.last() < SYMBOL_COUNT);
    let last = symbol(idx.last() as int);
    assert(spell(idx) == spell(prefix) + last);
    if k == idx.len() - 1 {
        assert(spell(idx).subrange(2 * k, 2 * k + 2) =~= last);
    } else {
        lemma_spell_chunk(prefix, k);
        assert(spell(idx).subrange(2 * k, 2 * k + 2) =~= spell(prefix).subrange(2 * k, 2 * k + 2));
    }
}

/// The vocabulary written out character by character.
pub open spec fn symbol_chars() -> Seq<Seq<char>> {
    seq![
        seq!['H', 'e'], seq!['L', 'i'], seq!['B', 'e'], seq!['N', 'e'], seq!['N', 'a'], seq!['M', 'g'], seq!['A', 'l'], seq!['S', 'i'],
        seq!['C', 'l'], seq!['A', 'r'], seq!['C', 'a'], seq!['S', 'c'], seq!['T', 'i'], seq!['C', 'r'], seq!['M', 'n'], seq!['F', 'e'],
        seq!['C', 'o'], seq!['N', 'i'], seq!['C', 'u'], seq!['Z', 'n'], seq!['G', 'a'], seq!['G', 'e'], seq!['A', 's'], seq!['S', 'e'],
        seq!['B', 'r'], seq!['K', 'r'], seq!['R', 'b'], seq!['S', 'r'], seq!['Z', 'r'], seq!['N', 'b'], seq!['M', 'o'], seq!['T', 'c'],
        seq!['R', 'u'], seq!['R', 'h'], seq!['P', 'd'], seq!['A', 'g'], seq!['C', 'd'], seq!['I', 'n'], seq!['S', 'n'], seq!['S', 'b'],
        seq!['T', 'e'], seq!['X', 'e'], seq!['C', 's'], seq!['B', 'a'], seq!['L', 'a'], seq!['C', 'e'], seq!['P', 'r'], seq!['N', 'd'],
        seq!['P', 'm'], seq!['S', 'm'], seq!['E', 'u'], seq!['G', 'd'], seq!['T', 'b'], seq!['D', 'y'], seq!['H', 'o'], seq!['E', 'r'],
        seq!['T', 'm'], seq!['Y', 'b'], seq!['L', 'u'], seq!['H', 'f'], seq!['T', 'a'], seq!['R', 'e'], seq!['O', 's'], seq!['I', 'r'],
        seq!['P', 't'], seq!['A', 'u'], seq!['H', 'g'], seq!['T', 'l'], seq!['P', 'b'], seq!['B', 'i'], seq!['P', 'o'], seq!['A', 't'],
        seq!['R', 'n'], seq!['F', 'r'], seq!['R', 'a'], seq!['A', 'c'], seq!['T', 'h'], seq!['P', 'a'], seq!['N', 'p'], seq!['P', 'u'],
        seq!['A', 'm'], seq!['C', 'm'], seq!['B', 'k'], seq!['C', 'f'], seq!['E', 's'], seq!['F', 'm'], seq!['M', 'd'], seq!['N', 'o'],
        seq!['L', 'r'], seq!['R', 'f'], seq!['D', 'b'], seq!['S', 'g'], seq!['B', 'h'], seq!['H', 's'], seq!['M', 't'], seq!['D', 's'],
        seq!['R', 'g'], seq!['C', 'n'], seq!['N', 'h'], seq!['F', 'l'], seq!['M', 'c'], seq!['L', 'v'], seq!['T', 's'], seq!['O', 'g']
    ]
}

pub open spec fn is_ascii_upper(c: char) -> bool {
    'A' <= c <= 'Z'
}

pub open spec fn is_ascii_lower(c: char) -> bool {
    'a' <= c <= 'z'
}

/// The constant holds exactly the symbols written out in `symbol_chars`.
pub proof fn lemma_symbol_chars()
    ensures
        symbol_chars().len() == SYMBOL_COUNT,
        forall|i: int| 0 <= i < SYMBOL_COUNT ==> #[trigger] symbol(i) == symbol_chars()[i],
{
    reveal_strlit("He");
    reveal_strlit("Li");
    reveal_strlit("Be");
    reveal_strlit("Ne");
    reveal_strlit("Na");
    reveal_strlit("Mg");
    reveal_strlit("Al");
    reveal_strlit("Si");
    reveal_strlit("Cl");
    reveal_strlit("Ar");
    reveal_strlit("Ca");
    reveal_strlit("Sc");
    reveal_strlit("Ti");
    reveal_strlit("Cr");
    reveal_strlit("Mn");
    reveal_strlit("Fe");
    reveal_strlit("Co");
    reveal_strlit("Ni");
    reveal_strlit("Cu");
    reveal_strlit("Zn");
    reveal_strlit("Ga");
    reveal_strlit("Ge");
    reveal_strlit("As");
    reveal_strlit("Se");
    reveal_strlit("Br");
    reveal_strlit("Kr");
    reveal_strlit("Rb");
    reveal_strlit("Sr");
    reveal_strlit("Zr");
    reveal_strlit("Nb");
    reveal_strlit("Mo");
    reveal_strlit("Tc");
    reveal_strlit("Ru");
    reveal_strlit("Rh");
    reveal_strlit("Pd");
    reveal_strlit("Ag");
    reveal_strlit("Cd");
    reveal_strlit("In");
    reveal_strlit("Sn");
    reveal_strlit("Sb");
    reveal_strlit("Te");
    reveal_strlit("Xe");
    reveal_strlit("Cs");
    reveal_strlit("Ba");
    reveal_strlit("La");
    reveal_strlit("Ce");
    reveal_strlit("Pr");
    reveal_strlit("Nd");
    reveal_strlit("Pm");
    reveal_strlit("Sm");
    reveal_strlit("Eu");
    reveal_strlit("Gd");
    reveal_strlit("Tb");
    reveal_strlit("Dy");
    reveal_strlit("Ho");
    reveal_strlit("Er");
    reveal_strlit("Tm");
    reveal_strlit("Yb");
    reveal_strlit("Lu");
    reveal_strlit("Hf");
    reveal_strlit("Ta");
    reveal_strlit("Re");
    reveal_strlit("Os");
    reveal_strlit("Ir");
    reveal_strlit("Pt");
    reveal_strlit("Au");
    reveal_strlit("Hg");
    reveal_strlit("Tl");
    reveal_strlit("Pb");
    reveal_strlit("Bi");
    reveal_strlit("Po");
    reveal_strlit("At");
    reveal_strlit("Rn");
    reveal_strlit("Fr");
    reveal_strlit("Ra");
    reveal_strlit("Ac");
    reveal_strlit("Th");
    reveal_strlit("Pa");
    reveal_strlit("Np");
    reveal_strlit("Pu");
    reveal_strlit("Am");
    reveal_strlit("Cm");
    reveal_strlit("Bk");
    reveal_strlit("Cf");
    reveal_strlit("Es");
    reveal_strlit("Fm");
    reveal_strlit("Md");
    reveal_strlit("No");
    reveal_strlit("Lr");
    reveal_strlit("Rf");
    reveal_strlit("Db");
    reveal_strlit("Sg");
    reveal_strlit("Bh");
    reveal_strlit("Hs");
    reveal_strlit("Mt");
    reveal_strlit("Ds");
    reveal_strlit("Rg");
    reveal_strlit("Cn");
    reveal_strlit("Nh");
    reveal_strlit("Fl");
    reveal_strlit("Mc");
    reveal_strlit("Lv");
    reveal_strlit("Ts");
    reveal_strlit("Og");
    assert(ELEMENT_SYMBOLS@ == seq![
    "He", "Li", "Be", "Ne", "Na", "Mg", "Al", "Si", "Cl", "Ar", "Ca", "Sc", "Ti", "Cr", "Mn", "Fe",
    "Co", "Ni", "Cu", "Zn", "Ga", "Ge", "As", "Se", "Br", "Kr", "Rb", "Sr", "Zr", "Nb", "Mo", "Tc",
    "Ru", "Rh", "Pd", "Ag", "Cd", "In", "Sn", "Sb", "Te", "Xe", "Cs", "Ba", "La", "Ce", "Pr", "Nd",
    "Pm", "Sm", "Eu", "Gd", "Tb", "Dy", "Ho", "Er", "Tm", "Yb", "Lu", "Hf", "Ta", "Re", "Os", "Ir",
    "Pt", "Au", "Hg", "Tl", "Pb", "Bi", "Po", "At", "Rn", "Fr", "Ra", "Ac", "Th", "Pa", "Np", "Pu",
    "Am", "Cm", "Bk", "Cf", "Es", "Fm", "Md", "No", "Lr", "Rf", "Db", "Sg", "Bh", "Hs", "Mt", "Ds",
    "Rg", "Cn", "Nh", "Fl", "Mc", "Lv", "Ts", "Og"
    ]);
}

/// Every symbol is two ASCII letters: an uppercase letter, then a lowercase one.
pub proof fn lemma_symbols_are_canonical()
    ensures
        forall|i: int|
            0 <= i < SYMBOL_COUNT ==> {
                &&& (#[trigger] symbol(i)).len() == 2
                &&& is_ascii_upper(symbol(i)[0])
                &&& is_ascii_lower(symbol(i)[1])
            },
{
    lemma_symbol_chars();
    assert(forall|i: int|
        0 <= i < SYMBOL_COUNT ==> {
            &&& (#[trigger] symbol_chars()[i]).len() == 2
            &&& is_ascii_upper(symbol_chars()[i][0])
            &&& is_ascii_lower(symbol_chars()[i][1])
        });
}


/// The position in the vocabulary of the symbol spelled `c0 c1`, or `-1`
/// when `c0 c1` is not a symbol.
pub open spec fn position_of(c0: char, c1: char) -> int {
    match (c0, c1) {
        ('H', 'e') => 0,
        ('L', 'i') => 1,
        ('B', 'e') => 2,
        ('N', 'e') => 3,
        ('N', 'a') => 4,
        ('M', 'g') => 5,
        ('A', 'l') => 6,
        ('S', 'i') => 7,
        ('C', 'l') => 8,
        ('A', 'r') => 9,
        ('C', 'a') => 10,
        ('S', 'c') => 11,
        ('T', 'i') => 12,
        ('C', 'r') => 13,
        ('M', 'n') => 14,
        ('F', 'e') => 15,
        ('C', 'o') => 16,
        ('N', 'i') => 17,
        ('C', 'u') => 18,
        ('Z', 'n') => 19,
        ('G', 'a') => 20,
        ('G', 'e') => 21,
        ('A', 's') => 22,
        ('S', 'e') => 23,
        ('B', 'r') => 24,
        ('K', 'r') => 25,
        ('R', 'b') => 26,
        ('S', 'r') => 27,
        ('Z', 'r') => 28,
        ('N', 'b') => 29,
        ('M', 'o') => 30,
        ('T', 'c') => 31,
        ('R', 'u') => 32,
        ('R', 'h') => 33,
        ('P', 'd') => 34,
        ('A', 'g') => 35,
        ('C', 'd') => 36,
        ('I', 'n') => 37,
        ('S', 'n') => 38,
        ('S', 'b') => 39,
        ('T', 'e') => 40,
        ('X', 'e') => 41,
        ('C', 's') => 42,
        ('B', 'a') => 43,
        ('L', 'a') => 44,
        ('C', 'e') => 45,
        ('P', 'r') => 46,
        ('N', 'd') => 47,
        ('P', 'm') => 48,
        ('S', 'm') => 49,
        ('E', 'u') => 50,
        ('G', 'd') => 51,
        ('T', 'b') => 52,
        ('D', 'y') => 53,
        ('H', 'o') => 54,
        ('E', 'r') => 55,
        ('T', 'm') => 56,
        ('Y', 'b') => 57,
        ('L', 'u') => 58,
        ('H', 'f') => 59,
        ('T', 'a') => 60,
        ('R', 'e') => 61,
        ('O', 's') => 62,
        ('I', 'r') => 63,
        ('P', 't') => 64,
        ('A', 'u') => 65,
        ('H', 'g') => 66,
        ('T', 'l') => 67,
        ('P', 'b') => 68,
        ('B', 'i') => 69,
        ('P', 'o') => 70,
        ('A', 't') => 71,
        ('R', 'n') => 72,
        ('F', 'r') => 73,
        ('R', 'a') => 74,
        ('A', 'c') => 75,
        ('T', 'h') => 76,
        ('P', 'a') => 77,
        ('N', 'p') => 78,
        ('P', 'u') => 79,
        ('A', 'm') => 80,
        ('C', 'm') => 81,
        ('B', 'k') => 82,
        ('C', 'f') => 83,
        ('E', 's') => 84,
        ('F', 'm') => 85,
        ('M', 'd') => 86,
        ('N', 'o') => 87,
        ('L', 'r') => 88,
        ('R', 'f') => 89,
        ('D', 'b') => 90,
        ('S', 'g') => 91,
        ('B', 'h') => 92,
        ('H', 's') => 93,
        ('M', 't') => 94,
        ('D', 's') => 95,
        ('R', 'g') => 96,
        ('C', 'n') => 97,
        ('N', 'h') => 98,
        ('F', 'l') => 99,
        ('M', 'c') => 100,
        ('L', 'v') => 101,
        ('T', 's') => 102,
        ('O', 'g') => 103,
        _ => -1,
    }
}

/// No symbol occurs twice in the vocabulary.
pub proof fn lemma_symbols_distinct()
    ensures
        forall|i: int, j: int|
            0 <= i < SYMBOL_COUNT && 0 <= j < SYMBOL_COUNT && i != j ==> #[trigger] symbol(i) != #[trigger] symbol(j),
{
    lemma_symbol_chars();
    assert forall|i: int| 0 <= i < SYMBOL_COUNT implies position_of(#[trigger] symbol_chars()[i][0], symbol_chars()[i][1]) == i by {
    }
}

} // verus!
