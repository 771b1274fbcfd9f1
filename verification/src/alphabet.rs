//! The fixed 26-letter alphabet, the digit symbols admitted by the
//! language model, and character-level helpers shared by the codec,
//! the trainer and the scorer.

use vstd::prelude::*;

verus! {

/// The ordered alphabet: position `i` holds the `i`-th upper-case letter.
pub open spec fn alphabet() -> Seq<char> {
    seq![
        'A', 'B', 'C', 'D', 'E', 'F', 'G', 'H', 'I', 'J', 'K', 'L', 'M',
        'N', 'O', 'P', 'Q', 'R', 'S', 'T', 'U', 'V', 'W', 'X', 'Y', 'Z',
    ]
}

/// The ten digit symbols, kept by corpus cleaning and counted in n-grams.
pub open spec fn digits() -> Seq<char> {
    seq!['0', '1', '2', '3', '4', '5', '6', '7', '8', '9']
}

/// Every symbol an n-gram may contain: the alphabet followed by the digits.
pub open spec fn symbols() -> Seq<char> {
    alphabet() + digits()
}

/// The 26 alphabet characters as a vector, in alphabet order.
pub fn alphabet_chars() -> (v: Vec<char>)
    ensures
        v@ == alphabet(),
{
    let mut v: Vec<char> = Vec::new();
    v.push('A');
    v.push('B');
    v.push('C');
    v.push('D');
    v.push('E');
    v.push('F');
    v.push('G');
    v.push('H');
    v.push('I');
    v.push('J');
    v.push('K');
    v.push('L');
    v.push('M');
    v.push('N');
    v.push('O');
    v.push('P');
    v.push('Q');
    v.push('R');
    v.push('S');
    v.push('T');
    v.push('U');
    v.push('V');
    v.push('W');
    v.push('X');
    v.push('Y');
    v.push('Z');
    proof {
        assert(v@ =~= alphabet());
    }
    v
}

/// The 36 n-gram symbols as a vector, alphabet first, then the digits.
pub fn symbol_chars() -> (v: Vec<char>)
    ensures
        v@ == symbols(),
{
    let mut v = alphabet_chars();
    v.push('0');
    v.push('1');
    v.push('2');
    v.push('3');
    v.push('4');
    v.push('5');
    v.push('6');
    v.push('7');
    v.push('8');
    v.push('9');
    proof {
        assert(v@ =~= symbols());
    }
    v
}

/// In a duplicate-free sequence the index chosen for a member is the only
/// position holding it.
pub proof fn lemma_index_of_unique(s: Seq<char>, i: int)
    requires
        s.no_duplicates(),
        0 <= i < s.len(),
    ensures
        s.index_of(s[i]) == i,
{
    assert(s.contains(s[i]));
    let j = s.index_of(s[i]);
    assert(0 <= j < s.len() && s[j] == s[i]);
}

/// The alphabet holds no character twice.
pub proof fn lemma_alphabet_no_duplicates()
    ensures
        alphabet().no_duplicates(),
{
    assert forall|i: int, j: int| 0 <= i < j < alphabet().len() implies alphabet()[i]
        != alphabet()[j] by {
        assert(alphabet().len() == 26);
    }
}

/// The symbol sequence holds no character twice.
pub proof fn lemma_symbols_no_duplicates()
    ensures
        symbols().no_duplicates(),
{
    assert forall|i: int, j: int| 0 <= i < j < symbols().len() implies symbols()[i]
        != symbols()[j] by {
        assert(symbols().len() == 36);
    }
}

/// First position of `c` in `v`, if any; pinned to `Seq::index_of` so that
/// specs built on `choose` agree with the executable search.
pub fn find_char(v: &Vec<char>, c: char) -> (r: Option<usize>)
    requires
        v@.no_duplicates(),
    ensures
        match r {
            Some(i) => i < v@.len() && v@[i as int] == c && v@.index_of(c) == i,
            None => !v@.contains(c),
        },
{
    let mut i: usize = 0;
    while i < v.len()
        invariant
            i <= v@.len(),
            v@.no_duplicates(),
            forall|k: int| 0 <= k < i ==> v@[k] != c,
        decreases v@.len() - i,
    {
        if v[i] == c {
            proof {
                lemma_index_of_unique(v@, i as int);
            }
            return Some(i);
        }
        i += 1;
    }
    assert forall|k: int| 0 <= k < v@.len() implies v@[k] != c by {}
    None
}

} // verus!
