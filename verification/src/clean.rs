//! Corpus cleaning: strip every character that is not a letter, digit
//! or space, and raise lower-case letters to upper case.

use vstd::prelude::*;
use crate::alphabet::symbols;

verus! {

/// The upper-case form of a lower-case letter; any other character is
/// returned unchanged.
pub open spec fn spec_upper(c: char) -> char {
    if c == 'a' {
        'A'
    } else if c == 'b' {
        'B'
    } else if c == 'c' {
        'C'
    } else if c == 'd' {
        'D'
    } else if c == 'e' {
        'E'
    } else if c == 'f' {
        'F'
    } else if c == 'g' {
        'G'
    } else if c == 'h' {
        'H'
    } else if c == 'i' {
        'I'
    } else if c == 'j' {
        'J'
    } else if c == 'k' {
        'K'
    } else if c == 'l' {
        'L'
    } else if c == 'm' {
        'M'
    } else if c == 'n' {
        'N'
    } else if c == 'o' {
        'O'
    } else if c == 'p' {
        'P'
    } else if c == 'q' {
        'Q'
    } else if c == 'r' {
        'R'
    } else if c == 's' {
        'S'
    } else if c == 't' {
        'T'
    } else if c == 'u' {
        'U'
    } else if c == 'v' {
        'V'
    } else if c == 'w' {
        'W'
    } else if c == 'x' {
        'X'
    } else if c == 'y' {
        'Y'
    } else if c == 'z' {
        'Z'
    } else {
        c
    }
}

/// What cleaning makes of one character: a space stays, a letter or
/// digit is kept upper-cased, anything else is dropped.
pub open spec fn spec_normalize_char(c: char) -> Option<char> {
    if c == ' ' {
        Some(' ')
    } else if symbols().contains(spec_upper(c)) {
        Some(spec_upper(c))
    } else {
        None
    }
}

/// The cleaned form of a text.
pub open spec fn spec_clean(s: Seq<char>) -> Seq<char>
    decreases s.len(),
{
    if s.len() == 0 {
        Seq::empty()
    } else {
        spec_clean(s.drop_last()) + match spec_normalize_char(s.last()) {
            Some(u) => seq![u],
            None => Seq::empty(),
        }
    }
}

/// Cleaning never lengthens a text, and leaves only symbols and spaces.
pub proof fn lemma_clean_shape(s: Seq<char>)
    ensures
        spec_clean(s).len() <= s.len(),
        forall|i: int|
            0 <= i < spec_clean(s).len() ==> (symbols().contains(#[trigger] spec_clean(s)[i])
                || spec_clean(s)[i] == ' '),
    decreases s.len(),
{
    if s.len() > 0 {
        lemma_clean_shape(s.drop_last());
    }
}

/// The upper-case form of `c`, matching `spec_upper`.
pub fn upper_char(c: char) -> (r: char)
    ensures
        r == spec_upper(c),
{
    match c {
        'a' => 'A',
        'b' => 'B',
        'c' => 'C',
        'd' => 'D',
        'e' => 'E',
        'f' => 'F',
        'g' => 'G',
        'h' => 'H',
        'i' => 'I',
        'j' => 'J',
        'k' => 'K',
        'l' => 'L',
        'm' => 'M',
        'n' => 'N',
        'o' => 'O',
        'p' => 'P',
        'q' => 'Q',
        'r' => 'R',
        's' => 'S',
        't' => 'T',
        'u' => 'U',
        'v' => 'V',
        'w' => 'W',
        'x' => 'X',
        'y' => 'Y',
        'z' => 'Z',
        _ => c,
    }
}

/// Cleans a text: keeps letters (upper-cased), digits and spaces, and
/// drops everything else.
pub fn clean_chars(s: &Vec<char>) -> (r: Vec<char>)
    ensures
        r@ == spec_clean(s@),
{
    let syms = crate::alphabet::symbol_chars();
    proof {
        crate::alphabet::lemma_symbols_no_duplicates();
    }
    let mut out: Vec<char> = Vec::new();
    let mut i: usize = 0;
    while i < s.len()
        invariant
            syms@ == symbols(),
            syms@.no_duplicates(),
            i <= s@.len(),
            out@ == spec_clean(s@.subrange(0, i as int)),
        decreases s@.len() - i,
    {
        let c = s[i];
        proof {
            let pre = s@.subrange(0, i as int);
            let cur = s@.subrange(0, i as int + 1);
            assert(cur.drop_last() =~= pre);
            assert(cur.last() == c);
        }
        if c == ' ' {
            out.push(' ');
        } else {
            let u = upper_char(c);
            match crate::alphabet::find_char(&syms, u) {
                Some(p) => {
                    proof {
                        assert(symbols().contains(spec_upper(c))) by {
                            assert(symbols()[p as int] == u);
                        }
                    }
                    out.push(u);
                },
                None => {
                    proof {
                        assert(!symbols().contains(spec_upper(c)));
                        assert(spec_normalize_char(c) is None);
                    }
                },
            }
        }
        proof {
            assert(out@ =~= spec_clean(s@.subrange(0, i as int + 1)));
        }
        i += 1;
    }
    proof {
        assert(s@.subrange(0, s@.len() as int) =~= s@);
    }
    out
}

} // verus!
