//! The codec: encoding and decoding text under a permutation key.
//!
//! A space passes through unchanged; every other character must be an
//! alphabet letter, else the codec refuses it as an unrecognized symbol.

use vstd::prelude::*;
use crate::alphabet::{alphabet, alphabet_chars, find_char, lemma_alphabet_no_duplicates,
    lemma_index_of_unique};
use crate::errors::CipherError;
use crate::key::{valid_key, Key};
use crate::text::{chars_of, string_of};

verus! {

/// A character the codec accepts: a space or an alphabet letter.
pub open spec fn valid_sym(c: char) -> bool {
    c == ' ' || alphabet().contains(c)
}

/// Text over the alphabet plus the space separator.
pub open spec fn valid_text(s: Seq<char>) -> bool {
    forall|i: int| 0 <= i < s.len() ==> valid_sym(#[trigger] s[i])
}

/// Encoding one character: a space stays a space; a letter becomes the
/// key character at the letter's alphabet position.
pub open spec fn enc_char(c: char, key: Seq<char>) -> char {
    if c == ' ' {
        ' '
    } else {
        key[alphabet().index_of(c)]
    }
}

/// Decoding one character: the inverse of `enc_char` — a letter is read
/// off at the character's position in the key.
pub open spec fn dec_char(c: char, key: Seq<char>) -> char {
    if c == ' ' {
        ' '
    } else {
        alphabet()[key.index_of(c)]
    }
}

/// The ciphertext of `s` under `key`.
pub open spec fn spec_encode(s: Seq<char>, key: Seq<char>) -> Seq<char> {
    s.map_values(|c: char| enc_char(c, key))
}

/// The plaintext of `s` under `key`.
pub open spec fn spec_decode(s: Seq<char>, key: Seq<char>) -> Seq<char> {
    s.map_values(|c: char| dec_char(c, key))
}

/// Encoding a valid character under a valid key yields a valid
/// character, and decoding gives the original back.
pub proof fn lemma_char_round_trip(c: char, key: Seq<char>)
    requires
        valid_key(key),
        valid_sym(c),
    ensures
        valid_sym(enc_char(c, key)),
        dec_char(enc_char(c, key), key) == c,
{
    if c != ' ' {
        lemma_alphabet_no_duplicates();
        let a = alphabet().index_of(c);
        assert(0 <= a < 26 && alphabet()[a] == c);
        let e = key[a];
        assert(alphabet().contains(e));
        lemma_index_of_unique(key, a);
        assert(key.index_of(e) == a);
        assert(e != ' ') by {
            if e == ' ' {
                let k = choose|k: int| 0 <= k < 26 && alphabet()[k] == ' ';
                assert(alphabet()[k] == ' ');
            }
        }
        assert(dec_char(e, key) == alphabet()[a]);
    }
}

/// Round trip: decoding an encoding returns the original text, for
/// every valid key and every text over the alphabet plus space.
pub proof fn lemma_round_trip(t: Seq<char>, key: Seq<char>)
    requires
        valid_key(key),
        valid_text(t),
    ensures
        spec_decode(spec_encode(t, key), key) == t,
{
    let e = spec_encode(t, key);
    let d = spec_decode(e, key);
    assert forall|i: int| 0 <= i < t.len() implies d[i] == t[i] by {
        lemma_char_round_trip(t[i], key);
    }
    assert(d =~= t);
}

/// An encoded valid text is again a valid text.
pub proof fn lemma_encode_valid(t: Seq<char>, key: Seq<char>)
    requires
        valid_key(key),
        valid_text(t),
    ensures
        valid_text(spec_encode(t, key)),
{
    let e = spec_encode(t, key);
    assert forall|i: int| 0 <= i < e.len() implies valid_sym(#[trigger] e[i]) by {
        lemma_char_round_trip(t[i], key);
    }
}

/// Decoding over character vectors; shared by the codec entry points
/// and the search inner loop.
pub fn decode_chars(cipher: &Vec<char>, key: &Key) -> (r: Result<Vec<char>, CipherError>)
    requires
        key.wf(),
    ensures
        match r {
            Ok(v) => valid_text(cipher@) && v@ == spec_decode(cipher@, key@),
            Err(e) => !valid_text(cipher@) && e == CipherError::UnknownSymbol,
        },
{
    let ab = alphabet_chars();
    proof {
        lemma_alphabet_no_duplicates();
    }
    let mut out: Vec<char> = Vec::new();
    let mut i: usize = 0;
    while i < cipher.len()
        invariant
            key.wf(),
            ab@ == alphabet(),
            i <= cipher@.len(),
            out@.len() == i,
            forall|k: int| 0 <= k < i ==> valid_sym(#[trigger] cipher@[k]),
            forall|k: int| 0 <= k < i ==> out@[k] == dec_char(cipher@[k], key@),
        decreases cipher@.len() - i,
    {
        let c = cipher[i];
        if c == ' ' {
            out.push(' ');
        } else {
            match key.position_of(c) {
                Some(p) => {
                    out.push(ab[p]);
                    proof {
                        assert(alphabet().contains(cipher@[i as int])) by {
                            assert(alphabet().contains(key@[p as int]));
                        }
                    }
                },
                None => {
                    proof {
                        assert(!alphabet().contains(c)) by {
                            if alphabet().contains(c) {
                                assert(key@.contains(c));
                            }
                        }
                        assert(!valid_sym(cipher@[i as int]));
                    }
                    return Err(CipherError::UnknownSymbol);
                },
            }
        }
        i += 1;
    }
    proof {
        assert(out@ =~= spec_decode(cipher@, key@));
    }
    Ok(out)
}

/// Encoding over character vectors.
pub fn encode_chars(plain: &Vec<char>, key: &Key) -> (r: Result<Vec<char>, CipherError>)
    requires
        key.wf(),
    ensures
        match r {
            Ok(v) => valid_text(plain@) && v@ == spec_encode(plain@, key@),
            Err(e) => !valid_text(plain@) && e == CipherError::UnknownSymbol,
        },
{
    let ab = alphabet_chars();
    proof {
        lemma_alphabet_no_duplicates();
    }
    let mut out: Vec<char> = Vec::new();
    let mut i: usize = 0;
    while i < plain.len()
        invariant
            key.wf(),
            ab@ == alphabet(),
            i <= plain@.len(),
            out@.len() == i,
            forall|k: int| 0 <= k < i ==> valid_sym(#[trigger] plain@[k]),
            forall|k: int| 0 <= k < i ==> out@[k] == enc_char(plain@[k], key@),
        decreases plain@.len() - i,
    {
        let c = plain[i];
        if c == ' ' {
            out.push(' ');
        } else {
            match find_char(&ab, c) {
                Some(p) => {
                    out.push(key.char_at(p));
                },
                None => {
                    proof {
                        assert(!valid_sym(plain@[i as int]));
                    }
                    return Err(CipherError::UnknownSymbol);
                },
            }
        }
        i += 1;
    }
    proof {
        assert(out@ =~= spec_encode(plain@, key@));
    }
    Ok(out)
}

/// Given a ciphertext and a key, returns the plaintext: each character
/// is looked up in the key and replaced by the alphabet letter at that
/// position; spaces pass through; any other character outside the
/// alphabet is refused.
pub fn build_plaintext(ciphertext: &str, key: &Key) -> (r: Result<String, CipherError>)
    requires
        key.wf(),
    ensures
        match r {
            Ok(s) => valid_text(ciphertext@) && s@ == spec_decode(ciphertext@, key@),
            Err(e) => !valid_text(ciphertext@) && e == CipherError::UnknownSymbol,
        },
{
    let cs = chars_of(ciphertext);
    match decode_chars(&cs, key) {
        Ok(v) => Ok(string_of(&v)),
        Err(e) => Err(e),
    }
}

/// Given a plaintext and a key, returns the ciphertext: each letter is
/// replaced by the key character at the letter's alphabet position;
/// spaces pass through; any other character is refused.
pub fn build_cryptogram(plaintext: &str, key: &Key) -> (r: Result<String, CipherError>)
    requires
        key.wf(),
    ensures
        match r {
            Ok(s) => valid_text(plaintext@) && s@ == spec_encode(plaintext@, key@),
            Err(e) => !valid_text(plaintext@) && e == CipherError::UnknownSymbol,
        },
{
    let cs = chars_of(plaintext);
    match encode_chars(&cs, key) {
        Ok(v) => Ok(string_of(&v)),
        Err(e) => Err(e),
    }
}

} // verus!
