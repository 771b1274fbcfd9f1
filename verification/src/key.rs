//! Permutation keys: bijections over the 26-letter alphabet.
//!
//! `key[i]` is the ciphertext character substituted for the plaintext
//! letter at alphabet position `i`.

use vstd::prelude::*;
use crate::alphabet::{alphabet, alphabet_chars, find_char, lemma_alphabet_no_duplicates};
use crate::errors::CipherError;

verus! {

/// A sequence is a valid key when it lists each alphabet character
/// exactly once.
pub open spec fn valid_key(s: Seq<char>) -> bool {
    &&& s.len() == 26
    &&& s.no_duplicates()
    &&& forall|i: int| 0 <= i < 26 ==> alphabet().contains(#[trigger] s[i])
    &&& forall|c: char| alphabet().contains(c) ==> s.contains(c)
}

/// A key with the characters at positions `i` and `j` exchanged.
pub open spec fn swapped_key(s: Seq<char>, i: int, j: int) -> Seq<char> {
    s.update(i, s[j]).update(j, s[i])
}

/// A permutation of the alphabet, the unit the search optimizes.
pub struct Key {
    chars: Vec<char>,
}

impl View for Key {
    type V = Seq<char>;

    closed spec fn view(&self) -> Seq<char> {
        self.chars@
    }
}

impl Key {
    /// The key is well-formed: a permutation of the alphabet.
    pub open spec fn wf(&self) -> bool {
        valid_key(self@)
    }

    /// The identity key: every letter stands for itself.
    pub fn identity() -> (k: Key)
        ensures
            k.wf(),
            k@ == alphabet(),
    {
        let v = alphabet_chars();
        proof {
            lemma_alphabet_no_duplicates();
        }
        Key { chars: v }
    }

    /// Accepts `v` as a key exactly when it is a permutation of the
    /// alphabet; any other input is refused as a configuration error.
    pub fn from_chars(v: Vec<char>) -> (r: Result<Key, CipherError>)
        ensures
            match r {
                Ok(k) => valid_key(v@) && k@ == v@ && k.wf(),
                Err(e) => !valid_key(v@) && e == CipherError::Config,
            },
    {
        if v.len() != 26 {
            return Err(CipherError::Config);
        }
        let ab = alphabet_chars();
        proof {
            lemma_alphabet_no_duplicates();
        }
        // every key character is an alphabet character, and none repeats
        let mut i: usize = 0;
        while i < 26
        invariant
            v@.len() == 26,
            ab@ == alphabet(),
            forall|k: int| 0 <= k < i ==> alphabet().contains(#[trigger] v@[k]),
            forall|k1: int, k2: int| 0 <= k1 < k2 < i ==> v@[k1] != v@[k2],
        decreases 26 - i,
        {
            if find_char(&ab, v[i]).is_none() {
                return Err(CipherError::Config);
            }
            let mut j: usize = 0;
            while j < i
                invariant
                    i < 26,
                    v@.len() == 26,
                    forall|k: int| 0 <= k < j ==> v@[k] != v@[i as int],
                decreases i - j,
            {
                if v[j] == v[i] {
                    return Err(CipherError::Config);
                }
                j += 1;
            }
            i += 1;
        }
        // every alphabet character occurs in the key
        let ghost kv = v@;
        proof {
            assert(kv.no_duplicates());
        }
        let mut a: usize = 0;
        while a < 26
            invariant
                v@ == kv,
                kv.len() == 26,
                kv.no_duplicates(),
                ab@ == alphabet(),
                forall|k: int| 0 <= k < 26 ==> alphabet().contains(#[trigger] kv[k]),
                forall|k: int| 0 <= k < a ==> kv.contains(#[trigger] alphabet()[k]),
            decreases 26 - a,
        {
            let ghost target = alphabet()[a as int];
            let c = ab[a];
            let mut j: usize = 0;
            let mut found = false;
            while j < 26
                invariant
                    v@ == kv,
                    kv.len() == 26,
                    c == target,
                    found ==> kv.contains(target),
                    !found ==> forall|k: int| 0 <= k < j ==> kv[k] != target,
                    j <= 26,
                decreases 26 - j,
            {
                if v[j] == c {
                    found = true;
                    proof {
                        assert(kv[j as int] == target);
                    }
                    j = 26;
                } else {
                    j += 1;
                }
            }
            if !found {
                proof {
                    assert(alphabet().contains(target));
                    assert(!kv.contains(target)) by {
                        assert(forall|k: int| 0 <= k < 26 ==> kv[k] != target);
                    }
                }
                return Err(CipherError::Config);
            }
            a += 1;
        }
        proof {
            assert forall|c: char| alphabet().contains(c) implies kv.contains(c) by {
                let k = choose|k: int| 0 <= k < alphabet().len() && alphabet()[k] == c;
                assert(kv.contains(alphabet()[k]));
            }
        }
        Ok(Key { chars: v })
    }

    /// The ciphertext character standing for alphabet position `i`.
    pub fn char_at(&self, i: usize) -> (c: char)
        requires
            self.wf(),
            i < 26,
        ensures
            c == self@[i as int],
    {
        self.chars[i]
    }

    /// Position of ciphertext character `c` in the key, if it occurs.
    pub fn position_of(&self, c: char) -> (r: Option<usize>)
        requires
            self.wf(),
        ensures
            match r {
                Some(i) => i < 26 && self@[i as int] == c && self@.index_of(c) == i,
                None => !self@.contains(c),
            },
    {
        find_char(&self.chars, c)
    }

    /// A copy of this key with the characters at `i` and `j` exchanged.
    /// Swapping two positions always yields a valid key again.
    pub fn swapped(&self, i: usize, j: usize) -> (k: Key)
        requires
            self.wf(),
            i < 26,
            j < 26,
        ensures
            k.wf(),
            k@ == swapped_key(self@, i as int, j as int),
    {
        let mut v: Vec<char> = Vec::new();
        let mut p: usize = 0;
        while p < 26
            invariant
                self.wf(),
                i < 26,
                j < 26,
                p <= 26,
                v@.len() == p,
                forall|k: int| 0 <= k < p ==> v@[k] == self@.update(i as int, self@[j as int])
                    .update(j as int, self@[i as int])[k],
            decreases 26 - p,
        {
            if p == i {
                v.push(self.chars[j]);
            } else if p == j {
                v.push(self.chars[i]);
            } else {
                v.push(self.chars[p]);
            }
            p += 1;
        }
        let ghost sw = self@.update(i as int, self@[j as int]).update(j as int, self@[i as int]);
        proof {
            assert(v@ =~= sw);
            lemma_swap_valid(self@, i as int, j as int);
        }
        Key { chars: v }
    }

    /// A fresh key holding the same permutation.
    pub fn duplicate(&self) -> (k: Key)
        requires
            self.wf(),
        ensures
            k.wf(),
            k@ == self@,
    {
        let mut v: Vec<char> = Vec::new();
        let mut p: usize = 0;
        while p < 26
            invariant
                self.wf(),
                p <= 26,
                v@.len() == p,
                forall|k: int| 0 <= k < p ==> v@[k] == self@[k],
            decreases 26 - p,
        {
            v.push(self.chars[p]);
            p += 1;
        }
        proof {
            assert(v@ =~= self@);
        }
        Key { chars: v }
    }

    /// The key characters in order, for callers outside the crate.
    pub fn to_chars(&self) -> (v: Vec<char>)
        requires
            self.wf(),
        ensures
            v@ == self@,
    {
        self.duplicate().chars
    }
}

/// Exchanging two positions of a valid key yields a valid key.
pub proof fn lemma_swap_valid(s: Seq<char>, i: int, j: int)
    requires
        valid_key(s),
        0 <= i < 26,
        0 <= j < 26,
    ensures
        valid_key(swapped_key(s, i, j)),
{
    let t = s.update(i, s[j]).update(j, s[i]);
    assert(t.len() == 26);
    assert forall|k: int| 0 <= k < 26 implies alphabet().contains(#[trigger] t[k]) by {
        if k == j {
            assert(t[k] == s[i]);
        } else if k == i {
            assert(t[k] == s[j]);
        } else {
            assert(t[k] == s[k]);
        }
    }
    assert forall|k1: int, k2: int| 0 <= k1 < k2 < 26 implies t[k1] != t[k2] by {
        let m1 = if k1 == i { j } else if k1 == j { i } else { k1 };
        let m2 = if k2 == i { j } else if k2 == j { i } else { k2 };
        assert(t[k1] == s[m1]);
        assert(t[k2] == s[m2]);
        assert(m1 != m2);
        if s[m1] == s[m2] {
            assert(false) by {
                assert(s.no_duplicates());
            }
        }
    }
    assert forall|c: char| alphabet().contains(c) implies t.contains(c) by {
        let k = choose|k: int| 0 <= k < s.len() && s[k] == c;
        assert(s.contains(c));
        let m = if k == i { j } else if k == j { i } else { k };
        assert(t[m] == s[k]);
        assert(t.contains(t[m]));
    }
}

} // verus!
