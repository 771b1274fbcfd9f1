//! N-grams as packed integers, and counting of n-gram windows in a text.
//!
//! A gram over the 36 symbols is packed base-36 into a `u64`; orders up
//! to 12 fit. Windows holding any character outside the symbol set (a
//! space in particular) are not grams and are skipped by training.

use vstd::prelude::*;
use crate::alphabet::{find_char, lemma_symbols_no_duplicates, symbols};

verus! {

/// Every character of the window is a model symbol.
pub open spec fn valid_gram(w: Seq<char>) -> bool {
    forall|i: int| 0 <= i < w.len() ==> symbols().contains(#[trigger] w[i])
}

/// The window of length `n` starting at `i`.
pub open spec fn win(s: Seq<char>, n: int, i: int) -> Seq<char> {
    s.subrange(i, i + n)
}

/// 36 to the power `n`.
pub open spec fn pow36(n: int) -> int
    decreases n,
{
    if n <= 0 {
        1
    } else {
        36 * pow36(n - 1)
    }
}

/// A gram packed base-36: the symbol index of each character in turn.
pub open spec fn gram_id(w: Seq<char>) -> int
    decreases w.len(),
{
    if w.len() == 0 {
        0
    } else {
        gram_id(w.drop_last()) * 36 + symbols().index_of(w.last())
    }
}

pub proof fn lemma_pow36_mono(a: int, b: int)
    requires
        0 <= a <= b,
    ensures
        0 < pow36(a) <= pow36(b),
    decreases b,
{
    if b > 0 {
        if a == b {
            lemma_pow36_mono(a - 1, b - 1);
        } else {
            lemma_pow36_mono(a, b - 1);
        }
    }
}

/// The powers of 36 the packing bounds rest on, written out.
pub proof fn lemma_pow36_values()
    ensures
        pow36(11) == 131621703842267136,
        pow36(12) == 4738381338321616896,
{
    assert(pow36(0) == 1);
    assert(pow36(1) == 36);
    assert(pow36(2) == 1296);
    assert(pow36(3) == 46656);
    assert(pow36(4) == 1679616);
    assert(pow36(5) == 60466176);
    assert(pow36(6) == 2176782336);
    assert(pow36(7) == 78364164096);
    assert(pow36(8) == 2821109907456);
    assert(pow36(9) == 101559956668416);
    assert(pow36(10) == 3656158440062976);
    assert(pow36(11) == 131621703842267136);
    assert(pow36(12) == 4738381338321616896);
}

/// A valid gram's id lies below `36^len`.
pub proof fn lemma_gram_id_bound(w: Seq<char>)
    requires
        valid_gram(w),
    ensures
        0 <= gram_id(w) < pow36(w.len() as int),
    decreases w.len(),
{
    if w.len() > 0 {
        let p = w.drop_last();
        assert(valid_gram(p)) by {
            assert(forall|i: int| 0 <= i < p.len() ==> p[i] == w[i]);
        }
        lemma_gram_id_bound(p);
        let c = w.last();
        assert(symbols().contains(c));
        let x = symbols().index_of(c);
        assert(0 <= x < 36);
    }
}

/// Number of counted windows (valid grams equal to `id`) among the
/// window starts `0 .. i` of `s`, windows being of length `n`.
pub open spec fn count_upto(s: Seq<char>, n: int, id: int, i: int) -> int
    decreases i,
{
    if i <= 0 {
        0
    } else {
        count_upto(s, n, id, i - 1) + if valid_gram(win(s, n, i - 1)) && gram_id(win(s, n, i - 1))
            == id {
            1int
        } else {
            0int
        }
    }
}

/// Number of windows that are valid grams among the window starts
/// `0 .. i`.
pub open spec fn good_upto(s: Seq<char>, n: int, i: int) -> int
    decreases i,
{
    if i <= 0 {
        0
    } else {
        good_upto(s, n, i - 1) + if valid_gram(win(s, n, i - 1)) {
            1int
        } else {
            0int
        }
    }
}

/// How often the gram `id` occurs as a window of length `n` in `s`.
pub open spec fn gram_count(s: Seq<char>, n: int, id: int) -> int {
    if n <= s.len() {
        count_upto(s, n, id, s.len() - n + 1)
    } else {
        0
    }
}

/// The total number of counted windows of length `n` in `s`.
pub open spec fn total_grams(s: Seq<char>, n: int) -> int {
    if n <= s.len() {
        good_upto(s, n, s.len() - n + 1)
    } else {
        0
    }
}

/// Packing is injective: two valid grams of one length with the same
/// id are the same gram.
pub proof fn lemma_gram_id_injective(w1: Seq<char>, w2: Seq<char>)
    requires
        valid_gram(w1),
        valid_gram(w2),
        w1.len() == w2.len(),
        gram_id(w1) == gram_id(w2),
    ensures
        w1 == w2,
    decreases w1.len(),
{
    if w1.len() == 0 {
        assert(w1 =~= w2);
    } else {
        let p1 = w1.drop_last();
        let p2 = w2.drop_last();
        assert(valid_gram(p1)) by {
            assert(forall|i: int| 0 <= i < p1.len() ==> p1[i] == w1[i]);
        }
        assert(valid_gram(p2)) by {
            assert(forall|i: int| 0 <= i < p2.len() ==> p2[i] == w2[i]);
        }
        lemma_gram_id_bound(p1);
        lemma_gram_id_bound(p2);
        let a1 = gram_id(p1);
        let a2 = gram_id(p2);
        let x1 = symbols().index_of(w1.last());
        let x2 = symbols().index_of(w2.last());
        assert(symbols().contains(w1.last()));
        assert(symbols().contains(w2.last()));
        assert(0 <= x1 < 36 && symbols()[x1] == w1.last());
        assert(0 <= x2 < 36 && symbols()[x2] == w2.last());
        assert(a1 == a2 && x1 == x2) by (nonlinear_arith)
            requires
                0 <= x1 < 36,
                0 <= x2 < 36,
                a1 >= 0,
                a2 >= 0,
                a1 * 36 + x1 == a2 * 36 + x2,
        ;
        assert(w1.last() == w2.last());
        lemma_gram_id_injective(p1, p2);
        assert(w1 =~= w2) by {
            assert(forall|i: int| 0 <= i < p1.len() ==> w1[i] == p1[i] && w2[i] == p2[i]);
        }
    }
}

/// Number of windows equal to `w` among the window starts `0 .. i`.
pub open spec fn occ_upto(s: Seq<char>, w: Seq<char>, i: int) -> int
    decreases i,
{
    if i <= 0 {
        0
    } else {
        occ_upto(s, w, i - 1) + if win(s, w.len() as int, i - 1) == w {
            1int
        } else {
            0int
        }
    }
}

/// How often `w` occurs as a window of `s`.
pub open spec fn occurrences(s: Seq<char>, w: Seq<char>) -> int {
    if w.len() <= s.len() {
        occ_upto(s, w, s.len() - w.len() + 1)
    } else {
        0
    }
}

proof fn lemma_occ_upto_nonneg(s: Seq<char>, w: Seq<char>, i: int)
    ensures
        occ_upto(s, w, i) >= 0,
    decreases i,
{
    if i > 0 {
        lemma_occ_upto_nonneg(s, w, i - 1);
    }
}

proof fn lemma_count_upto_is_occ_upto(s: Seq<char>, w: Seq<char>, i: int)
    requires
        valid_gram(w),
        1 <= w.len(),
        i + w.len() <= s.len() + 1,
    ensures
        count_upto(s, w.len() as int, gram_id(w), i) == occ_upto(s, w, i),
    decreases i,
{
    let n = w.len() as int;
    if i > 0 {
        lemma_count_upto_is_occ_upto(s, w, i - 1);
        let wi = win(s, n, i - 1);
        assert(wi.len() == n);
        if wi == w {
            assert(valid_gram(wi));
        } else {
            if valid_gram(wi) && gram_id(wi) == gram_id(w) {
                lemma_gram_id_injective(wi, w);
                assert(false);
            }
        }
    }
}

/// Counting by packed id is counting the gram itself: for a valid gram,
/// the number of counted windows with its id is the number of windows
/// equal to it.
pub proof fn lemma_gram_count_is_occurrences(s: Seq<char>, w: Seq<char>)
    requires
        valid_gram(w),
        1 <= w.len(),
    ensures
        gram_count(s, w.len() as int, gram_id(w)) == occurrences(s, w),
        occurrences(s, w) >= 0,
{
    if w.len() <= s.len() {
        lemma_count_upto_is_occ_upto(s, w, s.len() - w.len() + 1);
        lemma_occ_upto_nonneg(s, w, s.len() - w.len() + 1);
    }
}

/// The packed id of the window of length `n` starting at `i`, or `None`
/// if the window is not a valid gram.
pub fn window_id(s: &Vec<char>, syms: &Vec<char>, i: usize, n: usize) -> (r: Option<u64>)
    requires
        syms@ == symbols(),
        1 <= n <= 12,
        i + n <= s@.len(),
    ensures
        match r {
            Some(id) => valid_gram(win(s@, n as int, i as int)) && id == gram_id(
                win(s@, n as int, i as int)),
            None => !valid_gram(win(s@, n as int, i as int)),
        },
{
    let slen = s.len();
    let mut id: u64 = 0;
    let mut k: usize = 0;
    while k < n
        invariant
            syms@ == symbols(),
            1 <= n <= 12,
            i + n <= slen,
            slen == s@.len(),
            k <= n,
            valid_gram(win(s@, k as int, i as int)),
            id == gram_id(win(s@, k as int, i as int)),
            id < pow36(k as int),
        decreases n - k,
    {
        proof {
            lemma_symbols_no_duplicates();
            lemma_pow36_values();
            lemma_pow36_mono(k as int, 11);
            lemma_pow36_mono((k + 1) as int, 12);
        }
        let c = s[i + k];
        match find_char(syms, c) {
            Some(p) => {
                proof {
                    let prev = win(s@, k as int, i as int);
                    let cur = win(s@, (k + 1) as int, i as int);
                    assert(cur.drop_last() =~= prev);
                    assert(cur.last() == c);
                    assert(symbols().index_of(c) == p as int);
                    assert(valid_gram(cur)) by {
                        assert(forall|m: int| 0 <= m < k ==> cur[m] == prev[m]);
                        assert(symbols().contains(cur[k as int])) by {
                            assert(symbols()[p as int] == c);
                        }
                    }
                    assert(gram_id(cur) == gram_id(prev) * 36 + p);
                    assert(pow36((k + 1) as int) == 36 * pow36(k as int));
                }
                id = id * 36 + (p as u64);
                k += 1;
            },
            None => {
                proof {
                    let w = win(s@, n as int, i as int);
                    assert(w[k as int] == c);
                    assert(!valid_gram(w)) by {
                        if valid_gram(w) {
                            assert(symbols().contains(w[k as int]));
                        }
                    }
                }
                return None;
            },
        }
    }
    proof {
        assert(win(s@, k as int, i as int) =~= win(s@, n as int, i as int));
    }
    Some(id)
}

} // verus!
