//! The n-gram language model: training, storage and lookup.
//!
//! Training cleans the corpus, counts every window of the chosen order
//! that is a valid gram (windows touching a space are skipped), and
//! derives for each gram the scaled log of its frequency. A gram never
//! seen in training is charged a fixed negative penalty instead.

use vstd::prelude::*;
use std::collections::HashMap;
use crate::alphabet::symbols;
use crate::clean::{clean_chars, spec_clean, lemma_clean_shape};
use crate::errors::CipherError;
use crate::logp::{log_fixed, log_scaled};
use crate::ngram::{count_upto, good_upto, gram_count, gram_id, lemma_gram_count_is_occurrences,
    lemma_gram_id_bound, lemma_pow36_values, occurrences, total_grams, valid_gram, win,
    window_id};
use crate::text::chars_of;

verus! {

broadcast use vstd::std_specs::hash::group_hash_axioms;

/// The unseen-gram penalty in scaled log units: -10 in log10 units,
/// times the scale of 5.
pub const DEFAULT_PENALTY: i64 = -50;

/// The sum of the map's values over the listed keys.
pub open spec fn sum_counts(ks: Seq<u64>, m: Map<u64, u64>) -> int
    decreases ks.len(),
{
    if ks.len() == 0 {
        0
    } else {
        sum_counts(ks.drop_last(), m) + m[ks.last()]
    }
}

/// Two maps agreeing on every listed key sum alike over those keys.
proof fn lemma_sum_frame(ks: Seq<u64>, m1: Map<u64, u64>, m2: Map<u64, u64>)
    requires
        forall|j: int| 0 <= j < ks.len() ==> m1[#[trigger] ks[j]] == m2[ks[j]],
    ensures
        sum_counts(ks, m1) == sum_counts(ks, m2),
    decreases ks.len(),
{
    if ks.len() > 0 {
        lemma_sum_frame(ks.drop_last(), m1, m2);
    }
}

/// Appending a key adds that key's value to the sum.
proof fn lemma_sum_push(ks: Seq<u64>, m: Map<u64, u64>, id: u64)
    ensures
        sum_counts(ks.push(id), m) == sum_counts(ks, m) + m[id],
{
    assert(ks.push(id).drop_last() =~= ks);
    assert(ks.push(id).last() == id);
}

/// Raising the value of one listed key raises the sum by the difference.
proof fn lemma_sum_bump(ks: Seq<u64>, m: Map<u64, u64>, id: u64, v: u64)
    requires
        ks.no_duplicates(),
        ks.contains(id),
    ensures
        sum_counts(ks, m.insert(id, v)) == sum_counts(ks, m) - m[id] + v,
    decreases ks.len(),
{
    let pre = ks.drop_last();
    assert(pre.no_duplicates()) by {
        assert(forall|i: int| 0 <= i < pre.len() ==> pre[i] == ks[i]);
    }
    if ks.last() == id {
        assert(!pre.contains(id)) by {
            if pre.contains(id) {
                let j = choose|j: int| 0 <= j < pre.len() && pre[j] == id;
                assert(ks[j] == id && ks[ks.len() - 1] == id && j != ks.len() - 1);
            }
        }
        assert(forall|j: int| 0 <= j < pre.len() ==> pre[j] != id);
        lemma_sum_frame(pre, m.insert(id, v), m);
    } else {
        assert(pre.contains(id)) by {
            let j = choose|j: int| 0 <= j < ks.len() && ks[j] == id;
            assert(j != ks.len() - 1);
            assert(pre[j] == id);
        }
        lemma_sum_bump(pre, m, id, v);
    }
}

/// A sequence with one more element holds exactly the old elements and
/// the new one.
proof fn lemma_push_contains(ks: Seq<u64>, id: u64, k: u64)
    ensures
        ks.push(id).contains(k) <==> (ks.contains(k) || k == id),
{
    if ks.push(id).contains(k) {
        let j = choose|j: int| 0 <= j < ks.push(id).len() && ks.push(id)[j] == k;
        if j < ks.len() {
            assert(ks[j] == k);
        }
    }
    if ks.contains(k) {
        let j = choose|j: int| 0 <= j < ks.len() && ks[j] == k;
        assert(ks.push(id)[j] == k);
    }
    if k == id {
        assert(ks.push(id)[ks.len() as int] == k);
    }
}

/// A trained n-gram model: for each gram of the fixed order, how often
/// it was counted and the scaled log of its frequency.
pub struct LanguageModel {
    order: usize,
    total: u64,
    counts: HashMap<u64, u64>,
    logs: HashMap<u64, i64>,
    gram_keys: Vec<u64>,
    penalty: i64,
}

impl LanguageModel {
    /// The gram order the model was trained with.
    pub closed spec fn spec_order(&self) -> int {
        self.order as int
    }

    /// The number of counted windows in the training corpus.
    pub closed spec fn spec_total(&self) -> int {
        self.total as int
    }

    /// The penalty charged for a gram the model has not seen.
    pub closed spec fn spec_penalty(&self) -> int {
        self.penalty as int
    }

    /// Gram id to frequency.
    pub closed spec fn counts_map(&self) -> Map<u64, u64> {
        self.counts@
    }

    /// Gram id to scaled log-probability.
    pub closed spec fn logs_map(&self) -> Map<u64, i64> {
        self.logs@
    }

    /// The trained gram ids, each exactly once.
    pub closed spec fn key_seq(&self) -> Seq<u64> {
        self.gram_keys@
    }

    /// Well-formedness: the tables agree, every stored frequency is
    /// between one and the total, every stored log is the scaled log of
    /// its frequency, and the frequencies sum to the total.
    pub open spec fn wf(&self) -> bool {
        &&& 1 <= self.spec_order() <= 12
        &&& 0 <= self.spec_total() <= 20_000_000
        &&& self.key_seq().no_duplicates()
        &&& (forall|k: u64| #[trigger] self.counts_map().contains_key(k) <==> self.key_seq()
            .contains(k))
        &&& (forall|k: u64| #[trigger] self.logs_map().contains_key(k) <==> self.counts_map()
            .contains_key(k))
        &&& (forall|k: u64| #[trigger] self.counts_map().contains_key(k) ==> 1 <= self.counts_map()[k]
            <= self.spec_total())
        &&& (forall|k: u64| #[trigger] self.counts_map().contains_key(k) ==> self.logs_map()[k]
            == log_scaled(self.counts_map()[k] as int, self.spec_total()) && -40
            <= self.logs_map()[k] <= 0)
        &&& sum_counts(self.key_seq(), self.counts_map()) == self.spec_total()
        &&& -1_000_000 <= self.spec_penalty() <= -1
    }

    /// The model matches the cleaned corpus `cl` at order `n`: the total
    /// is the number of counted windows, and each gram's stored
    /// frequency is the number of windows equal to it.
    pub open spec fn models(&self, cl: Seq<char>, n: int) -> bool {
        &&& self.spec_order() == n
        &&& self.spec_total() == total_grams(cl, n)
        &&& (forall|id: u64| #[trigger] self.counts_map().contains_key(id) ==> self.counts_map()[id]
            == gram_count(cl, n, id as int))
        &&& (forall|id: u64| #[trigger] self.counts_map().contains_key(id) <==> gram_count(
            cl, n, id as int) > 0)
    }

    /// The score a window earns: its stored log-probability if the
    /// model knows it, the penalty otherwise.
    pub open spec fn spec_gram_score(&self, w: Seq<char>) -> int {
        if valid_gram(w) && w.len() == self.spec_order() && self.logs_map().contains_key(
            gram_id(w) as u64) {
            self.logs_map()[gram_id(w) as u64] as int
        } else {
            self.spec_penalty()
        }
    }

    /// The stored frequency of a gram, zero if the model has not seen it.
    pub open spec fn spec_gram_count(&self, w: Seq<char>) -> int {
        if valid_gram(w) && w.len() == self.spec_order() && self.counts_map().contains_key(
            gram_id(w) as u64) {
            self.counts_map()[gram_id(w) as u64] as int
        } else {
            0
        }
    }

    pub fn order(&self) -> (r: usize)
        ensures
            r == self.spec_order(),
    {
        self.order
    }

    pub fn total(&self) -> (r: u64)
        ensures
            r == self.spec_total(),
    {
        self.total
    }

    pub fn penalty(&self) -> (r: i64)
        ensures
            r == self.spec_penalty(),
    {
        self.penalty
    }

    /// The stored log for a packed gram id, if the model has it.
    pub fn log_for_id(&self, id: u64) -> (r: Option<i64>)
        ensures
            match r {
                Some(l) => self.logs_map().contains_key(id) && l == self.logs_map()[id],
                None => !self.logs_map().contains_key(id),
            },
    {
        match self.logs.get(&id) {
            Some(l) => Some(*l),
            None => None,
        }
    }

    /// The scaled log-probability of `gram`, or the penalty if the
    /// model has not seen it or it is no gram of the model's order.
    pub fn log_p(&self, gram: &str) -> (r: i64)
        requires
            self.wf(),
        ensures
            r == self.spec_gram_score(gram@),
    {
        let cs = chars_of(gram);
        if cs.len() != self.order {
            return self.penalty;
        }
        let syms = crate::alphabet::symbol_chars();
        match window_id(&cs, &syms, 0, self.order) {
            Some(id) => {
                proof {
                    assert(win(cs@, self.order as int, 0) =~= cs@);
                    lemma_gram_id_bound(cs@);
                    lemma_pow36_values();
                    crate::ngram::lemma_pow36_mono(cs@.len() as int, 12);
                    assert(gram_id(cs@) as u64 == id);
                }
                match self.logs.get(&id) {
                    Some(l) => *l,
                    None => self.penalty,
                }
            },
            None => {
                proof {
                    assert(win(cs@, self.order as int, 0) =~= cs@);
                }
                self.penalty
            },
        }
    }

    /// How often the model counted `gram` in training; zero if never.
    pub fn count_of(&self, gram: &str) -> (r: u64)
        requires
            self.wf(),
        ensures
            r == self.spec_gram_count(gram@),
    {
        let cs = chars_of(gram);
        if cs.len() != self.order {
            return 0;
        }
        let syms = crate::alphabet::symbol_chars();
        match window_id(&cs, &syms, 0, self.order) {
            Some(id) => {
                proof {
                    assert(win(cs@, self.order as int, 0) =~= cs@);
                    lemma_gram_id_bound(cs@);
                    lemma_pow36_values();
                    crate::ngram::lemma_pow36_mono(cs@.len() as int, 12);
                    assert(gram_id(cs@) as u64 == id);
                }
                match self.counts.get(&id) {
                    Some(c) => *c,
                    None => 0,
                }
            },
            None => {
                proof {
                    assert(win(cs@, self.order as int, 0) =~= cs@);
                }
                0
            },
        }
    }
}

/// Model normalization: the stored frequencies of all trained grams sum
/// to the total count, so the modeled probabilities `count / total`
/// sum to exactly one whenever any gram was counted.
pub proof fn lemma_model_normalization(m: &LanguageModel)
    requires
        m.wf(),
    ensures
        sum_counts(m.key_seq(), m.counts_map()) == m.spec_total(),
{
}

/// Read at the level of text windows: for any valid gram of the
/// model's order, the stored frequency is exactly how often that gram
/// occurs as a window of the cleaned corpus the model was trained on.
pub proof fn lemma_model_counts_occurrences(m: &LanguageModel, cl: Seq<char>, w: Seq<char>)
    requires
        m.wf(),
        m.models(cl, m.spec_order()),
        valid_gram(w),
        w.len() == m.spec_order(),
    ensures
        m.spec_gram_count(w) == occurrences(cl, w),
{
    lemma_gram_id_bound(w);
    lemma_pow36_values();
    crate::ngram::lemma_pow36_mono(w.len() as int, 12);
    let id: u64 = gram_id(w) as u64;
    assert(id as int == gram_id(w));
    lemma_gram_count_is_occurrences(cl, w);
    if m.counts_map().contains_key(id) {
        assert(m.spec_gram_count(w) == m.counts_map()[id] as int);
    } else {
        assert(!(gram_count(cl, m.spec_order(), id as int) > 0));
    }
}

/// A gram the model has seen always outscores one it has not, as long
/// as the penalty lies below the worst possible stored log.
pub proof fn lemma_seen_beats_unseen(m: &LanguageModel, seen: Seq<char>, unseen: Seq<char>)
    requires
        m.wf(),
        m.spec_penalty() <= -41,
        valid_gram(seen),
        seen.len() == m.spec_order(),
        m.logs_map().contains_key(gram_id(seen) as u64),
        !(valid_gram(unseen) && unseen.len() == m.spec_order() && m.logs_map().contains_key(
            gram_id(unseen) as u64)),
    ensures
        m.spec_gram_score(seen) > m.spec_gram_score(unseen),
{
    assert(m.counts_map().contains_key(gram_id(seen) as u64));
}

/// Trains a model on `corpus` with the given gram order and unseen-gram
/// penalty. An order of zero, or one too large to pack a gram into a
/// machine word, is refused; a corpus shorter than the order yields the
/// empty model.
pub fn train_with_penalty(corpus: &str, order: usize, penalty: i64) -> (r: Result<
    LanguageModel,
    CipherError,
>)
    requires
        corpus@.len() <= 20_000_000,
        -1_000_000 <= penalty <= -1,
    ensures
        match r {
            Ok(m) => {
                &&& 1 <= order <= 12
                &&& m.wf()
                &&& m.models(spec_clean(corpus@), order as int)
                &&& m.spec_order() == order
                &&& m.spec_penalty() == penalty
            },
            Err(e) => (order == 0 || order > 12) && e == CipherError::Config,
        },
{
    if order == 0 || order > 12 {
        return Err(CipherError::Config);
    }
    let cs = chars_of(corpus);
    let cl = clean_chars(&cs);
    let ghost cls = cl@;
    let ghost n = order as int;
    proof {
        lemma_clean_shape(cs@);
    }
    let syms = crate::alphabet::symbol_chars();
    let mut counts: HashMap<u64, u64> = HashMap::new();
    let mut gram_keys: Vec<u64> = Vec::new();
    let mut total: u64 = 0;
    let cllen = cl.len();
    if cllen >= order {
        let iend = cllen - order + 1;
        let mut i: usize = 0;
        while i < iend
            invariant
                syms@ == symbols(),
                1 <= order <= 12,
                cl@ == cls,
                cls.len() <= 20_000_000,
                iend == cls.len() - order + 1,
                i <= iend,
                n == order as int,
                total as int == good_upto(cls, n, i as int),
                total <= i,
                gram_keys@.no_duplicates(),
                forall|k: u64| #[trigger] counts@.contains_key(k) <==> gram_keys@.contains(k),
                forall|k: u64| #[trigger] counts@.contains_key(k) ==> 1 <= counts@[k] && counts@[k]
                    <= total,
                forall|k: u64| #[trigger] counts@.contains_key(k) ==> counts@[k] as int
                    == count_upto(cls, n, k as int, i as int),
                forall|k: u64| !(#[trigger] counts@.contains_key(k)) ==> count_upto(
                    cls, n, k as int, i as int) == 0,
                sum_counts(gram_keys@, counts@) == total as int,
            decreases iend - i,
        {
            let ghost gi = i as int;
            let ghost w = win(cls, n, gi);
            match window_id(&cl, &syms, i, order) {
                Some(id) => {
                    proof {
                        lemma_gram_id_bound(w);
                        lemma_pow36_values();
                        crate::ngram::lemma_pow36_mono(w.len() as int, 12);
                        assert(gram_id(w) as u64 == id);
                        assert forall|k: u64| count_upto(cls, n, k as int, gi + 1) == count_upto(
                            cls, n, k as int, gi) + (if k == id {
                            1int
                        } else {
                            0int
                        }) by {
                            if k as int == gram_id(w) {
                                assert(k == id);
                            }
                        }
                        assert(good_upto(cls, n, gi + 1) == good_upto(cls, n, gi) + 1);
                    }
                    let ghost oldc = counts@;
                    let ghost oldk = gram_keys@;
                    let prev = counts.get(&id);
                    match prev {
                        Some(c0ref) => {
                            let c0 = *c0ref;
                            counts.insert(id, c0 + 1);
                            total = total + 1;
                            proof {
                                assert(counts@ == oldc.insert(id, (c0 + 1) as u64));
                                lemma_sum_bump(oldk, oldc, id, (c0 + 1) as u64);
                            }
                        },
                        None => {
                            counts.insert(id, 1);
                            gram_keys.push(id);
                            total = total + 1;
                            proof {
                                assert(counts@ == oldc.insert(id, 1u64));
                                assert(gram_keys@ == oldk.push(id));
                                assert(!oldk.contains(id));
                                assert(gram_keys@.no_duplicates()) by {
                                    assert(forall|x: int| 0 <= x < oldk.len()
                                        ==> gram_keys@[x] == oldk[x]);
                                    assert(gram_keys@[oldk.len() as int] == id);
                                    assert forall|x: int, y: int|
                                        0 <= x < y < gram_keys@.len() implies gram_keys@[x]
                                        != gram_keys@[y] by {
                                        if y == oldk.len() {
                                            assert(oldk[x] == gram_keys@[x]);
                                            assert(oldk.contains(oldk[x]));
                                        }
                                    }
                                }
                                assert forall|k: u64| #[trigger] gram_keys@.contains(k) <==> (
                                oldk.contains(k) || k == id) by {
                                    lemma_push_contains(oldk, id, k);
                                }
                                assert(forall|j: int| 0 <= j < oldk.len() ==> oldk[j] != id);
                                lemma_sum_frame(oldk, oldc.insert(id, 1u64), oldc);
                                lemma_sum_push(oldk, oldc.insert(id, 1u64), id);
                            }
                        },
                    }
                },
                None => {
                    proof {
                        assert forall|k: u64| count_upto(cls, n, k as int, gi + 1) == count_upto(
                            cls, n, k as int, gi) by {}
                        assert(good_upto(cls, n, gi + 1) == good_upto(cls, n, gi));
                    }
                },
            }
            i += 1;
        }
    }
    let ghost countsm = counts@;
    let ghost keysq = gram_keys@;
    let mut logs: HashMap<u64, i64> = HashMap::new();
    let mut j: usize = 0;
    while j < gram_keys.len()
        invariant
            counts@ == countsm,
            gram_keys@ == keysq,
            j <= keysq.len(),
            total <= 20_000_000,
            keysq.no_duplicates(),
            forall|k: u64| #[trigger] countsm.contains_key(k) <==> keysq.contains(k),
            forall|k: u64| #[trigger] countsm.contains_key(k) ==> 1 <= countsm[k] && countsm[k]
                <= total,
            forall|k: u64| #[trigger] logs@.contains_key(k) <==> exists|x: int|
                0 <= x < j && keysq[x] == k,
            forall|k: u64| #[trigger] logs@.contains_key(k) ==> logs@[k] == log_scaled(
                countsm[k] as int, total as int) && -40 <= logs@[k] <= 0,
        decreases keysq.len() - j,
    {
        let k = gram_keys[j];
        proof {
            assert(keysq.contains(k));
            assert(countsm.contains_key(k));
        }
        let c0: u64;
        match counts.get(&k) {
            Some(c0ref) => {
                c0 = *c0ref;
            },
            None => {
                proof {
                    assert(false);
                }
                c0 = 1;
            },
        }
        let l = log_fixed(c0, total);
        logs.insert(k, l);
        proof {
            assert forall|k2: u64| #[trigger] logs@.contains_key(k2) implies exists|x: int|
                0 <= x < j + 1 && keysq[x] == k2 by {
                if k2 == k {
                    assert(keysq[j as int] == k2);
                } else {
                    let x = choose|x: int| 0 <= x < j && keysq[x] == k2;
                    assert(keysq[x] == k2);
                }
            }
            assert forall|k2: u64| (exists|x: int| 0 <= x < j + 1 && keysq[x] == k2)
                implies #[trigger] logs@.contains_key(k2) by {
                let x = choose|x: int| 0 <= x < j + 1 && keysq[x] == k2;
                if x < j {
                    assert(exists|y: int| 0 <= y < j && keysq[y] == k2);
                }
            }
        }
        j += 1;
    }
    proof {
        assert forall|k: u64| #[trigger] logs@.contains_key(k) <==> countsm.contains_key(k) by {
            if logs@.contains_key(k) {
                let x = choose|x: int| 0 <= x < keysq.len() && keysq[x] == k;
                assert(keysq.contains(k));
            }
            if countsm.contains_key(k) {
                let x = choose|x: int| 0 <= x < keysq.len() && keysq[x] == k;
            }
        }
    }
    proof {
        assert forall|k: u64| #[trigger] counts@.contains_key(k) implies logs@.contains_key(k)
            && logs@[k] == log_scaled(counts@[k] as int, total as int) && -40 <= logs@[k]
            <= 0 by {
            assert(keysq.contains(k));
            let x = choose|x: int| 0 <= x < keysq.len() && keysq[x] == k;
            assert(logs@.contains_key(k));
        }
        if cllen >= order {
            assert(total as int == total_grams(cls, n));
            assert forall|id: u64| gram_count(cls, n, id as int) > 0 implies #[trigger] counts@
                .contains_key(id) by {
                if !counts@.contains_key(id) {
                    assert(count_upto(cls, n, id as int, cls.len() - n + 1) == 0);
                }
            }
        } else {
            assert(total_grams(cls, n) == 0);
            assert(total == 0);
        }
    }
    Ok(LanguageModel { order, total, counts, logs, gram_keys, penalty })
}

/// Trains a model with the reference unseen-gram penalty.
pub fn train(corpus: &str, order: usize) -> (r: Result<LanguageModel, CipherError>)
    requires
        corpus@.len() <= 20_000_000,
    ensures
        match r {
            Ok(m) => {
                &&& 1 <= order <= 12
                &&& m.wf()
                &&& m.models(spec_clean(corpus@), order as int)
                &&& m.spec_order() == order
                &&& m.spec_penalty() == DEFAULT_PENALTY
            },
            Err(e) => (order == 0 || order > 12) && e == CipherError::Config,
        },
{
    train_with_penalty(corpus, order, DEFAULT_PENALTY)
}

} // verus!
