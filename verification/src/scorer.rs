//! Scoring a candidate plaintext against a language model.
//!
//! A window of the model's order is slid over the whole candidate,
//! spaces included; each window adds its stored log-probability, or the
//! unseen-gram penalty when the model does not know it. Higher scores
//! mean a more plausible text.

use vstd::prelude::*;
use crate::alphabet::symbols;
use crate::model::LanguageModel;
use crate::ngram::{gram_id, lemma_gram_id_bound, lemma_pow36_values, valid_gram, win, window_id};
use crate::text::chars_of;

verus! {

/// The summed scores of the windows starting before `i`.
pub open spec fn score_upto(m: &LanguageModel, t: Seq<char>, i: int) -> int
    decreases i,
{
    if i <= 0 {
        0
    } else {
        score_upto(m, t, i - 1) + m.spec_gram_score(win(t, m.spec_order(), i - 1))
    }
}

/// The score of a candidate text: the sum over every window of the
/// model's order, or zero for a text shorter than the order.
pub open spec fn spec_score(m: &LanguageModel, t: Seq<char>) -> int {
    if m.spec_order() <= t.len() {
        score_upto(m, t, t.len() - m.spec_order() + 1)
    } else {
        0
    }
}

/// Every window scores within the penalty floor and zero, so the
/// partial sums stay within linear bounds.
pub proof fn lemma_score_upto_bounds(m: &LanguageModel, t: Seq<char>, i: int)
    requires
        m.wf(),
        i >= 0,
    ensures
        -1_000_000 * i <= score_upto(m, t, i) <= 0,
    decreases i,
{
    if i > 0 {
        lemma_score_upto_bounds(m, t, i - 1);
        let w = win(t, m.spec_order(), i - 1);
        if valid_gram(w) && w.len() == m.spec_order() && m.logs_map().contains_key(
            gram_id(w) as u64) {
            assert(m.counts_map().contains_key(gram_id(w) as u64));
        }
    }
}

/// A candidate never scores above zero.
pub proof fn lemma_spec_score_range(m: &LanguageModel, t: Seq<char>)
    requires
        m.wf(),
    ensures
        -1_000_000 * t.len() <= spec_score(m, t) <= 0,
{
    if m.spec_order() <= t.len() {
        let i = t.len() - m.spec_order() + 1;
        lemma_score_upto_bounds(m, t, i);
        assert(-1_000_000 * t.len() <= -1_000_000 * i);
    }
}

/// Scores a candidate given as characters.
pub fn score_chars(t: &Vec<char>, m: &LanguageModel) -> (r: i64)
    requires
        m.wf(),
        t@.len() <= 1_000_000_000,
    ensures
        r as int == spec_score(m, t@),
{
    let n = m.order();
    let tlen = t.len();
    if tlen < n {
        return 0;
    }
    let syms = crate::alphabet::symbol_chars();
    let iend = tlen - n + 1;
    let mut acc: i64 = 0;
    let mut i: usize = 0;
    while i < iend
        invariant
            m.wf(),
            syms@ == symbols(),
            n == m.spec_order(),
            tlen == t@.len(),
            tlen <= 1_000_000_000,
            n <= tlen,
            iend == tlen - n + 1,
            i <= iend,
            acc as int == score_upto(m, t@, i as int),
            -1_000_000 * (i as int) <= acc as int <= 0,
        decreases iend - i,
    {
        let ghost w = win(t@, n as int, i as int);
        let delta: i64;
        match window_id(t, &syms, i, n) {
            Some(id) => {
                proof {
                    lemma_gram_id_bound(w);
                    lemma_pow36_values();
                    crate::ngram::lemma_pow36_mono(w.len() as int, 12);
                    assert(gram_id(w) as u64 == id);
                }
                match m.log_for_id(id) {
                    Some(l) => {
                        proof {
                            assert(m.counts_map().contains_key(id));
                            assert(m.spec_gram_score(w) == l);
                        }
                        delta = l;
                    },
                    None => {
                        proof {
                            assert(m.spec_gram_score(w) == m.spec_penalty());
                        }
                        delta = m.penalty();
                    },
                }
            },
            None => {
                proof {
                    assert(m.spec_gram_score(w) == m.spec_penalty());
                }
                delta = m.penalty();
            },
        }
        proof {
            assert(score_upto(m, t@, i as int + 1) == score_upto(m, t@, i as int)
                + m.spec_gram_score(w));
        }
        acc = acc + delta;
        i += 1;
    }
    acc
}

/// Scores a candidate plaintext against the model: the sum, over every
/// window of the model's order, of the window's log-probability, with
/// the penalty charged for every window the model has not seen.
pub fn score(text: &str, model: &LanguageModel) -> (r: i64)
    requires
        model.wf(),
        text@.len() <= 1_000_000_000,
    ensures
        r as int == spec_score(model, text@),
{
    let cs = chars_of(text);
    score_chars(&cs, model)
}

} // verus!
