//! Stochastic hill-climbing over permutation keys, with restarts.
//!
//! Each restart starts from the identity key, repeatedly proposes a
//! candidate by swapping two randomly chosen key positions, decodes the
//! ciphertext under it and scores the result. A strictly better
//! candidate is accepted and resets the stall counter; anything else is
//! rejected and counted. A restart ends once the counter reaches the
//! stall limit, and its final key, plaintext and score are reported.

use vstd::prelude::*;
use rand::Rng;
use crate::alphabet::alphabet;
use crate::codec::{decode_chars, spec_decode, valid_text};
use crate::errors::CipherError;
use crate::key::{swapped_key, Key};
use crate::model::LanguageModel;
use crate::scorer::{lemma_spec_score_range, score_chars, spec_score};
use crate::text::{chars_of, string_of};

verus! {

/// The restart count of the reference configuration.
pub const DEFAULT_RESTARTS: u32 = 11;

/// The stall limit of the reference configuration: how many consecutive
/// rejected proposals end a restart.
pub const DEFAULT_STALL_LIMIT: u32 = 100000;

/// Relies on `rand::thread_rng` and `Rng::gen_range`: a draw from the
/// nonempty range `0..26` lies below 26, whatever the generator state.
#[verifier::external_body]
fn random_index() -> (r: usize)
    ensures
        r < 26,
{
    rand::thread_rng().gen_range(0..26)
}

/// The state one restart owns: the current key, the plaintext the
/// ciphertext decodes to under it, that plaintext's score, and how many
/// consecutive proposals were rejected since the last acceptance.
pub struct SearchState {
    pub key: Key,
    pub plaintext: Vec<char>,
    pub score: i64,
    pub stall: u32,
}

/// The state is coherent for a given ciphertext and model: the key is a
/// permutation, the plaintext is the decoding under that key, and the
/// score is the plaintext's score.
pub open spec fn state_wf(st: SearchState, cipher: Seq<char>, m: &LanguageModel) -> bool {
    &&& st.key.wf()
    &&& st.plaintext@ == spec_decode(cipher, st.key@)
    &&& st.score as int == spec_score(m, st.plaintext@)
}

/// The proposal to swap key positions `i` and `j` is accepted exactly
/// when the ciphertext's decoding under the swapped candidate outscores
/// its decoding under the current key.
pub open spec fn step_accepts(m: &LanguageModel, cipher: Seq<char>, key: Seq<char>, i: int,
    j: int) -> bool {
    spec_score(m, spec_decode(cipher, swapped_key(key, i, j))) > spec_score(m,
        spec_decode(cipher, key))
}

/// The key after one proposal: the swapped candidate if accepted, the
/// old key otherwise.
pub open spec fn step_key(m: &LanguageModel, cipher: Seq<char>, key: Seq<char>, i: int,
    j: int) -> Seq<char> {
    if step_accepts(m, cipher, key, i, j) {
        swapped_key(key, i, j)
    } else {
        key
    }
}

/// The key a whole proposal sequence leads to.
pub open spec fn hill_key(m: &LanguageModel, cipher: Seq<char>, key: Seq<char>, proposals: Seq<
    (usize, usize),
>) -> Seq<char>
    decreases proposals.len(),
{
    if proposals.len() == 0 {
        key
    } else {
        hill_key(m, cipher, step_key(m, cipher, key, proposals[0].0 as int, proposals[0].1 as int),
            proposals.drop_first())
    }
}

/// The stall counter a whole proposal sequence leaves behind.
pub open spec fn hill_stall(m: &LanguageModel, cipher: Seq<char>, key: Seq<char>, stall: int,
    proposals: Seq<(usize, usize)>) -> int
    decreases proposals.len(),
{
    if proposals.len() == 0 {
        stall
    } else {
        let i = proposals[0].0 as int;
        let j = proposals[0].1 as int;
        hill_stall(m, cipher, step_key(m, cipher, key, i, j), if step_accepts(m, cipher, key, i,
            j) {
            0
        } else {
            stall + 1
        }, proposals.drop_first())
    }
}

/// One EXPLORE proposal: swap positions `i` and `j` of the current key,
/// decode and score; accept exactly when the candidate scores strictly
/// higher, making the candidate current. The accepted score never
/// decreases, rises exactly on acceptance, and the stall counter resets
/// on acceptance and increments otherwise.
pub fn explore_step(st: &mut SearchState, i: usize, j: usize, cipher: &Vec<char>,
    m: &LanguageModel) -> (accepted: bool)
    requires
        m.wf(),
        i < 26,
        j < 26,
        valid_text(cipher@),
        cipher@.len() <= 1_000_000_000,
        state_wf(*old(st), cipher@, m),
        old(st).stall < u32::MAX,
    ensures
        state_wf(*final(st), cipher@, m),
        accepted == step_accepts(m, cipher@, old(st).key@, i as int, j as int),
        final(st).key@ == step_key(m, cipher@, old(st).key@, i as int, j as int),
        final(st).score >= old(st).score,
        accepted ==> final(st).score > old(st).score && final(st).stall == 0,
        !accepted ==> final(st).key@ == old(st).key@ && final(st).plaintext@ == old(
            st).plaintext@ && final(st).score == old(st).score && final(st).stall == old(
            st).stall + 1,
{
    let cand_key = st.key.swapped(i, j);
    let cand_plain: Vec<char>;
    match decode_chars(cipher, &cand_key) {
        Ok(v) => {
            cand_plain = v;
        },
        Err(_) => {
            proof {
                assert(false);
            }
            cand_plain = Vec::new();
        },
    }
    proof {
        assert(cand_plain@.len() == cipher@.len());
    }
    let cand_score = score_chars(&cand_plain, m);
    if cand_score > st.score {
        st.key = cand_key;
        st.plaintext = cand_plain;
        st.score = cand_score;
        st.stall = 0;
        true
    } else {
        st.stall = st.stall + 1;
        false
    }
}

/// One restart: hill-climb from the identity key until `stall_limit`
/// consecutive proposals have been rejected. The result is coherent,
/// and its score is at least the identity decoding's score.
pub fn run_restart(cipher: &Vec<char>, m: &LanguageModel, stall_limit: u32) -> (st: SearchState)
    requires
        m.wf(),
        valid_text(cipher@),
        cipher@.len() <= 1_000_000_000,
    ensures
        state_wf(st, cipher@, m),
        st.score as int >= spec_score(m, spec_decode(cipher@, alphabet())),
        st.stall == stall_limit,
{
    let key = Key::identity();
    let plain: Vec<char>;
    match decode_chars(cipher, &key) {
        Ok(v) => {
            plain = v;
        },
        Err(_) => {
            proof {
                assert(false);
            }
            plain = Vec::new();
        },
    }
    proof {
        assert(plain@.len() == cipher@.len());
    }
    let sc = score_chars(&plain, m);
    let ghost init_score = sc as int;
    proof {
        lemma_spec_score_range(m, plain@);
    }
    let mut st = SearchState { key, plaintext: plain, score: sc, stall: 0 };
    while st.stall < stall_limit
        invariant
            m.wf(),
            valid_text(cipher@),
            cipher@.len() <= 1_000_000_000,
            state_wf(st, cipher@, m),
            st.stall <= stall_limit,
            init_score == spec_score(m, spec_decode(cipher@, alphabet())),
            st.score as int >= init_score,
            st.score as int <= 0,
        decreases (0 - st.score as int) * (stall_limit as int + 1) + (stall_limit as int
            - st.stall as int),
    {
        let ghost old_score = st.score as int;
        let ghost old_stall = st.stall as int;
        let ghost lim = stall_limit as int;
        let i = random_index();
        let j = random_index();
        let accepted = explore_step(&mut st, i, j, cipher, m);
        proof {
            lemma_spec_score_range(m, st.plaintext@);
            if accepted {
                assert((0 - st.score as int) * (lim + 1) <= ((0 - old_score) - 1) * (lim + 1))
                    by (nonlinear_arith)
                    requires
                        st.score as int >= old_score + 1,
                        lim + 1 >= 1,
                ;
                assert(((0 - old_score) - 1) * (lim + 1) == (0 - old_score) * (lim + 1) - (lim
                    + 1)) by (nonlinear_arith);
            }
        }
    }
    st
}

/// One restart driven by a caller-supplied sequence of proposals in
/// place of fresh randomness: proposal `p` names the two key positions
/// swapped at step `p`, and the whole sequence is consumed, so its
/// length is the restart's iteration budget. The outcome is a function
/// of the model, the ciphertext and the proposals alone: the final key
/// is `hill_key` of the sequence, the stall counter `hill_stall`, and
/// the plaintext and score follow by coherence. Replaying the same
/// sequence reproduces the result exactly.
pub fn run_restart_with_proposals(cipher: &Vec<char>, m: &LanguageModel, proposals: &Vec<
    (usize, usize),
>) -> (st: SearchState)
    requires
        m.wf(),
        valid_text(cipher@),
        cipher@.len() <= 1_000_000_000,
        proposals@.len() < 4_294_967_295,
        forall|x: int|
            0 <= x < proposals@.len() ==> (#[trigger] proposals@[x]).0 < 26 && proposals@[x].1
                < 26,
    ensures
        state_wf(st, cipher@, m),
        st.key@ == hill_key(m, cipher@, alphabet(), proposals@),
        st.stall as int == hill_stall(m, cipher@, alphabet(), 0, proposals@),
        st.score as int >= spec_score(m, spec_decode(cipher@, alphabet())),
{
    let key = Key::identity();
    let plain: Vec<char>;
    match decode_chars(cipher, &key) {
        Ok(v) => {
            plain = v;
        },
        Err(_) => {
            proof {
                assert(false);
            }
            plain = Vec::new();
        },
    }
    proof {
        assert(plain@.len() == cipher@.len());
    }
    let sc = score_chars(&plain, m);
    let ghost init_score = sc as int;
    let mut st = SearchState { key, plaintext: plain, score: sc, stall: 0 };
    let mut p: usize = 0;
    proof {
        assert(proposals@.skip(0) =~= proposals@);
    }
    while p < proposals.len()
        invariant
            m.wf(),
            valid_text(cipher@),
            cipher@.len() <= 1_000_000_000,
            state_wf(st, cipher@, m),
            p <= proposals@.len(),
            proposals@.len() < 4_294_967_295,
            forall|x: int|
                0 <= x < proposals@.len() ==> (#[trigger] proposals@[x]).0 < 26 && proposals@[x].1
                    < 26,
            st.stall as int <= p as int,
            init_score == spec_score(m, spec_decode(cipher@, alphabet())),
            st.score as int >= init_score,
            hill_key(m, cipher@, alphabet(), proposals@) == hill_key(m, cipher@, st.key@,
                proposals@.skip(p as int)),
            hill_stall(m, cipher@, alphabet(), 0, proposals@) == hill_stall(m, cipher@, st.key@,
                st.stall as int, proposals@.skip(p as int)),
        decreases proposals@.len() - p,
    {
        let pr = proposals[p];
        let ghost rest = proposals@.skip(p as int);
        let ghost old_key = st.key@;
        let ghost old_stall = st.stall as int;
        proof {
            assert(rest[0] == proposals@[p as int]);
        }
        let accepted = explore_step(&mut st, pr.0, pr.1, cipher, m);
        proof {
            assert(rest.drop_first() =~= proposals@.skip(p as int + 1));
            assert(hill_key(m, cipher@, old_key, rest) == hill_key(m, cipher@, step_key(m,
                cipher@, old_key, rest[0].0 as int, rest[0].1 as int), rest.drop_first()));
            assert(hill_stall(m, cipher@, old_key, old_stall, rest) == hill_stall(m, cipher@,
                step_key(m, cipher@, old_key, rest[0].0 as int, rest[0].1 as int), if step_accepts(
                m, cipher@, old_key, rest[0].0 as int, rest[0].1 as int) {
                0int
            } else {
                old_stall + 1
            }, rest.drop_first()));
        }
        p += 1;
    }
    proof {
        assert(proposals@.skip(proposals@.len() as int) =~= Seq::<(usize, usize)>::empty());
    }
    st
}

/// The report of one restart: the key it settled on, the plaintext the
/// ciphertext decodes to under that key, and that plaintext's score.
pub struct RestartResult {
    pub key: Key,
    pub plaintext: String,
    pub score: i64,
}

/// Recovers candidate decryptions of `ciphertext` by `restarts`
/// independent hill-climbs, reported in restart order. Zero restarts
/// are refused as a configuration error; a ciphertext holding any
/// character outside the alphabet and space is refused as an
/// unrecognized symbol; otherwise one coherent result is returned per
/// restart, each scoring at least the identity decoding.
pub fn search(ciphertext: &str, model: &LanguageModel, restarts: u32, stall_limit: u32) -> (r:
    Result<Vec<RestartResult>, CipherError>)
    requires
        model.wf(),
        ciphertext@.len() <= 1_000_000_000,
    ensures
        match r {
            Ok(v) => {
                &&& restarts > 0
                &&& valid_text(ciphertext@)
                &&& v@.len() == restarts
                &&& forall|x: int|
                    0 <= x < v@.len() ==> {
                        &&& (#[trigger] v@[x]).key.wf()
                        &&& v@[x].plaintext@ == spec_decode(ciphertext@, v@[x].key@)
                        &&& v@[x].score as int == spec_score(model, v@[x].plaintext@)
                        &&& v@[x].score as int >= spec_score(model, spec_decode(ciphertext@,
                            alphabet()))
                    }
            },
            Err(e) => {
                ||| (restarts == 0 && e == CipherError::Config)
                ||| (restarts > 0 && !valid_text(ciphertext@) && e == CipherError::UnknownSymbol)
            },
        },
{
    if restarts == 0 {
        return Err(CipherError::Config);
    }
    let cs = chars_of(ciphertext);
    let probe_key = Key::identity();
    match decode_chars(&cs, &probe_key) {
        Ok(_) => {},
        Err(e) => {
            return Err(e);
        },
    }
    let mut out: Vec<RestartResult> = Vec::new();
    let mut e: u32 = 0;
    while e < restarts
        invariant
            model.wf(),
            valid_text(cs@),
            cs@ == ciphertext@,
            cs@.len() <= 1_000_000_000,
            e <= restarts,
            out@.len() == e,
            forall|x: int|
                0 <= x < out@.len() ==> {
                    &&& (#[trigger] out@[x]).key.wf()
                    &&& out@[x].plaintext@ == spec_decode(ciphertext@, out@[x].key@)
                    &&& out@[x].score as int == spec_score(model, out@[x].plaintext@)
                    &&& out@[x].score as int >= spec_score(model, spec_decode(ciphertext@,
                        alphabet()))
                },
        decreases restarts - e,
    {
        let st = run_restart(&cs, model, stall_limit);
        let text = string_of(&st.plaintext);
        out.push(RestartResult { key: st.key, plaintext: text, score: st.score });
        e += 1;
    }
    Ok(out)
}

} // verus!
