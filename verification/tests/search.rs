use substitution_cipher::search::{explore_step, run_restart_with_proposals};
use substitution_cipher::{build_cryptogram, build_plaintext, score, search, train, CipherError,
    Key, SearchState, DEFAULT_RESTARTS, DEFAULT_STALL_LIMIT};

const CORPUS: &str = "this is the most important testing method in this program maybe it \
    will make more sense if i add more words to this thing the quick brown fox jumps over \
    the lazy dog and the sense of the words in this corpus is that the search can learn \
    the shape of english text from the grams it sees here and score candidate texts";

#[test]
fn search_refuses_zero_restarts() {
    let m = train(CORPUS, 2).unwrap();
    assert!(matches!(
        search("ABC", &m, 0, 10),
        Err(CipherError::Config)
    ));
}

#[test]
fn search_refuses_unknown_symbols() {
    let m = train(CORPUS, 2).unwrap();
    assert!(matches!(
        search("AB!C", &m, 2, 10),
        Err(CipherError::UnknownSymbol)
    ));
    assert!(matches!(
        search("lower", &m, 2, 10),
        Err(CipherError::UnknownSymbol)
    ));
}

#[test]
fn search_results_are_coherent() {
    let m = train(CORPUS, 2).unwrap();
    let key = Key::from_chars("QAZWSXEDCRFVTGBYHNUJMIKOLP".chars().collect()).unwrap();
    let plaintext = "THE QUICK BROWN FOX JUMPS OVER THE LAZY DOG";
    let ciphertext = build_cryptogram(plaintext, &key).unwrap();
    let results = search(&ciphertext, &m, 3, 300).unwrap();
    assert_eq!(results.len(), 3);
    let identity = Key::identity();
    let baseline = score(&build_plaintext(&ciphertext, &identity).unwrap(), &m);
    for r in results {
        // the reported key is a permutation of the alphabet
        let chars = r.key.to_chars();
        assert_eq!(chars.len(), 26);
        for a in 'A'..='Z' {
            assert!(chars.contains(&a));
        }
        // the reported plaintext is the decoding under the reported key
        assert_eq!(build_plaintext(&ciphertext, &r.key).unwrap(), r.plaintext);
        // the reported score is the plaintext's score
        assert_eq!(score(&r.plaintext, &m), r.score);
        // hill-climbing never ends below the identity decoding
        assert!(r.score >= baseline);
    }
}

#[test]
fn test_decrypt() {
    let plaintext = "THIS IS THE MOST IMPORTANT TESTING METHOD IN THIS PROGRAM MAYBE IT WILL MAKE MORE SENSE IF I ADD MORE WORDS TO THIS THING";
    let key = Key::from_chars(
        vec![
            'Q', 'A', 'Z', 'W', 'S', 'X', 'E', 'D', 'C', 'R', 'F', 'V', 'T', 'G', 'B', 'Y',
            'H', 'N', 'U', 'J', 'M', 'I', 'K', 'O', 'L', 'P',
        ],
    )
    .unwrap();
    let ciphertext = build_cryptogram(plaintext, &key).unwrap();

    for order in [2usize, 3, 4] {
        let m = train(CORPUS, order).unwrap();
        let results = search(&ciphertext, &m, 2, 300).unwrap();
        assert_eq!(results.len(), 2);
    }
}

#[test]
fn book_test_decrypt() {
    let ciphertext = "LRVMNIR BPR SUMVBWVR JX BPR LMIWV YJERYRKBI JX QMBM WI BPR XJVNI MKD YMIBRUT JX IRHX WI BPR RIIRKVR JX YMBINLMTMIPW UTN QMUMBR DJ W IPMHH BUT BJ RHNVWDMBR BPRYJERYRKBI JX BPR QMBM MVVJUDWKO BJ YT WKBRUSURBMBWJKLMIRD JK XJUBT TRMUI JX IBNDTWB WI KJB MK RMIT BMIQ BJ RASHMWK RMVP YJERYRKB MKD WBIIWOKWXWVMKVR MKD IJYR YNIB URYMWK NKRASHMWKRD BJ OWER MVJYSHRBR RASHMKMBWJK JKR CJNHD PMER BJ LR FNMHWXWRD MKDWKISWURD BJ INVP MK RABRKB BPMB PR VJNHD URMVP BPR IBMBRJX RKHWOPBRKRD YWKD VMSMLHR JX URVJOKWGWKO IJNKDHRIIIJNKD MKD IPMSRHRII IPMSR W DJ KJB DRRY YTIRHX BPR XWKMHMNBPJUWBT LNB YT RASRUWRKVR CWBP QMBM PMI HRXB KJ DJNLBBPMB BPR XJHHJCWKO WI BPR SUJSRU MSSHWVMBWJK MKDWKBRUSURBMBWJK W JXXRU YT BPRJUWRI WK BPR PJSR BPMB BPRRIIRKVR JX JQWKMCMK QMUMBR CWHH URYMWK WKBMVB";
    let m = train(CORPUS, 2).unwrap();
    let results = search(ciphertext, &m, 1, 200).unwrap();
    assert_eq!(results.len(), 1);
}

#[test]
fn explore_steps_are_monotone_and_count_stalls() {
    // drive the proposal step with a fixed, deterministic sequence of
    // swaps: the accepted score never falls, rises exactly on
    // acceptance, and the stall counter counts consecutive rejections
    let m = train(CORPUS, 2).unwrap();
    let enc_key = Key::from_chars("QAZWSXEDCRFVTGBYHNUJMIKOLP".chars().collect()).unwrap();
    let ciphertext = build_cryptogram("THE QUICK BROWN FOX JUMPS OVER THE LAZY DOG", &enc_key)
        .unwrap();
    let cipher: Vec<char> = ciphertext.chars().collect();
    let plain = build_plaintext(&ciphertext, &Key::identity()).unwrap();
    let mut st = SearchState {
        key: Key::identity(),
        plaintext: plain.chars().collect(),
        score: score(&plain, &m),
        stall: 0,
    };
    let mut prev = st.score;
    let mut expected_stall = 0u32;
    for i in 0..26usize {
        for j in 0..26usize {
            let accepted = explore_step(&mut st, i, j, &cipher, &m);
            if accepted {
                assert!(st.score > prev);
                assert_eq!(st.stall, 0);
                expected_stall = 0;
            } else {
                assert_eq!(st.score, prev);
                expected_stall += 1;
                assert_eq!(st.stall, expected_stall);
            }
            prev = st.score;
        }
    }
}

#[test]
fn reference_configuration_constants() {
    assert_eq!(DEFAULT_RESTARTS, 11);
    assert_eq!(DEFAULT_STALL_LIMIT, 100_000);
}

#[test]
fn restart_with_proposals_is_deterministic() {
    // the same proposal sequence reproduces the same result exactly,
    // and matches driving the proposal step by hand
    let m = train(CORPUS, 2).unwrap();
    let enc_key = Key::from_chars("QAZWSXEDCRFVTGBYHNUJMIKOLP".chars().collect()).unwrap();
    let ciphertext = build_cryptogram("THE QUICK BROWN FOX JUMPS OVER THE LAZY DOG", &enc_key)
        .unwrap();
    let cipher: Vec<char> = ciphertext.chars().collect();
    let proposals: Vec<(usize, usize)> =
        (0..600usize).map(|k| ((k * 7) % 26, (k * 11 + 3) % 26)).collect();

    let a = run_restart_with_proposals(&cipher, &m, &proposals);
    let b = run_restart_with_proposals(&cipher, &m, &proposals);
    assert_eq!(a.key.to_chars(), b.key.to_chars());
    assert_eq!(a.plaintext, b.plaintext);
    assert_eq!(a.score, b.score);
    assert_eq!(a.stall, b.stall);

    let plain = build_plaintext(&ciphertext, &Key::identity()).unwrap();
    let mut st = SearchState {
        key: Key::identity(),
        plaintext: plain.chars().collect(),
        score: score(&plain, &m),
        stall: 0,
    };
    for &(i, j) in &proposals {
        explore_step(&mut st, i, j, &cipher, &m);
    }
    assert_eq!(st.key.to_chars(), a.key.to_chars());
    assert_eq!(st.plaintext, a.plaintext);
    assert_eq!(st.score, a.score);
    assert_eq!(st.stall, a.stall);
}

#[test]
fn search_improves_on_long_sentence() {
    // encode a sentence of over a hundred characters under a scrambled
    // key; the search must report coherent, never-worse-than-identity
    // results for every restart
    let m = train(CORPUS, 3).unwrap();
    let key = Key::from_chars("MNBVCXZLKJHGFDSAPOIUYTREWQ".chars().collect()).unwrap();
    let plaintext = "THE SEARCH CAN LEARN THE SHAPE OF ENGLISH TEXT FROM THE GRAMS IT SEES HERE AND SCORE CANDIDATE TEXTS AGAINST THE MODEL";
    assert!(plaintext.len() > 100);
    let ciphertext = build_cryptogram(plaintext, &key).unwrap();
    let results = search(&ciphertext, &m, 4, 400).unwrap();
    let identity = Key::identity();
    let baseline = score(&build_plaintext(&ciphertext, &identity).unwrap(), &m);
    let mut best = i64::MIN;
    for r in &results {
        assert!(r.score >= baseline);
        assert!(r.score <= 0);
        if r.score > best {
            best = r.score;
        }
    }
    assert_eq!(results.len(), 4);
    assert!(best >= baseline);
}
