use substitution_cipher::{train, train_with_penalty, CipherError};

#[test]
fn train_counts_bigrams_exactly() {
    let m = train("ABAB", 2).unwrap();
    assert_eq!(m.order(), 2);
    assert_eq!(m.total(), 3);
    assert_eq!(m.count_of("AB"), 2);
    assert_eq!(m.count_of("BA"), 1);
    assert_eq!(m.count_of("BB"), 0);
    assert_eq!(m.count_of("ABA"), 0);
}

#[test]
fn train_skips_windows_with_spaces() {
    let m = train("AB CD", 2).unwrap();
    assert_eq!(m.total(), 2);
    assert_eq!(m.count_of("AB"), 1);
    assert_eq!(m.count_of("CD"), 1);
    assert_eq!(m.count_of("B "), 0);
    assert_eq!(m.count_of(" C"), 0);
}

#[test]
fn train_cleans_punctuation_and_case() {
    let m = train("a,b!c", 2).unwrap();
    // cleaning leaves "ABC"
    assert_eq!(m.total(), 2);
    assert_eq!(m.count_of("AB"), 1);
    assert_eq!(m.count_of("BC"), 1);
}

#[test]
fn train_keeps_digits() {
    let m = train("A1A1", 2).unwrap();
    assert_eq!(m.count_of("A1"), 2);
    assert_eq!(m.count_of("1A"), 1);
}

#[test]
fn train_rejects_bad_orders() {
    assert!(matches!(train("ABC", 0), Err(CipherError::Config)));
    assert!(matches!(train("ABC", 13), Err(CipherError::Config)));
}

#[test]
fn short_corpus_gives_empty_model() {
    let m = train("AB", 3).unwrap();
    assert_eq!(m.total(), 0);
    assert_eq!(m.count_of("ABC"), 0);
    // every lookup falls back to the penalty
    assert_eq!(m.log_p("ABC"), m.penalty());
}

#[test]
fn log_p_exact_values() {
    let m = train("ABAB", 2).unwrap();
    // AB: 2 of 3 windows, floor(5 * log10(2/3)) == -1
    assert_eq!(m.log_p("AB"), -1);
    // BA: 1 of 3 windows, floor(5 * log10(1/3)) == -3
    assert_eq!(m.log_p("BA"), -3);
    // unseen grams earn the default penalty
    assert_eq!(m.log_p("QZ"), -50);
    assert_eq!(m.penalty(), -50);
}

#[test]
fn frequent_gram_beats_unseen_gram() {
    let corpus = "THE THICK THATCH THAWED THEN THINNED";
    let m = train(corpus, 2).unwrap();
    assert!(m.count_of("TH") >= 5);
    assert_eq!(m.count_of("QZ"), 0);
    assert!(m.log_p("TH") > m.log_p("QZ"));
}

#[test]
fn custom_penalty_is_used() {
    let m = train_with_penalty("ABAB", 2, -7).unwrap();
    assert_eq!(m.penalty(), -7);
    assert_eq!(m.log_p("QZ"), -7);
}

#[test]
fn trained_frequencies_sum_to_total() {
    // ABABAB: windows AB BA AB BA AB
    let m = train("ABABAB", 2).unwrap();
    assert_eq!(m.total(), 5);
    assert_eq!(m.count_of("AB") + m.count_of("BA"), m.total());
    // the modeled probabilities, recovered from the scaled logs, sum
    // close to one: each stored log underestimates by less than a
    // fifth of a decade
    let p_ab = 10f64.powf(m.log_p("AB") as f64 / 5.0);
    let p_ba = 10f64.powf(m.log_p("BA") as f64 / 5.0);
    let s = p_ab + p_ba;
    assert!(s <= 1.0 + 1e-9);
    assert!(s > 10f64.powf(-0.2));
}
