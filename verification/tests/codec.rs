use substitution_cipher::{build_cryptogram, build_plaintext, CipherError, Key};

const ALPHABET_STR: &str = "ABCDEFGHIJKLMNOPQRSTUVWXYZ";
const REVERSED_STR: &str = "ZYXWVUTSRQPONMLKJIHGFEDCBA";

fn reversed_key() -> Key {
    Key::from_chars(REVERSED_STR.chars().collect()).unwrap()
}

#[test]
fn test_build_plaintext() {
    let ciphertext = "ZYXWVUTSRQPONMLKJIHGFEDCBA";
    let key = reversed_key();
    assert_eq!(
        build_plaintext(ciphertext, &key).unwrap(),
        "ABCDEFGHIJKLMNOPQRSTUVWXYZ"
    );
}

#[test]
fn test_build_cryptogram() {
    let plaintext: &str = "ABCDEFGHIJKLMNOPQRSTUVWXYZ";
    let key = reversed_key();
    assert_eq!(
        build_cryptogram(plaintext, &key).unwrap(),
        "ZYXWVUTSRQPONMLKJIHGFEDCBA"
    )
}

#[test]
fn round_trip_with_spaces() {
    let key = Key::from_chars("QAZWSXEDCRFVTGBYHNUJMIKOLP".chars().collect()).unwrap();
    let plaintext = "THE QUICK BROWN FOX JUMPS OVER THE LAZY DOG";
    let ciphertext = build_cryptogram(plaintext, &key).unwrap();
    assert_eq!(build_plaintext(&ciphertext, &key).unwrap(), plaintext);
}

#[test]
fn identity_key_maps_text_to_itself() {
    let key = Key::identity();
    let text = "HELLO WORLD";
    assert_eq!(build_cryptogram(text, &key).unwrap(), text);
    assert_eq!(build_plaintext(text, &key).unwrap(), text);
}

#[test]
fn encode_rejects_unknown_symbol() {
    let key = Key::identity();
    assert_eq!(
        build_cryptogram("HELLO!", &key),
        Err(CipherError::UnknownSymbol)
    );
    assert_eq!(
        build_cryptogram("hello", &key),
        Err(CipherError::UnknownSymbol)
    );
    assert_eq!(
        build_cryptogram("A1B", &key),
        Err(CipherError::UnknownSymbol)
    );
}

#[test]
fn decode_rejects_unknown_symbol() {
    let key = reversed_key();
    assert_eq!(
        build_plaintext("ZY?", &key),
        Err(CipherError::UnknownSymbol)
    );
}

#[test]
fn key_accepts_only_permutations() {
    assert!(Key::from_chars(ALPHABET_STR.chars().collect()).is_ok());
    assert!(Key::from_chars(REVERSED_STR.chars().collect()).is_ok());
    // a repeated character is refused
    assert!(matches!(
        Key::from_chars("AACDEFGHIJKLMNOPQRSTUVWXYZ".chars().collect()),
        Err(CipherError::Config)
    ));
    // a short key is refused
    assert!(matches!(
        Key::from_chars("ABC".chars().collect()),
        Err(CipherError::Config)
    ));
    // a character outside the alphabet is refused
    assert!(matches!(
        Key::from_chars("4BCDEFGHIJKLMNOPQRSTUVWXYZ".chars().collect()),
        Err(CipherError::Config)
    ));
}

#[test]
fn swapped_key_is_still_a_permutation() {
    let key = reversed_key();
    let swapped = key.swapped(0, 25);
    let chars = swapped.to_chars();
    assert_eq!(chars.len(), 26);
    for a in 'A'..='Z' {
        assert!(chars.contains(&a));
    }
    assert_eq!(chars[0], 'A');
    assert_eq!(chars[25], 'Z');
}
