//! Keyword-matcher scenarios: tokenization, the subset test, idempotence.

use tvrank::error::Error;
use tvrank::keywords::{tokenize, tokenize_to_string, KeywordSet};

#[test]
fn tokenize_lowercases_and_splits() {
    let toks = tokenize(b"The Matrix");
    assert_eq!(toks, vec![b"the".to_vec(), b"matrix".to_vec()]);
    let toks = tokenize(b"  Blade--Runner 2049!");
    assert_eq!(
        toks,
        vec![b"blade".to_vec(), b"runner".to_vec(), b"2049".to_vec()]
    );
    assert_eq!(tokenize(b"!!!"), Vec::<Vec<u8>>::new());
}

#[test]
fn matches_is_a_subset_test() {
    let kw = KeywordSet::new(b"matrix").unwrap();
    assert!(kw.matches(b"The Matrix"));
    assert!(kw.matches(b"The Matrix Reloaded"));
    assert!(!kw.matches(b"Matr"));

    let kw2 = KeywordSet::new(b"the matrix").unwrap();
    assert!(kw2.matches(b"The Matrix Reloaded"));
    assert!(!kw2.matches(b"matrix"));
}

#[test]
fn empty_keyword_set_is_rejected() {
    assert_eq!(
        KeywordSet::new(b" !! ").unwrap_err(),
        Error::EmptyOrTooShortKeywordSet
    );
    assert_eq!(KeywordSet::new(b"").unwrap_err(), Error::EmptyOrTooShortKeywordSet);
}

#[test]
fn tokenize_is_idempotent_on_normalized_text() {
    let inputs: Vec<&[u8]> = vec![
        b"The Matrix".as_slice(),
        b"  Blade--Runner 2049!".as_slice(),
        b"already normalized words".as_slice(),
        b"".as_slice(),
        b"One".as_slice(),
    ];
    for x in inputs {
        let once = tokenize(x);
        let again = tokenize(&tokenize_to_string(x));
        assert_eq!(once, again);
    }
}

#[test]
fn tokenize_to_string_joins_with_spaces() {
    assert_eq!(tokenize_to_string(b"The  Matrix!"), b"the matrix".to_vec());
    assert_eq!(tokenize_to_string(b"..."), Vec::<u8>::new());
}

#[test]
fn duplicated_keyword_set_matches_the_same() {
    let kw = KeywordSet::new(b"blade runner").unwrap();
    let copy = kw.duplicate();
    assert!(copy.matches(b"Blade Runner 2049"));
    assert!(!copy.matches(b"Blade"));
}
