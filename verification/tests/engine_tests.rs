use word_translate::dict::{DictError, Dictionary, Meaning};
use word_translate::dtos::{Language, NewTransReq, TransReq, TransResponse};
use word_translate::register::{register, RegisterErr};
use word_translate::resolve::resolve;
use word_translate::segment::segment;
use word_translate::symbols::is_allowed;

fn lowercase_letters() -> Vec<char> {
    ('a'..='z').collect()
}

/// A store with "en" and "elb" registered: both split on space and period,
/// both allow the lowercase letters.
fn sample_store() -> Dictionary {
    let mut store = Dictionary::new();
    store
        .add_language(Language::new(
            "en",
            "english",
            vec![' ', '.'],
            lowercase_letters(),
            vec![],
        ))
        .unwrap();
    store
        .add_language(Language::new(
            "elb",
            "elbish",
            vec![' ', '.'],
            lowercase_letters(),
            vec![],
        ))
        .unwrap();
    store
}

fn resolve_ok(store: &Dictionary, content: &str, from: &str, to: &str) -> TransResponse {
    match resolve(store, &TransReq::new(content, from, to)) {
        Ok(resp) => resp,
        Err(e) => panic!("unexpected hard error: {}", e.content),
    }
}

#[test]
fn known_word_resolves_to_its_meaning() {
    let mut store = sample_store();
    register(&mut store, &NewTransReq::new("en", "elb", "hello", vec!["xy"])).unwrap();
    let resp = resolve_ok(&store, "hello", "en", "elb");
    assert!(resp.able_to_translate);
    assert_eq!(resp.content, "xy");
}

#[test]
fn unknown_word_echoes_content_untranslated() {
    let mut store = sample_store();
    register(&mut store, &NewTransReq::new("en", "elb", "hello", vec!["xy"])).unwrap();
    let resp = resolve_ok(&store, "goodbye", "en", "elb");
    assert!(!resp.able_to_translate);
    assert_eq!(resp.content, "goodbye");
}

#[test]
fn unknown_language_is_a_hard_error() {
    let store = sample_store();
    let r = resolve(&store, &TransReq::new("hi", "en", "zz"));
    assert!(r.is_err());
    let r = resolve(&store, &TransReq::new("hi", "zz", "elb"));
    assert!(r.is_err());
}

#[test]
fn register_rejects_symbol_outside_source_alphabet() {
    let mut store = sample_store();
    let r = register(&mut store, &NewTransReq::new("en", "elb", "h3llo", vec!["xy"]));
    assert_eq!(r, Err(RegisterErr::InvalidSymbol("h3llo".to_string())));
    // the dictionary is unchanged: the word cannot be found afterwards
    assert!(store.lookup(&"en".to_string(), &vec!['h', '3', 'l', 'l', 'o']).is_none());
    assert!(store.lookup(&"en".to_string(), &vec!['h', 'e', 'l', 'l', 'o']).is_none());
}

#[test]
fn register_rejects_symbol_outside_destination_alphabet() {
    let mut store = sample_store();
    let r = register(&mut store, &NewTransReq::new("en", "elb", "hello", vec!["x7"]));
    assert_eq!(r, Err(RegisterErr::InvalidSymbol("x7".to_string())));
    assert!(store.lookup(&"en".to_string(), &vec!['h', 'e', 'l', 'l', 'o']).is_none());
}

#[test]
fn register_rejects_unknown_languages() {
    let mut store = sample_store();
    let r = register(&mut store, &NewTransReq::new("zz", "elb", "hello", vec!["xy"]));
    assert_eq!(r, Err(RegisterErr::UnknownLanguage));
    let r = register(&mut store, &NewTransReq::new("en", "zz", "hello", vec!["xy"]));
    assert_eq!(r, Err(RegisterErr::UnknownLanguage));
}

#[test]
fn reregistering_same_destination_is_a_duplicate_meaning() {
    let mut store = sample_store();
    store
        .add_language(Language::new(
            "fr",
            "french",
            vec![' ', '.'],
            lowercase_letters(),
            vec![],
        ))
        .unwrap();
    register(&mut store, &NewTransReq::new("en", "elb", "hello", vec!["xy"])).unwrap();
    let again = register(&mut store, &NewTransReq::new("en", "elb", "hello", vec!["xy"]));
    assert_eq!(again, Err(RegisterErr::DuplicateMeaning));
    // a different destination is no duplicate, and both stay retrievable
    register(&mut store, &NewTransReq::new("en", "fr", "hello", vec!["salut"])).unwrap();
    let in_elb = resolve_ok(&store, "hello", "en", "elb");
    assert!(in_elb.able_to_translate);
    assert_eq!(in_elb.content, "xy");
    let in_fr = resolve_ok(&store, "hello", "en", "fr");
    assert!(in_fr.able_to_translate);
    assert_eq!(in_fr.content, "salut");
}

#[test]
fn delimiter_only_content_resolves_to_itself() {
    let store = sample_store();
    let resp = resolve_ok(&store, " .. . ", "en", "elb");
    assert!(resp.able_to_translate);
    assert_eq!(resp.content, " .. . ");
}

#[test]
fn empty_content_is_vacuously_translated() {
    let store = sample_store();
    let resp = resolve_ok(&store, "", "en", "elb");
    assert!(resp.able_to_translate);
    assert_eq!(resp.content, "");
}

#[test]
fn sentence_keeps_delimiters_in_place() {
    let mut store = sample_store();
    register(&mut store, &NewTransReq::new("en", "elb", "hello", vec!["xy"])).unwrap();
    register(&mut store, &NewTransReq::new("en", "elb", "friend", vec!["zu"])).unwrap();
    let resp = resolve_ok(&store, "hello friend.", "en", "elb");
    assert!(resp.able_to_translate);
    assert_eq!(resp.content, "xy zu.");
}

#[test]
fn one_untranslatable_unit_fails_the_whole_request() {
    let mut store = sample_store();
    register(&mut store, &NewTransReq::new("en", "elb", "hello", vec!["xy"])).unwrap();
    let resp = resolve_ok(&store, "hello stranger", "en", "elb");
    assert!(!resp.able_to_translate);
    assert_eq!(resp.content, "hello stranger");
}

#[test]
fn same_language_request_still_needs_the_word_registered() {
    let mut store = sample_store();
    let missing = resolve_ok(&store, "hello", "en", "en");
    assert!(!missing.able_to_translate);
    register(&mut store, &NewTransReq::new("en", "en", "hello", vec!["hello"])).unwrap();
    let found = resolve_ok(&store, "hello", "en", "en");
    assert!(found.able_to_translate);
    assert_eq!(found.content, "hello");
}

#[test]
fn segmenter_splits_units_and_keeps_delimiters() {
    let store = sample_store();
    let lang = &store.langs[0];
    let content: Vec<char> = "ab.cd ".chars().collect();
    let toks = segment(lang, &content);
    assert_eq!(toks.len(), 4);
    assert_eq!(toks[0].chain, vec!['a', 'b']);
    assert!(!toks[0].is_delimiter);
    assert_eq!(toks[1].chain, vec!['.']);
    assert!(toks[1].is_delimiter);
    assert_eq!(toks[2].chain, vec!['c', 'd']);
    assert!(!toks[2].is_delimiter);
    assert_eq!(toks[3].chain, vec![' ']);
    assert!(toks[3].is_delimiter);
}

#[test]
fn segmenter_yields_nothing_for_empty_content() {
    let store = sample_store();
    let toks = segment(&store.langs[0], &Vec::new());
    assert_eq!(toks.len(), 0);
}

#[test]
fn validator_accepts_alphabet_and_split_symbols_only() {
    let store = sample_store();
    let lang = &store.langs[0];
    assert!(is_allowed(lang, 'a'));
    assert!(is_allowed(lang, ' '));
    assert!(is_allowed(lang, '.'));
    assert!(!is_allowed(lang, '7'));
    assert!(!is_allowed(lang, 'A'));
}

#[test]
fn duplicate_language_is_rejected() {
    let mut store = sample_store();
    let r = store.add_language(Language::new("en", "again", vec![], vec![], vec![]));
    assert_eq!(r, Err(DictError::DuplicateLanguage));
}

#[test]
fn store_insert_rejects_duplicates_and_unknown_languages() {
    let mut store = sample_store();
    let meaning = |chain: Vec<char>| vec![Meaning { lang_id: "elb".to_string(), symbol_chain: chain }];
    store.insert(&"en".to_string(), vec!['h', 'i'], meaning(vec!['x'])).unwrap();
    let dup = store.insert(&"en".to_string(), vec!['h', 'i'], meaning(vec!['x']));
    assert_eq!(dup, Err(DictError::DuplicateWord));
    let missing = store.insert(&"zz".to_string(), vec!['h', 'i'], meaning(vec!['x']));
    assert_eq!(missing, Err(DictError::UnknownLanguage));
}

#[test]
fn lookup_and_meaning_in_select_the_recorded_meaning() {
    let mut store = sample_store();
    register(&mut store, &NewTransReq::new("en", "elb", "hello", vec!["xy"])).unwrap();
    let word = store
        .lookup(&"en".to_string(), &vec!['h', 'e', 'l', 'l', 'o'])
        .expect("registered word must be found");
    let meaning = word.meaning_in(&"elb".to_string()).expect("meaning must exist");
    assert_eq!(*meaning, vec!['x', 'y']);
    assert!(word.meaning_in(&"fr".to_string()).is_none());
}

#[test]
fn invalid_symbol_error_message_names_the_offending_string() {
    let mut store = sample_store();
    let e = register(&mut store, &NewTransReq::new("en", "elb", "h3llo", vec!["xy"])).unwrap_err();
    assert_eq!(e.message(), "invalid symbol in: h3llo");
    let e = register(&mut store, &NewTransReq::new("en", "elb", "hello", vec!["ok", "x7"])).unwrap_err();
    assert_eq!(e.message(), "invalid symbol in: x7");
    let e = register(&mut store, &NewTransReq::new("zz", "elb", "hello", vec!["xy"])).unwrap_err();
    assert_eq!(e.message(), "unknown language");
}

#[test]
fn first_candidate_meaning_is_the_one_stored() {
    let mut store = sample_store();
    register(&mut store, &NewTransReq::new("en", "elb", "hi", vec!["xy", "ab"])).unwrap();
    let resp = resolve_ok(&store, "hi", "en", "elb");
    assert!(resp.able_to_translate);
    assert_eq!(resp.content, "xy");
}
