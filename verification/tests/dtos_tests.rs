use word_translate::dtos::{Language, TransWord};

#[test]
fn init_languages() {
    let english = Language::new(
        "en",
        "english",
        vec!['.'],
        vec!['a'],
        vec![TransWord::new("", vec!["", ""])],
    );
    assert_eq!(english.id, "en".to_string());
}

#[test]
fn init_new_word() {
    let trans_word = TransWord::new("hello", vec!["hello"]);
    assert_eq!(
        trans_word.meanings[0].symbol_chain,
        vec!['h', 'e', 'l', 'l', 'o']
    );
}
