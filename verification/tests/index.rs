use itcoolmcplang1c::index::tokenize;

#[test]
fn test_tokenize() {
    let tokens = tokenize("Синтез речи в 1С");
    assert!(tokens.contains(&"Синтез".to_string()));
    assert!(tokens.contains(&"речи".to_string()));
}

#[test]
fn short_words_are_dropped_by_bytes() {
    assert_eq!(tokenize("ab abc в1 _x_ a.b,cde"), vec!["abc", "в1", "_x_", "cde"]);
    assert_eq!(tokenize(""), Vec::<String>::new());
    assert_eq!(tokenize("Я"), Vec::<String>::new());
}
