use itcoolmcplang1c::pattern::Pattern;

#[test]
fn a_pattern_compiles_exactly_when_regex_accepts_it() {
    assert!(Pattern::new("(?i)<hr\\s*/?>").is_some());
    assert!(Pattern::new("(unclosed").is_none());
    assert!(Pattern::new("a{2,1}").is_none());
}

#[test]
fn escape_puts_a_backslash_before_meta_characters() {
    assert_eq!(itcoolmcplang1c::pattern::escape("a.b(c)-d%"), r"a\.b\(c\)\-d%");
    assert_eq!(itcoolmcplang1c::pattern::escape("Тип"), "Тип");
}
