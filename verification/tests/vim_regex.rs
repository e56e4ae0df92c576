use mdbook_nvim_treesitter::query::vim_regex::{compile, translate};

fn vim_matches(pattern: &str, text: &str) -> bool {
    compile(pattern).unwrap().is_match(text.as_bytes())
}

#[test]
fn very_magic_groups_and_alternation_need_no_backslashes() {
    assert_eq!(translate("^(a|b)+$").unwrap().0, "^(a|b)+$");
    assert!(vim_matches("^(a|b)+$", "abab"));
}

#[test]
fn backslash_c_makes_the_whole_pattern_case_insensitive() {
    let (source, case_insensitive) = translate(r"\c^return$").unwrap();
    assert_eq!(source, "^return$");
    assert!(case_insensitive);
    assert!(vim_matches(r"\c^return$", "RETURN"));
    assert!(!vim_matches("^return$", "RETURN"));
}

#[test]
fn angle_brackets_are_word_boundaries() {
    assert_eq!(translate("<word>").unwrap().0, r"\bword\b");
    assert!(vim_matches("<word>", "a word here"));
    assert!(!vim_matches("<word>", "awordhere"));
}

#[test]
fn equals_is_the_optional_quantifier() {
    assert_eq!(translate("^ab=c$").unwrap().0, "^ab?c$");
    assert!(vim_matches("^ab=c$", "ac"));
}

#[test]
fn backslash_makes_a_special_character_ordinary() {
    assert_eq!(
        translate(r"^(:|v-bind|v-|\@)").unwrap().0,
        "^(:|v-bind|v-|@)"
    );
    assert!(vim_matches(r"^(:|v-bind|v-|\@)", "@click"));
    assert_eq!(
        translate(r"^(!?\=|-[a-zA-Z]+)$").unwrap().0,
        r"^(!?=|-[a-zA-Z]+)$"
    );
}

#[test]
fn percent_paren_is_a_non_capturing_group() {
    assert_eq!(translate("%(ab)+").unwrap().0, "(?:ab)+");
    assert!(vim_matches("^%(ab)+$", "abab"));
}

#[test]
fn character_classes_pass_through() {
    assert_eq!(translate(r"^[-+]?\d+$").unwrap().0, "^[-+]?[0-9]+$");
    assert!(vim_matches(r"^[-+]?\d+$", "-42"));
}

#[test]
fn rejects_constructs_with_no_equivalent() {
    assert!(translate(r"(foo)@=bar").is_err());
    assert!(translate(r"\Mliteral").is_err());
    assert!(translate("[abc").is_err());
    assert!(translate("trailing\\").is_err());
}

#[test]
fn vim_regex_handles_the_real_corpus_shapes() {
    for pattern in [
        r"\c^(1|on|yes|true|y|0|off|no|false|n|ignore|notfound|.*-notfound)$",
        "^[A-Z][A-Z_]+",
        "^[A-Z][A-Z0-9_]+$|^[a-z]{2,3}[A-Z].+$",
        r"^assert[A-Za-z_0-9]*|error|info|debug|print|warning|warning_once$",
        r"^((GPVAL|MOUSE|FIT)_|ARG)\w+$",
        r"\c^(DefaultValue|LowLimit|HighLimit|SubNumber)$",
        "^([+*-+=<>]|<=|>=|/=)$",
        r"/\*!([a-zA-Z]+:)?re2c",
        "^[eE][nN][dD]([dD][oO])?$",
    ] {
        compile(pattern).unwrap_or_else(|e| panic!("{pattern:?}: {}", e.message()));
    }
}

#[test]
fn a_vim_regex_error_names_what_went_wrong() {
    let error = translate("trailing\\").unwrap_err();
    assert!(!error.message().is_empty());
}

#[test]
fn a_later_backslash_big_c_does_not_undo_backslash_c() {
    assert_eq!(translate(r"\cfoo\C").unwrap(), ("foo".to_string(), true));
    assert!(translate(r"foo\c").unwrap().1);
    assert!(!translate(r"\Cfoo").unwrap().1);
}
