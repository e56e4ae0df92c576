use mdbook_nvim_treesitter::query::lua_pattern::{compile, translate};

fn lua_matches(pattern: &str, text: &str) -> bool {
    compile(pattern).unwrap().is_match(text.as_bytes())
}

#[test]
fn translates_classes_standalone_and_in_sets() {
    assert_eq!(translate("^[A-Z][A-Z%d_]*$").unwrap(), "^[A-Z][A-Z0-9_]*$");
    assert_eq!(translate("%d+").unwrap(), "[0-9]+");
    assert_eq!(translate("%A+").unwrap(), "[^a-zA-Z]+");
}

#[test]
fn percent_escapes_a_literal() {
    assert_eq!(translate("a%.b").unwrap(), r"a\.b");
    assert_eq!(translate("100%%").unwrap(), "100%");
    assert_eq!(translate("^%[%[").unwrap(), r"^\[\[");
    assert!(lua_matches("a%.b", "a.b"));
    assert!(!lua_matches("a%.b", "axb"));
}

#[test]
fn a_backslash_is_an_ordinary_character() {
    // Lua patterns escape with `%`, so `\` carries no meaning. Passing it
    // through unescaped would turn `\\if` into a regex escape.
    assert_eq!(
        translate(r"^\\if[a-zA-Z@]+$").unwrap(),
        r"^\\\\if[a-zA-Z@]+$"
    );
    assert!(lua_matches(r"^\\if", r"\\ifx"));
    assert!(!lua_matches(r"^\\if", "if"));
}

#[test]
fn dash_is_a_lazy_quantifier_only_after_an_atom() {
    // Leading dash: nothing to repeat, so it is a literal.
    assert_eq!(translate("^-%>[^>]").unwrap(), "^->[^>]");
    assert!(lua_matches("^-%>", "->x"));

    // After an atom it repeats that atom lazily, which is why `^data-`
    // matches anything starting with `dat`.
    assert_eq!(translate("^data-").unwrap(), "^data*?");
    assert!(!lua_matches("^data-", "dtoo"));
    assert!(lua_matches("^data-", "dat"));
}

#[test]
fn quantifiers_without_an_atom_are_literal() {
    // `$` is only an anchor at the end, so here it is a literal repeated
    // by `+`, and the trailing `$` is the anchor.
    assert_eq!(translate("^$+[0-9]+$*$").unwrap(), r"^\$+[0-9]+\$*$");
    assert!(lua_matches("^$+[0-9]+$*$", "$42$"));
    assert!(lua_matches("^$+[0-9]+$*$", "$42"));
}

#[test]
fn anchors_only_bind_at_the_ends() {
    assert_eq!(translate("a^b$c").unwrap(), r"a\^b\$c");
    assert!(lua_matches("a^b$c", "xa^b$cx"));
}

#[test]
fn set_dashes_are_ranges_or_members_like_lua() {
    // `A-Z` is a range; the second dash has no third character before the
    // bracket to span to, so it is a member.
    assert_eq!(translate("^[A-Z-_]").unwrap(), r"^[A-Z\-_]");
    assert!(lua_matches("^[A-Z-_]", "-x"));
    assert!(lua_matches("^[A-Z-_]", "Qx"));

    assert_eq!(translate("^[-][-]").unwrap(), r"^[\-][\-]");
    assert!(lua_matches("^[-][-]", "--x"));
}

#[test]
fn escapes_regex_specials_that_lua_treats_as_literal() {
    assert_eq!(translate("^{[-]|[^|]").unwrap(), r"^\{[\-]\|[^|]");
    assert!(lua_matches("^{[-]|[^|]", "{-|x"));
    assert_eq!(translate(".+[~]$").unwrap(), ".+[~]$");
}

#[test]
fn dot_matches_a_newline_as_it_does_in_lua() {
    assert!(lua_matches("^a.b$", "a\nb"));
}

#[test]
fn groups_and_alternation_free_quantifiers() {
    assert_eq!(
        translate("^[%d]+(%.[%d]+)?$").unwrap(),
        r"^[0-9]+(\.[0-9]+)?$"
    );
    assert!(lua_matches("^[%d]+(%.[%d]+)?$", "3.14"));
    assert!(lua_matches("^[%d]+(%.[%d]+)?$", "3"));
}

#[test]
fn rejects_patterns_it_cannot_translate_faithfully() {
    assert!(translate("abc%").is_err());
    assert!(translate("[abc").is_err());
    assert!(translate("[%D]").is_err());
}

#[test]
fn lua_pattern_handles_the_real_corpus_shapes() {
    for pattern in [
        "^[%u][%u%d_]*$",
        "^_*[A-Z][A-Z%d_]*$",
        "^%a*%.*writePy%a*%d*%a*$",
        "^%s*;+%s?query",
        "^;+ *inherits *:",
        "/[*/][!*/]<?[^a-zA-Z]",
        "^[%%/][%l%u][%l%u%d.]*$",
        "^__%?[A-Z_a-z0-9]+%?__$",
        "^[\"']",
        "^%${.*}",
    ] {
        compile(pattern).unwrap_or_else(|e| panic!("{pattern:?}: {}", e.message()));
    }
}

#[test]
fn a_lua_pattern_error_names_what_went_wrong() {
    let error = translate("abc%").unwrap_err();
    assert!(!error.message().is_empty());
}

#[test]
fn an_escaped_final_dollar_is_a_literal_not_an_anchor() {
    assert_eq!(translate("a%$").unwrap(), r"a\$");
    assert_eq!(translate("a%%$").unwrap(), "a%$");
    assert_eq!(translate("^$").unwrap(), "^$");
    assert!(lua_matches("a%$", "xa$x"));
    assert!(!lua_matches("a%$", "ab"));
}

#[test]
fn an_escaped_bracket_does_not_close_a_set() {
    assert_eq!(translate("[%]]").unwrap(), r"[\]]");
    assert_eq!(translate("[a%]b]x").unwrap(), r"[a\]b]x");
    assert!(lua_matches("[%]]", "]"));
    assert!(!lua_matches("[%]]", "a"));
}
