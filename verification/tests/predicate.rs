use mdbook_nvim_treesitter::query::predicate::{contains, split_name, Predicate, PredicateArg};

#[test]
fn splits_the_any_and_not_prefixes() {
    assert_eq!(split_name("lua-match?"), ("lua-match", true, false));
    assert_eq!(split_name("not-lua-match?"), ("lua-match", false, false));
    assert_eq!(split_name("any-lua-match?"), ("lua-match", true, true));
    assert_eq!(split_name("any-not-lua-match?"), ("lua-match", false, true));
    assert_eq!(split_name("has-ancestor?"), ("has-ancestor", true, false));
    assert_eq!(split_name("not-has-parent?"), ("has-parent", false, false));
}

#[test]
fn rejects_predicates_it_does_not_know() {
    let error = Predicate::compile("cl-standard-function?", &[PredicateArg::Capture(0)]).unwrap_err();
    assert!(error.contains("not a predicate we know"), "{error}");
}

#[test]
fn rejects_predicates_with_the_wrong_shape() {
    assert!(Predicate::compile("lua-match?", &[]).is_err());
    assert!(
        Predicate::compile(
            "lua-match?",
            &[PredicateArg::Capture(0), PredicateArg::Capture(1)]
        )
        .is_err()
    );
    assert!(
        Predicate::compile(
            "lua-match?",
            &[
                PredicateArg::Capture(0),
                PredicateArg::String("a".into()),
                PredicateArg::String("b".into()),
            ]
        )
        .is_err()
    );
}

#[test]
fn compiles_the_predicates_the_corpus_uses() {
    let capture = || PredicateArg::Capture(0);
    let string = |s: &str| PredicateArg::String(s.into());
    for (operator, args) in [
        ("lua-match?", vec![capture(), string("^[A-Z][A-Z%d_]*$")]),
        ("not-lua-match?", vec![capture(), string("^_")]),
        ("vim-match?", vec![capture(), string(r"\c^return$")]),
        (
            "has-ancestor?",
            vec![capture(), string("call"), string("macro")],
        ),
        ("not-has-parent?", vec![capture(), string("block")]),
        ("kind-eq?", vec![capture(), string("identifier")]),
        ("contains?", vec![capture(), string("TODO")]),
    ] {
        Predicate::compile(operator, &args).unwrap_or_else(|e| panic!("{operator}: {e}"));
    }
}

#[test]
fn substring_search_matches_lua_semantics() {
    assert!(contains(b"hello world", b"o w"));
    assert!(!contains(b"hello", b"world"));
    assert!(contains(b"hello", b""));
    assert!(!contains(b"hi", b"hello"));
}
