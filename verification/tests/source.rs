use mdbook_nvim_treesitter::query::source::{assemble_query, parse_inherits, Inherit};

/// The query files at hand, in the order the roots are searched.
fn files(entries: &[(&str, &str)]) -> Vec<(String, String)> {
    entries
        .iter()
        .map(|(language, text)| (language.to_string(), text.to_string()))
        .collect()
}

#[test]
fn reads_inherits_modelines() {
    assert_eq!(
        parse_inherits("; inherits: typescript,jsx\n(x) @y"),
        [
            Inherit {
                language: "typescript".into(),
                optional: false
            },
            Inherit {
                language: "jsx".into(),
                optional: false
            },
        ]
    );
    assert_eq!(
        parse_inherits(";; inherits c\n"),
        [Inherit {
            language: "c".into(),
            optional: false
        }]
    );
    assert_eq!(
        parse_inherits("; inherits: (html)\n"),
        [Inherit {
            language: "html".into(),
            optional: true
        }]
    );
}

#[test]
fn stops_looking_after_the_leading_comments() {
    assert_eq!(parse_inherits("(x) @y\n; inherits: c\n"), []);
    assert_eq!(parse_inherits("(x) @y\n"), []);
}

#[test]
fn inherited_text_comes_first() {
    let texts = files(&[
        ("c", "(c_pattern) @a"),
        ("cpp", "; inherits: c\n(cpp_pattern) @b"),
    ]);
    assert_eq!(
        assemble_query("cpp", &texts),
        "(c_pattern) @a\n; inherits: c\n(cpp_pattern) @b\n"
    );
}

#[test]
fn inheritance_is_transitive() {
    let texts = files(&[
        ("a", "(a) @a"),
        ("b", "; inherits: a\n(b) @b"),
        ("c", "; inherits: b\n(c) @c"),
    ]);
    let text = assemble_query("c", &texts);
    let order: Vec<_> = ["(a) @a", "(b) @b", "(c) @c"]
        .iter()
        .map(|needle| text.find(needle).expect(needle))
        .collect();
    assert!(order.windows(2).all(|w| w[0] < w[1]), "{text:?}");
}

#[test]
fn optional_inherits_only_apply_at_the_top_level() {
    let texts = files(&[
        ("extra", "(extra) @e"),
        ("base", "; inherits: (extra)\n(base) @b"),
        ("leaf", "; inherits: base\n(leaf) @l"),
    ]);
    assert!(assemble_query("base", &texts).contains("(extra) @e"));
    // `base` is inherited here, so its optional inherit is skipped.
    assert!(!assemble_query("leaf", &texts).contains("(extra) @e"));
}

#[test]
fn earlier_roots_shadow_later_ones() {
    // The first root's file is listed first.
    let texts = files(&[("rust", "(first) @a"), ("rust", "(second) @a")]);
    assert_eq!(assemble_query("rust", &texts), "(first) @a\n");
}

#[test]
fn falls_back_to_a_later_root_for_an_inherited_language() {
    let texts = files(&[("cpp", "; inherits: c\n(cpp) @b"), ("c", "(c) @a")]);
    let text = assemble_query("cpp", &texts);
    assert!(text.contains("(c) @a"), "{text:?}");
}

#[test]
fn a_missing_query_is_empty_rather_than_an_error() {
    let texts = files(&[("rust", "(x) @y")]);
    assert_eq!(assemble_query("nothing", &texts), "");
}

#[test]
fn a_cycle_terminates() {
    let texts = files(&[
        ("a", "; inherits: b\n(a) @a"),
        ("b", "; inherits: a\n(b) @b"),
    ]);
    let text = assemble_query("a", &texts);
    assert!(text.contains("(a) @a") && text.contains("(b) @b"));
}

#[test]
fn a_text_that_ends_in_a_newline_gets_no_second_one() {
    let texts = files(&[("rust", "(x) @y\n")]);
    assert_eq!(assemble_query("rust", &texts), "(x) @y\n");
}
