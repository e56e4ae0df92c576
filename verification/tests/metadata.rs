use mdbook_nvim_treesitter::query::metadata::{
    has_regex_form, lua_replacement_to_regex, parse_offset, parse_set, Metadata, Offset, PatternMetadata, DEFAULT_PRIORITY,
};
use mdbook_nvim_treesitter::query::predicate::{GeneralPredicate, PredicateArg};
use mdbook_nvim_treesitter::query::rewrite::NVIM_SET;

fn predicate(operator: &str, args: Vec<PredicateArg>) -> GeneralPredicate {
    GeneralPredicate {
        operator: operator.to_string(),
        args,
    }
}

fn text(s: &str) -> PredicateArg {
    PredicateArg::String(s.to_string())
}

#[test]
fn translates_lua_capture_references() {
    assert_eq!(lua_replacement_to_regex("%1"), "${1}");
    assert_eq!(lua_replacement_to_regex("a%2b"), "a${2}b");
    assert_eq!(lua_replacement_to_regex("100%%"), "100%");
    assert_eq!(lua_replacement_to_regex("cost: $5"), "cost: $$5");
}

#[test]
fn substitutes_like_lua_gsub() {
    // Taken from nix/injections.scm: pull the language out of `/* sh */`.
    let metadata = PatternMetadata::compile(&[predicate(
        "gsub!",
        vec![
            PredicateArg::Capture(0),
            text("/%*%s*([%w%p]+)%s*%*/"),
            text("%1"),
        ],
    )])
    .unwrap();

    assert_eq!(metadata.substitute(0, "/* bash */"), "bash");
    assert_eq!(metadata.substitute(1, "/* bash */"), "/* bash */");
}

#[test]
fn capture_priority_overrides_pattern_priority() {
    let metadata = PatternMetadata::compile(&[
        predicate(NVIM_SET, vec![text("priority"), text("105")]),
        predicate(
            NVIM_SET,
            vec![PredicateArg::Capture(7), text("priority"), text("120")],
        ),
    ])
    .unwrap();

    assert_eq!(metadata.priority(0), 105);
    assert_eq!(metadata.priority(7), 120);
    assert_eq!(PatternMetadata::empty().priority(0), DEFAULT_PRIORITY);
}

#[test]
fn parses_every_set_shape_neovim_allows() {
    let set = parse_set(&[text("priority"), text("105")]).unwrap();
    assert_eq!(
        (set.capture, set.key.as_str(), set.number()),
        (None, "priority", Some(105))
    );

    let set = parse_set(&[PredicateArg::Capture(2), text("priority"), text("120")]).unwrap();
    assert_eq!(set.capture, Some(2));
    assert_eq!(set.number(), Some(120));

    // `(#set! @url url @url)`: a second capture as the value. tree-sitter
    // refuses to parse this, which is why we do it ourselves.
    let set = parse_set(&[
        PredicateArg::Capture(1),
        text("url"),
        PredicateArg::Capture(1),
    ])
    .unwrap();
    assert_eq!(
        (set.capture, set.key.as_str(), set.value),
        (Some(1), "url", None)
    );

    // A flag with no value at all.
    let set = parse_set(&[text("injection.combined")]).unwrap();
    assert_eq!(set.value, None);

    assert!(parse_set(&[]).is_none());
}

#[test]
fn parses_offset_arguments() {
    let args = [
        PredicateArg::Capture(3),
        text("0"),
        text("1"),
        text("0"),
        text("-1"),
    ];
    assert_eq!(
        parse_offset(&args),
        Some((
            3,
            Offset {
                start_row: 0,
                start_column: 1,
                end_row: 0,
                end_column: -1
            }
        ))
    );
}

#[test]
fn ignores_a_malformed_offset() {
    assert_eq!(parse_offset(&[]), None);
    assert_eq!(parse_offset(&[text("0")]), None);
}

#[test]
fn reads_the_injection_directives() {
    let metadata = PatternMetadata::compile(&[
        predicate(NVIM_SET, vec![text("injection.language"), text("javascript")]),
        predicate(NVIM_SET, vec![text("injection.combined")]),
        predicate(NVIM_SET, vec![text("injection.self")]),
    ])
    .unwrap();
    let injection = metadata.injection();
    assert_eq!(injection.language.as_deref(), Some("javascript"));
    assert!(injection.combined);
    assert!(injection.own_language);
    assert!(!injection.parent_language);
    assert!(!injection.include_children);
}

#[test]
fn an_offset_directive_is_kept_per_capture() {
    let metadata = PatternMetadata::compile(&[predicate(
        "offset!",
        vec![PredicateArg::Capture(2), text("0"), text("1"), text("0"), text("-1")],
    )])
    .unwrap();
    assert_eq!(
        metadata.offset(2),
        Some(Offset {
            start_row: 0,
            start_column: 1,
            end_row: 0,
            end_column: -1
        })
    );
    assert_eq!(metadata.offset(0), None);
}

#[test]
fn a_pattern_past_the_end_has_no_directives() {
    let metadata = Metadata::compile(&[vec![predicate(
        NVIM_SET,
        vec![text("priority"), text("90")],
    )]])
    .unwrap();
    assert_eq!(metadata.pattern(0).priority(0), 90);
    assert_eq!(metadata.pattern(5).priority(0), DEFAULT_PRIORITY);
}

#[test]
fn a_replacement_has_a_regex_form_unless_a_percent_precedes_non_ascii() {
    assert!(has_regex_form("%1"));
    assert!(has_regex_form("cost: $5"));
    assert!(has_regex_form("é%"));
    assert!(!has_regex_form("%é"));
}
