use mdbook_nvim_treesitter::query::rewrite::for_compilation;

#[test]
fn renames_the_match_family() {
    assert_eq!(
        for_compilation(r#"((a) @b (#match? @b "\c^x$"))"#),
        r#"((a) @b (#vim-match? @b "\c^x$"))"#
    );
    assert_eq!(
        for_compilation("(#not-match? @b \"x\")"),
        "(#not-vim-match? @b \"x\")"
    );
    assert_eq!(
        for_compilation("(#any-not-match? @b \"x\")"),
        "(#any-not-vim-match? @b \"x\")"
    );
}

#[test]
fn renames_set_directives() {
    assert_eq!(
        for_compilation("((a) @b (#set! priority 105))"),
        "((a) @b (#nvim-set! priority 105))"
    );
    // The shape tree-sitter rejects but Neovim accepts.
    assert_eq!(
        for_compilation("(#set! @url url @url)"),
        "(#nvim-set! @url url @url)"
    );
}

#[test]
fn leaves_other_predicates_alone() {
    for query in [
        r#"((a) @b (#eq? @b "x"))"#,
        r#"((a) @b (#lua-match? @b "^x"))"#,
        "((a) @b (#offset! @b 0 1 0 -1))",
        "(#any-of? @b \"x\" \"y\")",
    ] {
        assert_eq!(for_compilation(query), query);
    }
}

#[test]
fn does_not_rewrite_inside_strings_or_comments() {
    let query = "; see #match? for details\n((a) @b (#eq? @b \"#match?\"))";
    assert_eq!(for_compilation(query), query);
}

#[test]
fn preserves_everything_else_byte_for_byte() {
    let query = "; héllo ünicode\n((identifier) @x)\n";
    assert_eq!(for_compilation(query), query);
}

#[test]
fn survives_unterminated_input() {
    assert_eq!(
        for_compilation("(#eq? @a \"unterminated"),
        "(#eq? @a \"unterminated"
    );
    assert_eq!(for_compilation("#"), "#");
}

#[test]
fn a_query_without_predicates_is_unchanged() {
    let query = "(function_item name: (identifier) @function)";
    assert_eq!(for_compilation(query), query);
}

#[test]
fn preparing_a_query_twice_changes_nothing_more() {
    let query = r##"; #match? in a comment
((a) @b (#match? @b "#set! \"x\"") (#any-not-match? @b "y") (#set! k v) (#eq? @b "z"))"##;
    let once = for_compilation(query);
    assert_eq!(for_compilation(&once), once);
    assert_ne!(once, query);
}

#[test]
fn a_query_without_renamed_predicates_comes_back_unchanged() {
    let query = r##"; (#match? in a comment)
((a) @b (#eq? @b "#match?") (#lua-match? @b "^x") (#not-match-ish? @b))"##;
    assert_eq!(for_compilation(query), query);
    assert_ne!(for_compilation("(#set! k v)"), "(#set! k v)");
}
