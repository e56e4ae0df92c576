use mdbook_nvim_treesitter::registry_build::emit::{language_literal, make_header, option_literal, same_lines};
use mdbook_nvim_treesitter::registry_build::metadata::{
    check_repository, raw_host, Metadata, NvimTreesitter, Paths, TreeSitter,
};
use mdbook_nvim_treesitter::registry_build::parse::{
    collect_aliases, parse_aliases, parse_db, parse_languages, Alias, Install, Language,
};

    /// The shape the bot emits: one key per line, single quotes.
    const PARSERS: &str = "---@type nvim-ts.parsers
return {
  c = {
    install_info = {
      revision = 'b780e47f',
      url = 'https://github.com/tree-sitter/tree-sitter-c.git',
    },
    tier = 1,
  },
  cpp = {
    install_info = {
      location = 'cpp',
      generate = true,
      revision = '8b5b49eb',
      url = 'https://github.com/tree-sitter/tree-sitter-cpp',
    },
    requires = { 'c' },
    tier = 2,
  },
  ecma = {
    readme_note = 'queries required by javascript',
    tier = 2,
  },
  sql = {
    install_info = {
      branch = 'gh-pages',
      revision = '593a5ecc',
      url = 'https://github.com/derekstride/tree-sitter-sql',
    },
    tier = 3,
  },
}
";

    fn language<'a>(languages: &'a [Language], name: &str) -> &'a Language {
        languages
            .iter()
            .find(|l| l.name == name)
            .unwrap_or_else(|| panic!("no `{name}` in {languages:?}"))
    }

    #[test]
    fn parses_every_entry() {
        let languages = parse_languages(PARSERS).unwrap();
        let names: Vec<_> = languages.iter().map(|l| l.name.as_str()).collect();
        assert_eq!(names, ["c", "cpp", "ecma", "sql"]);
    }

    #[test]
    fn strips_git_suffix_from_url() {
        let languages = parse_languages(PARSERS).unwrap();
        let c = language(&languages, "c").install.as_ref().unwrap();
        assert_eq!(c.url, "https://github.com/tree-sitter/tree-sitter-c");
        assert_eq!(c.revision, "b780e47f");
        assert!(!c.generate);
        assert_eq!(c.location, None);
        assert_eq!(language(&languages, "c").tier, 1);
    }

    #[test]
    fn parses_optional_install_fields() {
        let languages = parse_languages(PARSERS).unwrap();
        let cpp = language(&languages, "cpp").install.as_ref().unwrap();
        assert_eq!(cpp.location.as_deref(), Some("cpp"));
        assert!(cpp.generate);
        assert_eq!(language(&languages, "cpp").requires, ["c"]);

        let sql = language(&languages, "sql").install.as_ref().unwrap();
        assert_eq!(sql.branch.as_deref(), Some("gh-pages"));
    }

    #[test]
    fn query_only_language_has_no_install_info() {
        // `install: None` is a real value, not a parse failure -- these are the
        // languages that exist only to be inherited from. Every test below
        // that checks a layout variant is really checking that a *grammar*
        // never turns into one of these by accident.
        let languages = parse_languages(PARSERS).unwrap();
        assert!(language(&languages, "ecma").install.is_none());
        assert!(language(&languages, "c").install.is_some());
    }

    #[test]
    fn reads_an_install_info_written_on_one_line() {
        // StyLua leaves this alone when it fits in 100 columns, so a
        // hand-written entry can look like this and pass upstream CI.
        let languages = parse_languages(
            "return {
  robot = { install_info = { revision = 'v0.2.0', url = 'https://example.com/r' }, tier = 1 },
}
",
        )
        .unwrap();
        let robot = language(&languages, "robot").install.as_ref().unwrap();
        assert_eq!(robot.revision, "v0.2.0");
    }

    #[test]
    fn ignores_comments() {
        let languages = parse_languages(
            "-- a header comment
return {
  apex = {
    install_info = {
      location = 'apex', -- monorepo
      revision = 'da568eee',
      url = 'https://example.com/a',
    },
    tier = 2, --[[ inline ]]
  },
}
",
        )
        .unwrap();
        let apex = language(&languages, "apex").install.as_ref().unwrap();
        assert_eq!(apex.location.as_deref(), Some("apex"));
    }

    #[test]
    fn reads_any_quote_style() {
        let languages = parse_languages(
            "return {
  a = { install_info = { revision = \"aaaa\", url = [[https://example.com/a]] } },
}
",
        )
        .unwrap();
        let a = language(&languages, "a").install.as_ref().unwrap();
        assert_eq!(a.revision, "aaaa");
        assert_eq!(a.url, "https://example.com/a");
    }

    #[test]
    fn reads_a_bracketed_key() {
        // `vim.inspect` emits this form for any key that is not a bare
        // identifier, so it can appear the next time one is added.
        let languages = parse_languages(
            "return {
  ['c-plus-plus'] = { install_info = { revision = 'aaaa', url = 'https://example.com/c' } },
}
",
        )
        .unwrap();
        assert_eq!(languages[0].name, "c-plus-plus");
    }

    #[test]
    fn reads_an_inline_filetype() {
        let languages = parse_languages(
            "return {
  powershell = {
    filetype = 'ps1',
    install_info = { revision = 'aaaa', url = 'https://example.com/p' },
  },
}
",
        )
        .unwrap();
        assert_eq!(languages[0].filetype.as_deref(), Some("ps1"));
    }

    #[test]
    fn an_unrecognised_language_key_is_an_error() {
        // Loud beats silent: a key we drop without a word is how a language
        // quietly stops working at the next revision bump.
        let error = parse_languages(
            "return { a = { install_info = { revision = 'a', url = 'u' }, brand_new_key = 1 } }",
        )
        .unwrap_err();
        let message = error;
        assert!(message.contains("brand_new_key"), "{message}");
    }

    #[test]
    fn an_unrecognised_install_key_is_an_error() {
        for key in ["path", "generate_from_json", "queries"] {
            let source = format!(
                "return {{ a = {{ install_info = {{ revision = 'a', url = 'u', {key} = 1 }} }} }}"
            );
            let error = parse_languages(&source).unwrap_err();
            assert!(error.contains(key), "{key} was accepted");
        }
    }

    #[test]
    fn an_install_info_without_a_url_is_an_error() {
        let error =
            parse_languages("return { a = { install_info = { revision = 'a' } } }").unwrap_err();
        assert!(error.contains("no url"), "{error}");
    }

    #[test]
    fn parses_aliases_flattened_and_sorted() {
        let aliases = parse_aliases(
            "local filetypes = {
  bash = { 'sh' },
  javascript = { 'jsx', 'js' },
}

for lang, fts in pairs(filetypes) do
  vim.treesitter.language.register(lang, fts)
end
",
        )
        .unwrap();
        let pairs: Vec<_> = aliases
            .iter()
            .map(|a| (a.alias.as_str(), a.language.as_str()))
            .collect();
        assert_eq!(
            pairs,
            [("js", "javascript"), ("jsx", "javascript"), ("sh", "bash")]
        );
    }

    #[test]
    fn rejects_input_that_is_not_the_table_we_expect() {
        assert!(parse_languages("return {}").is_err());
        assert!(parse_languages("local x = 1").is_err());
        assert!(parse_languages("return { !!! }").is_err());
        assert!(parse_aliases("local filetypes = {}").is_err());
        assert!(parse_aliases("return {}").is_err());
    }


#[test]
fn the_first_error_names_the_entry_it_is_in() {
    let error = parse_languages("return { a = { tier = 'one' } }").unwrap_err();
    assert_eq!(error, "invalid entry for `a`: `tier` is not a number");
}

#[test]
fn trailing_git_suffixes_all_go() {
    let languages =
        parse_languages("return { a = { install_info = { revision = 'r', url = 'u.git.git' } } }")
            .unwrap();
    assert_eq!(language(&languages, "a").install.as_ref().unwrap().url, "u");
}

#[test]
fn equal_names_keep_their_order_when_sorted() {
    let aliases = parse_aliases(
        "local filetypes = {
  b = { 'x' },
  a = { 'x' },
}
",
    )
    .unwrap();
    let pairs: Vec<_> = aliases
        .iter()
        .map(|a| (a.alias.as_str(), a.language.as_str()))
        .collect();
    assert_eq!(pairs, [("x", "b"), ("x", "a")]);
}

#[test]
fn collects_inline_filetypes_and_drops_dangling_aliases() {
    let languages = parse_languages(
        "return {
  powershell = { filetype = 'ps1' },
  python = {},
}
",
    )
    .unwrap();
    let mut aliases = vec![
        Alias {
            alias: "py".into(),
            language: "python".into(),
        },
        Alias {
            alias: "gone".into(),
            language: "removed".into(),
        },
    ];
    collect_aliases(&languages, &mut aliases);
    let pairs: Vec<_> = aliases
        .iter()
        .map(|a| (a.alias.as_str(), a.language.as_str()))
        .collect();
    assert_eq!(pairs, [("ps1", "powershell"), ("py", "python")]);
}

#[test]
fn an_inline_filetype_already_listed_is_not_added_twice() {
    let languages = parse_languages("return { powershell = { filetype = 'ps1' } }").unwrap();
    let mut aliases = vec![Alias {
        alias: "ps1".into(),
        language: "powershell".into(),
    }];
    collect_aliases(&languages, &mut aliases);
    assert_eq!(aliases.len(), 1);
}

#[test]
fn reads_both_tables_together() {
    let (languages, aliases) = parse_db(
        PARSERS,
        "local filetypes = { cpp = { 'cxx' }, gone = { 'g' } }",
    )
    .unwrap();
    assert_eq!(languages.len(), 4);
    assert_eq!(aliases.len(), 1);
    assert_eq!(aliases[0].alias, "cxx");

    let error = parse_db("return {}", "local filetypes = { a = { 'b' } }").unwrap_err();
    assert!(
        error.starts_with("failed to parse languages from parsers.lua: "),
        "{error}"
    );
    let error = parse_db(PARSERS, "return {}").unwrap_err();
    assert!(
        error.starts_with("failed to parse aliases from filetypes.lua: "),
        "{error}"
    );
}

#[test]
fn lua_that_does_not_parse_is_reported() {
    let error = parse_languages("return { !!! }").unwrap_err();
    assert!(error.starts_with("parsers.lua is not valid Lua: "), "{error}");
}

// --- metadata ----------------------------------------------------------------

const SHA: &str = "9a168f6357ed21c3a636e1727bc7d382abc451b8";
const REPO: &str = "https://github.com/nvim-treesitter/nvim-treesitter";

fn metadata(revision: &str, repository: &str, version: &str, parsers: &str) -> Metadata {
    Metadata {
        comment: Vec::new(),
        nvim_treesitter: NvimTreesitter {
            repository: repository.to_string(),
            revision: revision.to_string(),
            paths: Paths {
                parsers: parsers.to_string(),
                filetypes: "b.lua".to_string(),
                queries: "runtime/queries".to_string(),
            },
        },
        tree_sitter: TreeSitter {
            repository: "https://github.com/tree-sitter/tree-sitter".to_string(),
            cli_version: version.to_string(),
        },
    }
}

#[test]
fn accepts_well_formed_metadata() {
    assert!(metadata(SHA, REPO, "0.27.0", "a.lua").validate().is_ok());
}

#[test]
fn rejects_a_revision_that_is_not_a_full_sha() {
    for revision in ["v0.9.3", "main", "9a168f63", ""] {
        let error = metadata(revision, REPO, "0.27.0", "a.lua").validate().unwrap_err();
        assert!(error.contains("40-character"), "{revision}");
    }
}

#[test]
fn rejects_a_version_that_is_not_three_numbers() {
    // The version comes from the manifest, so this guards against a
    // workspace dependency written as `{ version = "..." }` or a range.
    for version in ["0.27", "v0.27.0", "latest", "0.27.x"] {
        assert!(
            metadata(SHA, REPO, version, "a.lua").validate().is_err(),
            "{version}"
        );
    }
}

#[test]
fn rejects_a_repository_the_raw_url_cannot_be_derived_from() {
    for repository in [
        "https://github.com/nvim-treesitter/nvim-treesitter.git",
        "https://github.com/nvim-treesitter/nvim-treesitter/",
        "https://gitlab.com/owner/repo",
        "git@github.com:owner/repo",
        "https://github.com/owner",
    ] {
        assert!(
            metadata(SHA, repository, "0.27.0", "a.lua").validate().is_err(),
            "{repository}"
        );
    }
}

#[test]
fn rejects_a_path_that_escapes_the_repository() {
    assert!(metadata(SHA, REPO, "0.27.0", "../a.lua").validate().is_err());
    assert!(metadata(SHA, REPO, "0.27.0", "/etc/passwd").validate().is_err());
    assert!(metadata(SHA, REPO, "0.27.0", "a/../../b").validate().is_err());
    assert!(metadata(SHA, REPO, "0.27.0", "a/..b/c").validate().is_ok());
}

#[test]
fn repository_errors_quote_the_url() {
    assert_eq!(
        check_repository("https://gitlab.com/owner/repo").unwrap_err(),
        "\"https://gitlab.com/owner/repo\" is not an https github.com url"
    );
    assert_eq!(
        check_repository("https://github.com/owner/repo.git").unwrap_err(),
        "\"https://github.com/owner/repo.git\" should not end in .git"
    );
    assert!(check_repository(REPO).is_ok());
}

#[test]
fn derives_the_raw_host_from_the_repository() {
    assert_eq!(
        raw_host("https://github.com/nvim-treesitter/nvim-treesitter").unwrap(),
        "https://raw.githubusercontent.com/nvim-treesitter/nvim-treesitter"
    );
    assert!(raw_host("https://gitlab.com/owner/repo").is_none());
}

// --- emitting -----------------------------------------------------------------

#[test]
fn a_language_becomes_one_line_of_the_table() {
    let language = Language {
        name: "cpp".into(),
        install: Some(Install {
            url: "https://example.com/cpp".into(),
            revision: "abc".into(),
            branch: None,
            location: Some("cpp".into()),
            generate: true,
        }),
        requires: vec!["c".into(), "x".into()],
        tier: 2,
        filetype: None,
    };
    assert_eq!(
        language_literal(&language),
        "    LanguageInfo { name: \"cpp\", install: Some(Install { url: \"https://example.com/cpp\", \
         revision: \"abc\", branch: None, location: Some(\"cpp\"), generate: true }), \
         requires: &[\"c\", \"x\"], tier: 2 },"
    );
}

#[test]
fn optional_strings_are_written_as_rust() {
    assert_eq!(option_literal(None), "None");
    assert_eq!(option_literal(Some("a\"b")), "Some(\"a\\\"b\")");
}

#[test]
fn the_header_says_where_the_module_comes_from() {
    let header = make_header("Subject.", "the source");
    assert!(header.starts_with("//! Subject.\n//!\n"), "{header}");
    assert!(header.contains(" from the source -- do not edit by hand"), "{header}");
    assert!(header.ends_with("\n\n"));
}

#[test]
fn valid_metadata_always_has_a_raw_host() {
    let valid = metadata(SHA, REPO, "0.27.0", "a.lua");
    assert!(valid.validate().is_ok());
    assert!(raw_host(&valid.nvim_treesitter.repository).is_some());
}

#[test]
fn tables_come_out_sorted() {
    let languages = parse_languages(
        "return {
  zig = {},
  ada = {},
  m = {},
}
",
    )
    .unwrap();
    assert!(languages.windows(2).all(|w| w[0].name <= w[1].name));
}

#[test]
fn a_file_differing_only_in_white_space_is_up_to_date() {
    assert!(same_lines("a\nb\n", "a\r\nb"));
    assert!(same_lines("\n  a  \n b\t\n\n", "a\n b"));
    assert!(same_lines("", "  \n\n"));
}

#[test]
fn a_file_with_other_lines_is_rewritten() {
    assert!(!same_lines("a\nb", "a\nc"));
    assert!(!same_lines("a\nb", "a\n\nb"));
    assert!(!same_lines("a b", " a  b"));
    assert!(!same_lines("a", "a\nb"));
}
