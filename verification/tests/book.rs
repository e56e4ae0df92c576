//! Lookup, filtering, scanning and the run's decisions, against a small
//! language table shaped like nvim-treesitter's.
use std::collections::BTreeSet;

use mdbook_nvim_treesitter::driver::pipeline::{
    nothing_to_highlight, splice_chapter, wanted_languages, Page, Rounds, SpliceError, MAX_ROUNDS,
};
use mdbook_nvim_treesitter::registry::info::{Install, LanguageInfo, Pin};
use mdbook_nvim_treesitter::registry::info::nvim_treesitter_revision_short;
use mdbook_nvim_treesitter::registry::lookup::{fence_aliases, Registry};
use mdbook_nvim_treesitter::registry::util::{normalize_tag, short_revision};
use mdbook_nvim_treesitter::renderer::replacer::ReplaceError;
use mdbook_nvim_treesitter::renderer::scan::filter::Filter;
use mdbook_nvim_treesitter::renderer::scan::scanner::{has_code, tasks};
use mdbook_nvim_treesitter::renderer::scan::task::{HighlightTask, TaskKind};
use mdbook_nvim_treesitter::store::parser::{grammar_name, parser_cache_key, parser_symbol};
use mdbook_nvim_treesitter::store::workspace::query_dependencies;

fn grammar(name: &str, requires: &[&str]) -> LanguageInfo {
    LanguageInfo {
        name: name.to_string(),
        install: Some(Install {
            url: format!("https://github.com/tree-sitter/tree-sitter-{name}"),
            revision: "77a3747266f4d621d0757825e6b11edcbf991ca5".to_string(),
            branch: None,
            location: None,
            generate: false,
        }),
        requires: requires.iter().map(|r| r.to_string()).collect(),
        tier: 1,
    }
}

fn query_only(name: &str) -> LanguageInfo {
    LanguageInfo {
        name: name.to_string(),
        install: None,
        requires: Vec::new(),
        tier: 2,
    }
}

/// A table in the shape of nvim-treesitter's: sorted by name, with the
/// query-only languages and the `requires` chains of the real one.
fn registry() -> Registry {
    let languages = vec![
        grammar("bash", &[]),
        grammar("c", &[]),
        grammar("c_sharp", &[]),
        grammar("cpp", &["c"]),
        query_only("ecma"),
        grammar("go", &[]),
        grammar("html", &["html_tags"]),
        query_only("html_tags"),
        grammar("javascript", &["ecma", "jsx"]),
        grammar("json", &[]),
        query_only("jsx"),
        grammar("kotlin", &[]),
        grammar("markdown", &[]),
        grammar("python", &[]),
        grammar("rust", &[]),
        grammar("tsx", &["ecma", "jsx", "typescript"]),
        grammar("typescript", &["ecma"]),
        grammar("yaml", &[]),
    ];
    let aliases = [
        ("ecma", "javascript"),
        ("ecmascript", "javascript"),
        ("javascriptreact", "javascript"),
        ("js", "javascript"),
        ("jsx", "javascript"),
        ("sh", "bash"),
        ("typescriptreact", "tsx"),
    ]
    .iter()
    .map(|(a, l)| (a.to_string(), l.to_string()))
    .collect();
    Registry::new(languages, aliases)
}

fn set(names: &[&str]) -> BTreeSet<String> {
    names.iter().map(|n| n.to_string()).collect()
}

// --- lookup -----------------------------------------------------------------

#[test]
fn tables_are_sorted_so_binary_search_is_valid() {
    let registry = registry();
    let languages = registry.all();
    assert!(languages.windows(2).all(|w| w[0].name < w[1].name));
    let fence = fence_aliases();
    assert!(fence.windows(2).all(|w| w[0].0 < w[1].0));
}

#[test]
fn every_alias_points_at_a_real_language() {
    let registry = registry();
    for (alias, language) in fence_aliases() {
        assert!(
            registry.get_language(&language).is_some(),
            "{alias} -> missing {language}"
        );
    }
}

#[test]
fn every_required_language_is_in_the_table() {
    let registry = registry();
    for language in registry.all() {
        for required in &language.requires {
            assert!(
                registry.get_language(required).is_some(),
                "{} requires missing {required}",
                language.name
            );
        }
    }
}

#[test]
fn resolves_ids_aliases_and_fence_spellings() {
    let registry = registry();
    assert_eq!(registry.resolve_language("rust").unwrap().name, "rust");
    assert_eq!(registry.resolve_language("  Rust ").unwrap().name, "rust");
    assert_eq!(registry.resolve_language("sh").unwrap().name, "bash");
    assert_eq!(registry.resolve_language("js").unwrap().name, "javascript");
    assert_eq!(registry.resolve_language("c++").unwrap().name, "cpp");
    assert_eq!(registry.resolve_language("c-sharp").unwrap().name, "c_sharp");
    assert_eq!(registry.resolve_language("c_sharp").unwrap().name, "c_sharp");
}

#[test]
fn rejects_tags_that_are_not_languages() {
    let registry = registry();
    assert!(registry.resolve_language("").is_none());
    assert!(registry.resolve_language("   ").is_none());
    assert!(registry.resolve_language("definitely-not-a-language").is_none());
}

#[test]
fn query_only_languages_have_no_parser() {
    let registry = registry();
    assert!(!registry.get_language("ecma").unwrap().has_parser());
    assert!(!registry.get_language("html_tags").unwrap().has_parser());
    assert!(registry.get_language("rust").unwrap().has_parser());
}

#[test]
fn a_query_only_language_never_wins_a_tag() {
    let registry = registry();
    // `jsx` and `ecma` are query-only language ids *and* filetype aliases
    // for javascript. Matching the id first would hand back a language
    // with no grammar, and the block would silently come out plain.
    assert_eq!(registry.resolve_language("jsx").unwrap().name, "javascript");
    assert_eq!(registry.resolve_language("ecma").unwrap().name, "javascript");

    // `html_tags` has no alias to fall through to, so it resolves to
    // nothing rather than to something unhighlightable.
    assert!(registry.resolve_language("html_tags").is_none());

    // Whatever `resolve` returns can always be highlighted.
    for language in registry.all() {
        if let Some(resolved) = registry.resolve_language(&language.name) {
            assert!(
                resolved.has_parser(),
                "{} -> {}",
                language.name,
                resolved.name
            );
        }
    }
    for (alias, _) in fence_aliases() {
        if let Some(resolved) = registry.resolve_language(&alias) {
            assert!(resolved.has_parser(), "{alias} -> {}", resolved.name);
        }
    }
}

#[test]
fn get_still_finds_query_only_languages() {
    let registry = registry();
    // The store needs them: installing `cpp` has to install `c`'s queries,
    // and installing `javascript` has to install `ecma`'s.
    assert_eq!(registry.get_language("ecma").unwrap().name, "ecma");
    assert_eq!(registry.get_language("jsx").unwrap().name, "jsx");
    assert_eq!(registry.get_language("html_tags").unwrap().name, "html_tags");
}

// --- util -------------------------------------------------------------------

#[test]
fn shortens_a_commit_sha() {
    assert_eq!(
        short_revision("77a3747266f4d621d0757825e6b11edcbf991ca5"),
        "77a37472"
    );
}

#[test]
fn keeps_a_tag_whole() {
    // `v0.2` and `v0.25.0` would truncate to the same eight characters.
    assert_eq!(short_revision("v0.25.0"), "v0.25.0");
    assert_eq!(short_revision("main"), "main");
}

#[test]
fn leaves_anything_that_is_not_a_sha_alone() {
    // Right length, wrong alphabet.
    let not_hex = "zzzzzzzzzzzzzzzzzzzzzzzzzzzzzzzzzzzzzzzz";
    assert_eq!(short_revision(not_hex), not_hex);
}

#[test]
fn trims_and_lowercases() {
    assert_eq!(normalize_tag("  Rust "), "rust");
    assert_eq!(normalize_tag("JS"), "js");
    let once = normalize_tag("  C++ Ünï ");
    assert_eq!(normalize_tag(&once), once);
    assert_eq!(once, "c++ Ünï");
    assert_eq!(normalize_tag("c++"), "c++");
}

#[test]
fn leaves_an_empty_tag_empty() {
    assert_eq!(normalize_tag(""), "");
    assert_eq!(normalize_tag("   "), "");
}

#[test]
fn the_pinned_revision_is_shortened_like_a_grammar_revision() {
    let pin = Pin {
        nvim_treesitter_repository: "https://github.com/nvim-treesitter/nvim-treesitter".into(),
        nvim_treesitter_revision: "9a168f6357ed21c3a636e1727bc7d382abc451b8".into(),
        nvim_treesitter_queries_dir: "runtime/queries".into(),
        tree_sitter_cli_version: "0.27.1".into(),
        tree_sitter_repository: "https://github.com/tree-sitter/tree-sitter".into(),
    };
    assert_eq!(nvim_treesitter_revision_short(&pin), "9a168f63");
}

#[test]
fn an_install_shortens_its_own_revision() {
    let registry = registry();
    let install = registry.get_language("rust").unwrap().install.as_ref().unwrap();
    assert_eq!(install.short_revision(), "77a37472");
}

// --- filter -----------------------------------------------------------------

fn filter(only: &[&str], exclude: &[&str]) -> Filter {
    let to_owned = |v: &[&str]| v.iter().map(|s| s.to_string()).collect::<Vec<_>>();
    Filter::new(&registry(), &to_owned(only), &to_owned(exclude)).0
}

#[test]
fn everything_is_allowed_by_default() {
    let filter = filter(&[], &[]);
    assert!(filter.allows("rust"));
    assert!(filter.allows("python"));
}

#[test]
fn include_restricts_to_a_list() {
    let filter = filter(&["rust", "c"], &[]);
    assert!(filter.allows("rust"));
    assert!(filter.allows("c"));
    assert!(!filter.allows("python"));
}

#[test]
fn exclude_removes_languages() {
    let filter = filter(&[], &["rust"]);
    assert!(!filter.allows("rust"));
    assert!(filter.allows("python"));
}

#[test]
fn exclude_wins_over_include() {
    let filter = filter(&["rust", "c"], &["rust"]);
    assert!(!filter.allows("rust"));
    assert!(filter.allows("c"));
}

#[test]
fn configured_tags_are_resolved_like_fence_tags() {
    let filter = filter(&[], &["sh", "JS"]);
    assert!(!filter.allows("bash"));
    assert!(!filter.allows("javascript"));
}

#[test]
fn unknown_tags_are_reported() {
    let (_, unknown) = Filter::new(&registry(), &[], &["not-a-language".to_string()]);
    assert_eq!(unknown, ["not-a-language"]);
}

#[test]
fn the_default_filter_allows_everything() {
    let filter = Filter::default();
    assert!(filter.allows("rust"));
    assert!(filter.allows("anything"));
}

// --- scanner ----------------------------------------------------------------

fn scan(content: &str) -> Vec<HighlightTask> {
    tasks(content, &registry(), &Filter::default())
}

/// The exact text each task will replace.
fn replaced<'a>(content: &'a str, tasks: &[HighlightTask]) -> Vec<&'a str> {
    tasks.iter().map(|t| &content[t.range.clone()]).collect()
}

#[test]
fn finds_a_top_level_fenced_block() {
    let content = "intro\n\n```rust\nfn f() {}\n```\n";
    let tasks = scan(content);

    assert_eq!(tasks.len(), 1);
    assert_eq!(tasks[0].kind, TaskKind::TopLevelFenced);
    assert_eq!(tasks[0].language, "rust");
    assert_eq!(tasks[0].code, "fn f() {}\n");
    assert_eq!(replaced(content, &tasks), ["```rust\nfn f() {}\n```"]);
}

#[test]
fn a_nested_fence_keeps_its_container_prefix_out_of_the_range() {
    let content = "- item\n\n  ```rust\n  fn f() {}\n  ```\n";
    let tasks = scan(content);

    assert_eq!(tasks[0].kind, TaskKind::NestedFenced);
    // The two spaces of list indentation stay in the document.
    assert!(replaced(content, &tasks)[0].starts_with("```rust"));
    // The code itself arrives without them.
    assert_eq!(tasks[0].code, "fn f() {}\n");
}

#[test]
fn a_block_quoted_fence_is_nested_too() {
    let content = "> quote\n>\n> ```rust\n> fn f() {}\n> ```\n";
    let tasks = scan(content);

    assert_eq!(tasks[0].kind, TaskKind::NestedFenced);
    assert!(replaced(content, &tasks)[0].starts_with("```rust"));
    assert_eq!(tasks[0].code, "fn f() {}\n");
}

#[test]
fn finds_the_inline_syntax() {
    let content = "call ```rust`fn f()``` now";
    let tasks = scan(content);

    assert_eq!(tasks.len(), 1);
    assert_eq!(tasks[0].kind, TaskKind::Inline);
    assert_eq!(tasks[0].language, "rust");
    assert_eq!(tasks[0].code, "fn f()");
    assert_eq!(replaced(content, &tasks), ["```rust`fn f()```"]);
}

#[test]
fn leaves_ordinary_inline_code_alone() {
    assert_eq!(scan("a `plain` span"), []);
    // A backtick is there, but `notalanguage` is not a language.
    assert_eq!(scan("a ``notalanguage`x`` span"), []);
}

#[test]
fn resolves_fence_tags_through_aliases() {
    assert_eq!(scan("```sh\nls\n```\n")[0].language, "bash");
    assert_eq!(scan("```JS\nlet x\n```\n")[0].language, "javascript");
    assert_eq!(scan("```c++\nint x;\n```\n")[0].language, "cpp");
}

#[test]
fn ignores_blocks_it_cannot_highlight() {
    assert_eq!(scan("```\nno language\n```\n"), []);
    assert_eq!(scan("```nonsense\nx\n```\n"), []);
    assert_eq!(scan("    indented code\n"), []);
}

#[test]
fn honours_extra_info_string_tokens() {
    // mdBook and rustdoc annotations follow the language.
    assert_eq!(scan("```rust,no_run\nfn f() {}\n```\n")[0].language, "rust");
    assert_eq!(scan("```rust ignore\nfn f() {}\n```\n")[0].language, "rust");
    // ...unless one of them opts the block out.
    assert_eq!(scan("```rust,no-treesitter\nfn f() {}\n```\n"), []);
}

#[test]
fn applies_the_filter() {
    let registry = registry();
    let (filter, _) = Filter::new(&registry, &[], &["rust".to_string()]);
    assert_eq!(tasks("```rust\nfn f() {}\n```\n", &registry, &filter), []);
    assert_eq!(tasks("x ```rust`f()``` y", &registry, &filter), []);
    assert_eq!(tasks("```c\nint x;\n```\n", &registry, &filter).len(), 1);
}

#[test]
fn reports_tasks_in_source_order_without_overlaps() {
    let content = "```rust\na\n```\n\ntext ```c`int x``` more\n\n```python\nb\n```\n";
    let tasks = scan(content);

    assert_eq!(
        tasks
            .iter()
            .map(|t| t.language.as_str())
            .collect::<Vec<_>>(),
        ["rust", "c", "python"]
    );
    assert!(tasks.windows(2).all(|w| w[0].range.end <= w[1].range.start));
}

#[test]
fn handles_a_chapter_with_no_code() {
    assert_eq!(scan(""), []);
    assert_eq!(scan("# Title\n\nJust prose.\n"), []);
}

// --- query dependencies -------------------------------------------------------

fn dependencies(language: &str) -> BTreeSet<String> {
    query_dependencies(&registry(), language).into_iter().collect()
}

#[test]
fn a_language_always_depends_on_itself() {
    assert_eq!(dependencies("rust"), set(&["rust"]));
}

#[test]
fn collects_inherited_query_languages() {
    assert_eq!(dependencies("cpp"), set(&["cpp", "c"]));
    assert_eq!(dependencies("javascript"), set(&["javascript", "ecma", "jsx"]));
}

#[test]
fn follows_dependencies_transitively() {
    // tsx requires typescript, which in turn requires ecma.
    let dependencies = dependencies("tsx");
    for language in ["tsx", "typescript", "ecma", "jsx"] {
        assert!(dependencies.contains(language), "missing {language}");
    }
}

#[test]
fn an_unknown_language_has_no_dependencies() {
    assert!(dependencies("not-a-language").is_empty());
}

#[test]
fn dependencies_are_listed_once_each_in_ascending_order() {
    let listed = query_dependencies(&registry(), "tsx");
    assert!(listed.iter().any(|name| name == "tsx"));
    let unique: BTreeSet<_> = listed.iter().collect();
    assert_eq!(unique.len(), listed.len());
    assert!(listed.windows(2).all(|pair| pair[0] < pair[1]));
}

// --- parsers ----------------------------------------------------------------

#[test]
fn reads_the_grammar_name() {
    assert_eq!(
        grammar_name(r#"{"name":"c_sharp","rules":{}}"#).as_deref(),
        Some("c_sharp")
    );
    assert_eq!(
        grammar_name("{\n  \"name\" : \"rust\" ,\n  \"rules\": {}\n}").as_deref(),
        Some("rust")
    );
}

#[test]
fn rejects_a_name_that_is_not_a_symbol() {
    // A grammar name has to be pasteable into `tree_sitter_<name>`; if it
    // is not, falling back to the language id is the better guess.
    assert_eq!(grammar_name(r#"{"name":"not a symbol"}"#), None);
    assert_eq!(grammar_name(r#"{"name":""}"#), None);
}

#[test]
fn rejects_malformed_input() {
    assert_eq!(grammar_name(""), None);
    assert_eq!(grammar_name(r#"{"rules":{}}"#), None);
    assert_eq!(grammar_name(r#"{"name""#), None);
}

#[test]
fn the_symbol_falls_back_to_the_language_id() {
    assert_eq!(parser_symbol(r#"{"name":"tsx"}"#, "typescript"), "tsx");
    assert_eq!(parser_symbol(r#"{"name":"a b"}"#, "typescript"), "typescript");
}

#[test]
fn a_parser_is_cached_under_its_language_and_revision() {
    let registry = registry();
    assert_eq!(
        parser_cache_key(registry.get_language("rust").unwrap()).as_deref(),
        Some("parser-rust-77a37472")
    );
    assert_eq!(parser_cache_key(registry.get_language("ecma").unwrap()), None);
}

// --- the run ----------------------------------------------------------------

fn page(name: &str, content: &str) -> Page {
    Page {
        name: name.to_string(),
        tasks: scan(content),
    }
}

#[test]
fn a_book_without_code_needs_nothing() {
    let pages = vec![page("one", "just prose\n"), page("two", "")];
    assert!(nothing_to_highlight(&pages));
    let pages = vec![page("one", "just prose\n"), page("two", "```rust\nx\n```\n")];
    assert!(!nothing_to_highlight(&pages));
}

#[test]
fn wanted_languages_are_sorted_and_listed_once() {
    let pages = vec![
        page("one", "```rust\na\n```\n\n```c\nb\n```\n"),
        page("two", "```python\na\n```\n\n```rust\nb\n```\n"),
    ];
    assert_eq!(wanted_languages(&pages), ["c", "python", "rust"]);
}

#[test]
fn rounds_install_what_is_new_and_stop_when_nothing_is() {
    let mut rounds = Rounds::new(&vec!["html".to_string()]);
    let missing = vec!["javascript".to_string(), "css".to_string(), "html".to_string(), "css".to_string()];
    let end = rounds.finish(&missing);
    assert_eq!(end.install, ["css", "javascript"]);
    assert!(end.again);
    assert_eq!(rounds.round(), 1);

    // The same languages are missing again: they were tried, so nothing new.
    let end = rounds.finish(&missing);
    assert!(end.install.is_empty());
    assert!(!end.again);
}

#[test]
fn rounds_are_capped() {
    let mut rounds = Rounds::new(&Vec::new());
    let mut last = None;
    for round in 0..MAX_ROUNDS {
        let end = rounds.finish(&[format!("language{round}")]);
        last = Some(end.again);
    }
    assert_eq!(rounds.round(), MAX_ROUNDS);
    assert_eq!(last, Some(false));
}

#[test]
fn spliced_chapters_replace_each_task_in_place() {
    let content = "intro\n\n```rust\nfn f() {}\n```\n";
    let pages = vec![page("one", content)];
    let rendered = vec![vec!["<pre>HTML</pre>".to_string()]];
    let spliced = splice_chapter(&pages, &rendered, 0, "one", content);
    assert!(matches!(spliced, Ok(Some(ref text)) if text == "intro\n\n<pre>HTML</pre>\n"));
}

#[test]
fn a_chapter_with_nothing_highlighted_is_left_alone() {
    let pages = vec![page("one", "prose\n")];
    let rendered = vec![Vec::new()];
    assert!(matches!(splice_chapter(&pages, &rendered, 0, "one", "prose\n"), Ok(None)));
}

#[test]
fn a_chapter_out_of_step_is_an_error() {
    let pages = vec![page("one", "prose\n")];
    let rendered = vec![Vec::new()];
    match splice_chapter(&pages, &rendered, 0, "other", "prose\n") {
        Err(SpliceError::WrongChapter { expected, found }) => {
            assert_eq!(expected, "one");
            assert_eq!(found, "other");
        }
        _ => panic!("expected a wrong-chapter error"),
    }
    assert!(matches!(
        splice_chapter(&pages, &rendered, 1, "one", "prose\n"),
        Err(SpliceError::ShapeChanged)
    ));
}

#[test]
fn a_range_that_no_longer_fits_the_chapter_is_an_error() {
    let content = "intro\n\n```rust\nfn f() {}\n```\n";
    let pages = vec![page("one", content)];
    let rendered = vec![vec!["<pre/>".to_string()]];
    match splice_chapter(&pages, &rendered, 0, "one", "short") {
        Err(SpliceError::Replace { chapter, error }) => {
            assert_eq!(chapter, "one");
            assert!(matches!(error, ReplaceError::OutsideDocument { .. }));
        }
        _ => panic!("expected a replacement error"),
    }
}

#[test]
fn task_ranges_lie_inside_the_chapter() {
    let content = "- item\n\n  ```rust\n  fn f() {}\n  ```\n\nand ```c`int x;``` inline\n";
    let found = scan(content);
    assert_eq!(found.len(), 2);
    assert!(found.iter().all(|t| t.range.start <= t.range.end && t.range.end <= content.len()));
}

#[test]
fn a_chapter_without_code_has_nothing_to_set_up() {
    assert!(!has_code("# Title\n\nJust prose, *emphasis* and a [link](x).\n"));
    assert!(has_code("text\n\n```rust\nfn f() {}\n```\n"));
    assert!(has_code("an `inline` span"));
}
