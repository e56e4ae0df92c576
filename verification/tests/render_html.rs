use mdbook_nvim_treesitter::highlight::canvas::Span;
use mdbook_nvim_treesitter::renderer::render_html;
use mdbook_nvim_treesitter::renderer::render_html::{block, class_attribute, code_classes, render, sanitize};

fn span(range: std::ops::Range<usize>, group: Option<&str>) -> Span<'_> {
    Span { range, group }
}

#[test]
fn dotted_groups_become_nested_classes() {
    assert_eq!(class_attribute("keyword"), "ts-keyword");
    assert_eq!(
        class_attribute("keyword.function"),
        "ts-keyword ts-keyword-function"
    );
    assert_eq!(
        class_attribute("variable.parameter.builtin"),
        "ts-variable ts-variable-parameter ts-variable-parameter-builtin"
    );
}

#[test]
fn class_names_are_sanitized() {
    assert_eq!(
        class_attribute("markup.raw.block"),
        "ts-markup ts-markup-raw ts-markup-raw-block"
    );
    assert_eq!(class_attribute("Odd Name"), "ts-odd-name");
}

#[test]
fn wraps_only_the_highlighted_spans() {
    let source = "let x";
    let spans = [span(0..3, Some("keyword")), span(3..5, None)];
    assert_eq!(
        render(source, &spans),
        "<span class=\"ts-keyword\">let</span> x"
    );
}

#[test]
fn escapes_markup_characters() {
    let spans = [span(0..13, None)];
    assert_eq!(render("a<b>&c\"d\'e", &spans[..0]), "");
    assert_eq!(
        render("a<b>&\"c", &[span(0..7, None)]),
        "a&lt;b&gt;&amp;&quot;c"
    );
}

#[test]
fn newlines_become_entities_so_the_output_is_one_line() {
    let rendered = render("a\nb", &[span(0..3, None)]);
    assert_eq!(rendered, "a&#10;b");
    assert!(!rendered.contains('\n'));

    assert_eq!(render("a\r\nb", &[span(0..4, None)]), "a&#10;b");
}

#[test]
fn a_block_is_one_line_with_the_highlightjs_opt_out() {
    let html = block(
        "rust",
        "fn f\n",
        &[span(0..2, Some("keyword")), span(2..5, None)],
    );
    assert!(!html.contains('\n'), "{html}");
    assert!(html.starts_with("<pre class=\"tree-sitter-block\"><code class=\""));
    assert!(html.contains("no-highlight language-none"));
    assert!(html.contains("tree-sitter-language-rust"));
    assert!(html.ends_with("</code></pre>"));
}

#[test]
fn an_inline_span_has_no_pre_wrapper() {
    let html = render_html::inline("rust", "x", &[span(0..1, None)]);
    assert_eq!(
        html,
        "<code class=\"no-highlight language-none tree-sitter-inline tree-sitter-language-rust\">x</code>"
    );
}

#[test]
fn a_language_id_is_safe_in_a_class_name() {
    assert!(block("c++", "x", &[span(0..1, None)]).contains("tree-sitter-language-c--"));
}

#[test]
fn out_of_range_spans_are_skipped_rather_than_panicking() {
    assert_eq!(render("ab", &[span(0..99, None)]), "");
}

#[test]
fn sanitizing_lowercases_and_replaces_everything_else() {
    assert_eq!(sanitize("C++ Code_1"), "c---code-1");
}

#[test]
fn a_block_and_an_inline_span_are_told_apart_by_class() {
    assert_eq!(
        code_classes("rust", false),
        "no-highlight language-none tree-sitter-code tree-sitter-language-rust"
    );
    assert_eq!(
        code_classes("rust", true),
        "no-highlight language-none tree-sitter-inline tree-sitter-language-rust"
    );
}
