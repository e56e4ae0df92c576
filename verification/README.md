# mdbook-nvim-treesitter

An mdBook preprocessor that highlights code blocks and inline code with
tree-sitter grammars and nvim-treesitter's highlight and injection queries,
writing `<span class="ts-...">` markup that a stylesheet colours.

The decisions the preprocessor makes are a library whose behaviour is stated
in `requires` / `ensures` contracts and proved with Verus:

- `src/query` — what Neovim makes of a query: the `inherits` modelines and
  how query files are put together, the rewriting that makes a query
  compilable, Lua patterns and Vim regexes translated to the `regex` crate's
  syntax, the predicates (`#eq?`, `#match?`, `#any-of?`, ...) and the
  directives (`#set!`, `#offset!`, `#gsub!`).
- `src/highlight` — the paint canvas and its priority rule, the spans it
  yields, injected regions and their ranges, and the `@tree-sitter:` override
  markers.
- `src/renderer` — finding code in a chapter's Markdown, choosing its
  language, rendering HTML, and splicing the result back into the chapter.
- `src/registry`, `src/registry_build` — the language table: resolving code
  fence tags, and reading nvim-treesitter's `parsers.lua` and `filetypes.lua`
  into it; the generated modules and the pinned metadata.
- `src/store` — what a language needs installed and which parser symbol and
  cache key it has; `src/driver` — the settings, the rounds of installing
  embedded languages, and putting rendered chapters back.

`app/` is the program around it: argument handling, mdBook's JSON on stdin
and stdout, the caches on disk, `git`, downloads, and the tree-sitter runtime
that parses and matches. `tests/` runs the library on concrete inputs.
