# mq-content-lint

A static content linter for Markdown, built on mq's Markdown tree and query engine, written in
Verus: the rules, the disable comments, fixing, the cache, the reports and the editor logic are
executable Rust with `requires`/`ensures` contracts that Verus proves.

Layout:

- `src/` — the verified library.
  - `lib.rs`: ranges, fixes, diagnostics, severities and the `Linter` that runs the built-in rules.
  - `message.rs`: rule ids, their names, descriptions and selectors, and every finding's message.
  - `rules.rs` and `rules/`: the built-in rules, each stated as a spec function over the
    document and the source text. 46 of the 55 rule ids have a rule. The other 9
    (`required_headings`, `reference_links_images`, `ul_indent`, `ol_prefix`,
    `relative_link_exists`, `proper_names`, `table_pipe_style`,
    `table_column_count`, `table_column_style`) are named, described and parsed like the others,
    but no rule is carried for them: `Linter::with_default_rules` runs the 46 rules it has, the
    catalogue lists only those, and explaining one of the 9 says it reports nothing.
  - `doc.rs`: the document model the rules read, filled from `mq_markdown`.
  - `custom_rules.rs`: rules written as mq queries, run through `mq_lang`.
  - `disable_comments.rs`: the `<!-- mq-content-lint-disable ... -->` directives.
  - `report_item.rs`, `runner.rs`: merging, suppressing, filtering by severity, and fixing pass
    after pass.
  - `fix.rs`: applying fixes to the source text.
  - `config.rs`: the configuration and its validation.
  - `cache.rs`: the per-file findings cache.
  - `report.rs`, `text_report.rs`, `catalog.rs`: report layouts and the rule catalogue.
  - `editor.rs`: what the language server shows for a document.
  - `laws.rs`: properties that relate several functions, stated and proved.
  - `text.rs`: the text utilities the rest is built on.
- `tests/` — tests of the library on concrete inputs.
- `app/` — the command line and the language server: files, terminal output, JSON, SARIF and
  RDJSON, argument parsing and the LSP transport.
