# dprint_ts_parsing

The parsing side of a TypeScript/JavaScript formatter, written in Verus.

- `syntax`: which syntax and parse mode a file name resolves to, with an
  extension given in place of the name's own, and the JSX retry of a failed
  parse.
- `path`: the components of a path, its file name, and the `file:`
  specifier shown in diagnostics (percent encoded).
- `text_info`: source text with where its lines are, kept by dprint-swc-ext's
  `SourceTextInfo`, turning byte positions into lines and columns.
- `diagnostics`: syntax diagnostics and their rendering, with the lines of
  the range underlined.
- `import_groups`: compiling `module.importGroups` into categories and glob
  sets, with diagnostics about the configuration.
- `parse`: parsing with swc, keeping the syntax errors that are safe to
  format through and refusing the others.
- `format`: the decisions made around the formatter: what a program must
  have captured, and what is returned for its output.

Formatting itself (`format_text`, `format_parsed_source`, `format_program`
and `trace_file`) is not part of this crate: it runs the code generator and
printer of the plugin and its configuration, which are not here. The
decisions that formatting makes around them are in `format`.
