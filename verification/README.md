# prompt_compiler

Compiling, composing, validating and versioning prompt templates for LLM
workflows, written in Verus: the library under `src/` carries contracts that
Verus proves.

- `template`: templates with `{{variable}}` placeholders and typed variables
  (string, number, enumeration); rendering fills values and defaults.
- `token_budget`: token estimates (bytes per token and word count), budget
  checks, and truncation at sentence or word boundaries that always fits.
- `composer`: several templates joined into one prompt, or chained so that
  each stage sees the previous output as `{{previous_output}}`.
- `compiler`: templates, values, a separator and an optional budget in, one
  prompt out; optional strict checks.
- `validator`: duplicate, undefined and missing variables, blank bodies,
  excessive lengths, pipeline depth and circular references.
- `version`: a history of template versions with section-level diffs and
  rollback.
- `strmap`, `text`, `number`: an insertion-ordered string-keyed map, text
  operations (whitespace, UTF-8 lengths, replacement, lines) and the grammar
  of decimal floating-point literals.

Placeholders are found with the `regex` crate and snapshot times come from
`chrono`; both calls sit behind small trusted wrappers. `app/` holds serde
forms of the data types and `std::error::Error` forms of the errors.
