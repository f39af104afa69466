# rusmt_lang

Executable reference semantics for two small object languages, IMP/WHILE and
TOML, and a replay arbiter that certifies candidate programs against named
error markers. The library is written in Verus: every function in `src/` is
verified against its contract, except three trusted wrappers in `src/text.rs`
around `String::push`, `String::from_utf8_lossy` and `format!("{:?}")`, whose
contracts are stated there, and the specification assumed for
`char::from_u32` in `src/toml/string.rs`.

* `src/imp/` — IMP: abstract syntax, a byte-level parser (`parse_imp_source`),
  a sorted-store evaluator with a loop budget (`eval_com`), and laws about
  them (only the two IMP markers fire; more budget never changes an answer).
* `src/toml/` — a TOML parser over the characters of a document; every
  rejection names the violated rule by a catalog marker. Each parsing
  function is specified by a spec function of the grammar rule it reads
  (`toml_spec` for a whole document); values are modelled by `ValueM`, tables
  as lists of bindings, and the merge of tables by `merge_tables_spec`.
* `src/markers.rs` — the marker catalog (name ↔ identifier) and `Path`, the
  set of markers that fired on a run.
* `src/certify.rs` — verdicts, their one-line wire form, replay of IMP and
  TOML candidates, the canonical observation strings, and the language
  registry.
* `src/imp_render.rs` — reading a solver model of an IMP program and printing
  it back as `.imp` source.
* `src/printed_parses.rs` — the proof that whatever `com_to_source` prints
  is accepted by the IMP parser (`lemma_printed_source_parses`), and that a
  command whose names are valid identifiers parses back to itself
  (`lemma_printed_source_round_trip`).
* `src/printed_names.rs` — the proof that the printer gives distinct names of
  a command distinct identifiers (`lemma_printed_names_distinct`).
* `src/marker_names.rs` — the catalog's names are distinct plain words, so
  looking a marker's name up gives the marker back.
* `src/rego.rs` — the arithmetic and comparison operators of the policy
  language.
* `app/main.rs` — the command-line front end (file I/O, process-isolated
  replay).
