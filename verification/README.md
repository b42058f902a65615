# aero_compiler

A checker for AeroSchedule rule files (`.aero`): it tokenizes and parses a
rule set, loads the pilot, aircraft and flight tables from CSV, and reports
every entity that breaks a rule, as text or JSON.

The library under `src/` is verified with Verus:

- `lexer`: the token language of rule files; `tokenize` returns exactly the
  tokens (or the first lexical error) that `spec_tokenize` defines.
- `parser`: the grammar as spec functions over token sequences;
  `parse_rule_set` returns exactly their result.
- `ast`: the rule tree.
- `validator`: CSV loading (the `csv` crate behind one trusted wrapper),
  entity selection, rule evaluation, the check that rules fit the data, and
  the report, each against its spec; the filter laws are proved there.
  Numbers are compared in floating point; the library lists the pairs of
  numeric texts it may compare (`number_pairs`, `number_literals`) and takes
  their comparisons as facts, and a law shows that no other fact is read.
- `render`: the text and JSON reports.

`app/` is the `aerodsl` command line: it reads the files, computes the
floating-point facts, calls the library and prints the result.
