# couchbase_shell

The verified core of a Couchbase shell, written in Verus.

- `src/` is the library. It holds the paged tutorial, the conversions between
  JSON documents and the shell's values, and what each command decides: which
  clusters a command addresses (by regular expression over their identifiers),
  which bucket, scope and collection it uses, the rows it shows for clusters,
  buckets and nodes, and how a command that asks several clusters in turn
  reacts to each answer. Every function there carries a contract that Verus
  proves; `roundtrip.rs`, `tutorial.rs`, `use_bucket.rs`, `clusters.rs` and
  `convert.rs` also state laws that relate several operations or hold of
  every state. Documents, shell values and the shell's state each have a
  well-formedness predicate (`json_well_formed`, `nu_well_formed`,
  `State::well_formed`): distinct names, as maps and dictionaries have them,
  numbers in the one form a JSON parser gives them, and large whole numbers
  written out in decimal. The conversions produce only well-formed values,
  and `State::new`, `State::add_cluster` and `use_bucket` only well-formed
  states.
- `app/` is ordinary Rust around it: `serde_json` values and JSON decoding,
  the couchbase SDK's bucket manager, and the loops that send requests and
  hand the answers to the library.
- `tests/` runs the library on concrete values.

Floating-point numbers never enter `src/`: a decimal or a JSON float is
carried as the bits of its IEEE-754 double, and the library computes on
those bits with whole numbers: the double nearest to a large `u64`, the
double equal to a byte, and a decimal rounded to `f32` precision (ties to
even) on its way to JSON, with the range check that goes with it.
