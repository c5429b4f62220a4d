# versionhub

Fetches the versions of a package from its registry (Go module proxy, Maven Central,
npm, crates.io) and, optionally, keeps only those within a version range such as
`>= 1.0.0, < 2.0.0`.

- `src/` is the verified library: package specifications (`structs`), the reading of
  each registry's reply (`ecosystems`), loose version parsing and range filtering
  (`versions`, with `semver` doing the parsing and ordering behind `semver_value`), JSON
  read by `serde_json` one level at a time (`json`), and the character-sequence toolkit
  they share (`text`). Contracts and laws are stated
  over `Seq<char>` views.
- `app/` is the command-line program: argument parsing, HTTP requests and output.
- `tests/` holds the tests.
