# codex-tools

Tools around the local data of Codex: the sync of a provider over sessions and
their index, the switch of a relay in `config.toml`, a quota estimate, and the
encrypted copy of sessions to a cloud service.

- `src/` is the library, verified with Verus: what is computed and decided, with
  contracts.
- `tests/` runs the library on concrete values.
- `app/` is the program around it: files, processes, the database, the network
  and the terminal.

Calls into other crates stand behind functions marked
`#[verifier::external_body]`. Their doc comments say what is taken for granted.
