# icie

The logic of a competitive programming helper for the editor, verified with Verus.

- `src/` is the verified library:
  - `auth`: names of the secrets kept in the editor's secret storage, and the
    index of all entry names (recording, listing in order, deleting), with the
    laws that relate them.
  - `compile::options`: the language standards and build profiles and their flags.
  - `ci::exec`, `ci::test`: what a run gives back and how a test is judged.
  - `debug`: command lines of GDB and RR, and how a failed recording is recognised.
  - `test::view::manage`: the messages of the test view.
  - `text`, `path`: splitting, joining, ordering, searching and trimming text; file stems.
- `app/` performs what the library decides: secret storage and prompts behind
  traits, processes, files and the view's JSON messages.
- `tests/` runs the library on concrete values.
