# PassTUI

A keyboard-driven terminal interface for a `pass` password store, whose logic is
verified with Verus.

- `src/` is the library, verified: parsing of entries, `git` and `gpg` output, TOTP
  URIs and oathtool output, recovery codes, the entry editor, the text fields (UTF-8
  cursor, undo and redo), the store tree, its search and highlighting, favorites,
  themes, the configuration, and what the detail panel shows (never an OTP secret).
  The screens are a state machine: `screen::step_key` and `screen::step_paste` take
  the screen and a key or a paste and give the next screen and the outside work to
  do, `screen::step_main` decides what an action does with the selected row,
  `screen::step_result` takes the outcome of that work back (a result that arrives
  after the privacy lock is discarded), and `picker::picker_step` does the same for
  the quick picker. The idle limit is part of the steps: input that comes after it
  locks the screen first. `app/` runs the outside work on a worker thread.
  Secrets that the library drops (undo history, cleared fields, drafts, the open
  entry, decoded OTP secrets) are wiped with `zeroize` first; `app/` keeps the
  secrets it handles in `Zeroizing` buffers. Every
  public function states what it returns in its contract, except the clipboard
  session handle, whose revoked flag another thread may set at any time. Laws that
  relate several calls (undo takes back an edit, toggling a recovery code twice
  changes nothing, toggling fails exactly past the last code, errors never carry
  secrets, saving an edited entry keeps its recovery codes and their marks, ...) are
  proof functions.
- `app/` runs the terminal, the `pass`, `git`, `gpg` and `oathtool` processes, the
  files and the clipboard helper, and hands their results to the library.
- `tests/` runs the library on concrete values.

The calls into other crates that the library makes (`rand`, `zxcvbn`, `zeroize`) and the few
std functions that vstd leaves unspecified stand behind small trusted wrappers, each
with a doc comment that says what its contract assumes.
