# ego_cli

Line editing for command-line applications, with its behaviour stated as
Verus contracts and proved.

- `src/` is the verified library: the key decoder (`decode`), key presses
  and modifiers (`key`), the keymap (`keymap`), the line editor with undo and
  history walks (`editor`, `history`, `segment`), the renderer (`render`),
  colours and widths (`style`), completion and highlighting hooks
  (`extend`), terminal capabilities and the in-memory terminal (`term`),
  the session's decisions (`session`), the small command shell built on the
  same pieces (`shell`), and the demo prompt's commands (`demo`).
- `app/` is the program around it: waiting on real terminals, the async
  read loop, stdio, the full-screen shell drawn with ratatui.
- `tests/` runs the library on concrete inputs.

Each module states its model as spec functions over sequences of chars,
and the public functions' `ensures` say what they return and how they
change their receiver in terms of that model. Properties that relate
several calls are public proof functions named `law_*`.
