# rt_vt

The verified core of a terminal emulator's pane logic, written in Verus.

- `select` — how the selection head moves while an anchored selection is composed.
- `grid_text` — the text of a linewise or block selection, and substring search over a pane's lines.
- `damage` — per-line damage between two rendered frames, widened by the cells the cursor left and entered.
- `pane` — viewport and history line mapping, cursor placement, colour folding, scroll centring, the PTY write loop's steps, the event queue and its once-only exit report, PTY window sizes.
- `prefs` — the scrollback memory estimate shown in the preferences dialog.
- `screen`, `conformance`, `vendored`, `attr` — the engine-neutral observed screen state, the VT engine interface, the seeded xterm/ECMA-48 conformance table with its checks, and the `alacritty_terminal` engine it is run against.
- `text` — the renderings (decimal, binary, `{:?}`) and trimming that messages and selections are built from.

`app/` holds what the verifier does not see: the PTY-backed pane over the in-house `vt_term` engine, the egui preferences dialog, and the `f32` layout rectangle.
