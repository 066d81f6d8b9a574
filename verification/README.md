# Ulti

The verified core of Ulti, a terminal emulator for agent-focused terminal
workspaces.

- `src/` is the library, checked by Verus:
  - `geometry`: window size to terminal grid size;
  - `input`: key presses and characters to terminal input bytes;
  - `session`: the terminal session trait and its errors;
  - `pane`: one pane's session and `vt100` parser;
  - `events`: the command that each window event asks of the window loop;
  - `render`: drawing the parsed screen into an RGBA framebuffer.
- `app/` is the program around it: the winit window and event loop, the
  pixels framebuffer, font loading and glyph rasterization, and the PTY-backed
  shell.
- `tests/` runs the library on concrete values.
