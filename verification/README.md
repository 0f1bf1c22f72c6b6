# omniconsole

A terminal emulator core with right-to-left (Arabic, Hebrew) support, verified
with Verus, and the iced application around it.

- `src/` — the verified library.
  - `terminal/` — the screen buffer (`buffer`, `lines`), the escape-sequence
    parser (`parser`) and its meaning as a function on values (`semantics`),
    the screen (`screen`), and the laws that span calls (`laws`, `split`).
  - `bidi/` — detection of right-to-left text, Arabic shaping and the visual
    order of a line (through `arabic_reshaper` and `unicode-bidi`).
  - `config/` — shell profiles and the settings values without floats.
  - `ui/` — what the interface decides: key bindings, tabs, labels, colours.
- `app/` — the program: the window (iced), the pseudo-terminal
  (portable-pty), the settings file (serde, toml, dirs) and the colour themes.
- `tests/` — tests of the library.
