# pi-oven client library

The logic of the pi-oven desktop client, written in Verus and proved against
its contracts:

- `editor` — the single-line input editor (UTF-8 text, byte-offset cursor,
  selection anchor) with an abstract model (`EditorModel`) and laws such as
  "backspace undoes a typed character" and "cut then paste restores the text".
- `utf8_text` — the character/byte-offset arithmetic of UTF-8 text that the
  editor is proved with.
- `widgets` — what each UI strip shows for a given width: tab strip, hotkey
  legend, status bar, input line, header; laid-out lines never overflow.
- `grid`, `backend`, `paint` — the cell grid a ratatui backend draws into and
  the styled runs the painter turns each row into.
- `net`, `protocol` — the WebSocket client's handshake, heartbeat and
  reconnect policy (jittered exponential backoff).
- `keys`, `shell`, `config` — key events to actions and commands, the event
  loop's timers, network settings, and the font-size setting of the config
  file.

`app/` is the program around it: the winit/wgpu window, the terminal mode,
the tokio WebSocket transport, clipboard and config-file I/O.
