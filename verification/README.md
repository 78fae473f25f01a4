# lem-ratatui

The terminal display half of the Lem editor. Lem runs as a separate
process and speaks the `lem-server` JSON-RPC display protocol over stdio;
this program paints the frames it is sent into per-view cell buffers,
composites them onto the terminal, and sends key presses, resizes and
clipboard text back.

## Layout

- `src/` is the library, verified with Verus:
  - `framing`: `Content-Length` framing, byte-exact, with the law that a
    written message reads back unchanged.
  - `protocol`: the instruction and view types, and which method names
    the display decodes.
  - `style`, `paint`, `cells`: wire colours and attributes as cell styles,
    and painting runs of text into ratatui buffers.
  - `views`: the registry of views and the compositing of their layers,
    with its laws (floating windows on top, html views never painted,
    tiles showing through).
  - `frame`: applying one `bulk` frame to the registry.
  - `input`: key events as Lem key syms.
  - `metrics`: per-frame byte and decode-time totals.
  - `session`: the display loop's decisions, event by event.
  - `exit`: how the launcher reports the end of a session.
  - `decimal`: decimal digits, read and written.
- `app/` is the program around it: stdio transport, the terminal, the
  clipboard, JSON decoding of the protocol, the draw loop and the
  launcher that starts Lem beside the display.
- `tests/` exercises the library on concrete values.
