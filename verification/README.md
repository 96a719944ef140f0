# ruggine

An invitation-based group chat. The library (`src/`) holds the chat's
decisions, verified with Verus:

- `message` — the messages that clients and the server exchange;
- `server` — the server's tables (users, groups, invitations) and its
  transition for each received message, with the laws it keeps;
- `client` — the terminal client's session and its command line;
- `gui` — the window's state, its transition for each event, and what it shows;
- `protocol` — one message per line;
- `text`, `table` — trimming and splitting of text, and the ordered tables
  that the state machines are built on.

`app/` runs the three programs (`server`, `client`, `gui`) around the
library: TCP with tokio, JSON with serde, the window with iced, and CPU
logging with sysinfo.
