# mira_sharer

The host side of the Mira screen-sharing tool, with its core proved correct
by Verus.

- `src/` is the verified library:
  - `signaller.rs`: the room router of the embedded signalling server, as a
    state machine from (state, inbound envelope) to (state, replies,
    deliveries); `signaller_laws.rs` proves what it promises across calls
    (a free requested room is honoured; a sharer is never handed a live room,
    as long as the generated id is not itself live; a leaving sharer closes
    its room; a connection registers once; ...).
  - `auth.rs`: the session password, the chain of authenticators and the
    lists of pending and admitted viewers.
  - `admin.rs`: the fail-closed admin control plane and its constant-time
    bearer-token check.
  - `config.rs`: the configuration model, its defaults and the ICE server
    resolution.
  - `capture.rs`: frame pacing and the RGBA to NV12 (BT.601) colour conversion.
  - `text.rs`, `keyed.rs`: Unicode trimming, and keyed sequences as maps.
- `app/` is the program around it: command line, logging, the configuration
  file, the axum web server with its WebSocket loop and admin routes, and the
  async viewer manager.
- `tests/` runs the library on concrete values.
