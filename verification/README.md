# Tunnel

A tray-resident manager of SSH tunnels: each tunnel is one SSH host with several
port-forward rules, started and stopped on its own and connected again after a
failure until it is stopped.

- `src/` is the library: every decision the program takes, with contracts that
  Verus checks. It opens no socket, reads no clock and shows no window.
  - `manager`: the registry, with at most one runtime for each tunnel id.
  - `runtime`, `session`: one run of a tunnel as a state machine, and the way to
    a session with the server.
  - `forward`, `traffic`: listeners, connections, counters and rates.
  - `config`, `secret`, `commands`: tunnels, what is saved, and passwords at rest
    (AES-256-GCM under a key that is part of the program, which hides them from a
    glance and from nobody who has the program).
  - `tray`, `icon`, `number`: the menu, the aggregate status, and the icon, drawn
    in binary32 floating point that is carried out in integers. `fixed` and
    `centre` work out its middle pixel, from which it follows that the icon tells
    the statuses apart.
  - `text`, `keyed`: digits and prefixes; lists with distinct keys seen as maps.
- `tests/` runs the library on concrete values, the arithmetic and the icon against
  hardware floating point among them.
- `app/` is the program round it: tokio and russh in `tunnels.rs`, the file in
  `store.rs`, the desktop in `shell.rs`, and the types as they are written and
  sent in `model.rs`.

What the library takes on trust from other crates is marked `Trusted:` where it
stands: a random id from `uuid`, the cipher and its nonces from `aes-gcm`, and
`String::from_utf8`.
