# ambient_proxy

A NAT traversal proxy for a game engine. Game servers connect to the proxy over QUIC and ask it to
allocate an endpoint; players connect to that endpoint, and the proxy relays their streams and
datagrams. The assets of a game are stored on the proxy, on request or ahead of time, and served over
HTTP.

- `src/` is the library, verified with Verus: the messages and their bytes (`protocol`, `wire`,
  `bytes`, `streams`, `messaging`), an allocation with its players and assets (`proxy`, `player`,
  `asset_store`, `assets`, `ports`, `ids`), the management of allocations and the HTTP interface
  (`management`, `http`, `telemetry`, `configuration`), and the side of the game server (`client`,
  `pending`, `paths`). Functions whose names start with `law_` state what holds across calls.
- `app/` is the program around it: sockets, tasks, files, the clock, metrics and logs.
- `tests/` run the library.
