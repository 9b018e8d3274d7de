# ccproxy

A reverse proxy for Minecraft: Bedrock Edition, with its logic verified in Verus.

- `src/` is the library. `packet` and `response` hold the codec of the Query
  Protocol, on top of `buffer`, `text`, `ip`, `socket` and `kv`. `handler` is the
  server side of a query, `exchange` the client side, and `proxy` the decisions of
  the proxy core. `foreign` holds the calls whose behaviour is taken as
  documented. `codec_laws` and `session_laws` state what holds across operations.
- `app/` is the server around it: sockets, timers and subsystems.
- `tests/` runs the library on concrete values.
