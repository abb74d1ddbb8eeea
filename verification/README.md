# rust_arb_bot

A market-data service: it reads order books and prices from exchanges, keeps the latest
state per venue and asset, looks for price differences between a centralised and a
decentralised venue, and builds a weighted index price. Configuration comes from etcd and
can change while the service runs.

`src/` is the library, verified with Verus:

- `assoc_map` — a finite map kept as a list of distinct keys, with a `Map` view; all the
  state below is kept in it.
- `app_config` — the configuration, the environment-to-key mapping, and the watcher that
  decides which configuration updates are passed on.
- `order_book_collector` — the latest order book per source and asset, with staleness
  checks against a `Clock`.
- `order_book_feed` — the table of fetch tasks: what to start, pause, resume and stop when
  the configuration changes or a stop comes, and the steps a fetch task takes as its state
  flag changes.
- `binance_order_book_feed`, `decimal` — reading Binance depth updates; prices and
  quantities are fixed-point numbers with eight decimal places.
- `arb_bot` — the arbitrage decision, balances and lockout.
- `index_collector` — which feeds make up the index of an asset, their weights and
  smoothing, and the check that weights sum to 100.
- `price_feed`, `control`, `clock`, `worker`, `persistence_sender`, `web_state` — the
  smaller pieces the runtime uses.

`app/` is the runtime: tokio tasks, websockets and http, etcd, signals, the http server,
and the floating-point smoothing of the index (the `ta` crate).
