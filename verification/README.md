# supurr

A trading bot engine for Hyperliquid, written in Verus. Strategies receive events and give
commands; the engine places, cancels and tracks their orders, books the fills, and reports
upstream. The same engine runs live, on paper and over past prices.

- `src/` is the library. The contracts of its functions are proved by Verus; what comes from other
  crates stands behind small wrappers whose doc comments say what is taken on trust. Of two of
  these, the clock (`now_ms`) and chance (`random_word`), nothing is claimed.
- `tests/` runs the library.
- `app/` is the program around it: arguments, files, HTTP, timers and signals. It asks the library
  what to do next (`phases`), does it, and hands back what came of it (`runner`).

Where to look:

| module | what it holds |
| --- | --- |
| `decimal`, `text`, `strmap`, `json`, `wire`, `types` | numbers, texts, maps, JSON and the common types |
| `commands`, `events`, `context`, `engine`, `state` | strategies, and the engine that calls them |
| `order_manager`, `inventory`, `deferred`, `poll_guard` | orders, balances, what is put off, and polling |
| `runner`, `phases`, `backtest`, `performance`, `trade_laws` | the loop, its order, and the figures of a run |
| `margin`, `cash_laws`, `fill_simulator`, `paper_exchange`, `mock_exchange`, `quote_source` | simulated exchanges |
| `market`, `hl_types`, `hl_client`, `hl_signing` | markets, requests, replies and signatures |
| `sync`, `trade_syncer`, `account_syncer`, `mock_syncer` | reports to the upstream service |
| `config`, `startup`, `wasm_api`, `orchestrator` | configuration, start, and groups of strategies |

Laws that span several functions are public proof functions whose names begin with `law_`.

A strategy is only known by its trait. The trait's ghost method `acts` stands for what a call of it
can do; the contracts of the engine and of a group say through it which strategies are called, with
what they see, and in which order.

Amounts are decimal numbers of at most 96 bits. Functions that compute with them come in two
forms: `try_...` says when a number gets too large, and the plain form asks that none does.
