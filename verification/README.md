# Order book collector

A multi-symbol L2 order book collector for Binance USDT-M futures, with a verified core.

- `src/` is the library, verified with Verus: fixed-point price reading (`fixed_point`, `parser`),
  the books and how they stay in step with the exchange (`book`, `levels`, `model`), the registry
  of books (`manager`, `init_market`), clock correction and speed reports (`clock`), retries
  (`connection`), what is stored and announced (`storage`, `alert`, `utc`, `text`), and what holds
  over several operations (`laws`).
- `app/` is the program around it: WebSocket and REST traffic, Parquet files, alert channels,
  settings, and the floating-point arithmetic of the signals.
- `tests/` runs the library.

Quantities are doubles. The library carries them as bit patterns (`amount::Amount`) and only asks
whether one is zero; arithmetic on them is the program's.

The program reads `config.toml` and, for alerts, the environment variables `TG_BOT_TOKEN`,
`TG_CHAT_ID` and `SLACK_WEBHOOK_URL`; a channel that is not set is disabled.
