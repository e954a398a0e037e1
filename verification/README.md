# trading_bot

A trading bot for USD-margined futures. The library in `src/` is verified with Verus: what
the bot computes and decides is stated in contracts and proved. `app/` is the program around
it: configuration files, HTTP, websockets, channels and logs.

## The library

| Part | Modules |
| --- | --- |
| Numbers and text | `decimal`, `rounding`, `extended`, `arith`, `quant`, `figures`, `numbers`, `text`, `encoding`, `json`, `assoc` |
| The exchange | `rules`, `symbol_info`, `query`, `signing`, `api_errors`, `venue`, `positions`, `leverage`, `connection`, `user_stream`, `account` |
| Orders | `placing`, `flatten`, `exec`, `order_analysis`, `follow_orders`, `closing` |
| The market | `depth`, `liquidation`, `cache`, `metrics_cache` |
| Strategy and risk | `strategy`, `signals`, `risk`, `margin`, `profit`, `backtest` |
| The bot at work | `config`, `initialization`, `event_bus`, `supervision`, `metrics`, `analyzer`, `log_lines`, `log_analysis`, `report` |

Amounts are decimal numbers (`decimal::Dec`). Their arithmetic is that of `rust_decimal`; a
result that it cannot hold is `None`, and the functions above it say what they do then. How a
result is rounded is stated in `rounding`. Where a division by zero has a meaning, `extended`
adds the infinities.

Work that needs the exchange is split. `placing`, `flatten`, `exec`, `leverage`, `venue` and
`user_stream` hold a state and say what is to be done next; the program does it and hands
back what came of it. Times and answers come in as arguments.

Laws that span functions are the public proof functions whose names begin with `law_`.

What is taken on trust: the wrappers of `rust_decimal` in `decimal`, those of `hmac`, `sha2`,
`hex` and `serde_urlencoded` in `signing`, that of `urlencoding` in `query`, and the
specifications of three functions of std in `text` and `placing`.

## Tests

`tests/` runs the library on concrete values, with the outside crates linked.
