# market_maker

The logic of a market making bot, verified with Verus.

`src/` is the library: every function states what it returns, and Verus proves
it, but for a few wrappers around functions of other crates, whose contracts it
believes:

- `decimal`: `less_than`, `checked_add`, `checked_sub`, `checked_mul`,
  `checked_div`, `settled_root`, `checked_ln`, `parse_decimal` and `format_decimal`,
  which call `rust_decimal`.
- `time`: `checked_sub_signed`, `signed_duration_since`, `hour` and `minute`, which
  call `chrono`.
- `text`: `to_lowercase` and `parse_i64`, and what `char::is_whitespace` is said to
  do, of the standard library.

The modules:

- `decimal`, `rounding`, `average`: the decimal numbers of `rust_decimal`, and what
  rounding keeps. Results are rounded half to even, but for one case: where the
  mantissa of a divisor has more than 64 bits, a quotient in the middle between two
  decimals may be either of them, and the contracts admit both.
- `time`: instants of UTC time, as `chrono` counts them.
- `table`, `text`: tables keyed by symbol, and texts.
- `domain`, `book`, `config`, `state`: the vocabulary of the bot.
- `factors`: volatility, flow, inventory skew and regime of a market.
- `fill_analytics`: how toxic the fills of each level of the ladder have been.
- `account_cleanup`: the steps that flatten an account.
- `binance_feed`: the steps of a feed of mark prices.
- `telegram`: notices to a chat and commands from it.

In each of the larger modules `model` says what is computed, over whole numbers,
and `laws` what holds of it.

`app/` is the code around the library: connections, clocks, wire formats, and the
one formula that needs floating point. `tests/` runs the library on concrete
values.
