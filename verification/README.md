# blitzkrieg_core

The deciding part of a trading kernel for short-lived binary markets, verified with Verus: which
orders pass the gates, what a fill does to the cash and the accounting, when a position is closed,
how a resolved market is settled and redeemed exactly once, when the books count as broken, and what
an operator is told.

- `src/` is the library. Every function states what it returns and changes, over mathematical models
  of the kernel's state; laws that span several calls are public proof functions named `law_...`.
- `tests/` runs the library on concrete values.
- `app/` is the process around it: logs on disk, the clock, the event stream, the panel's JSON, and
  the traits of the components that the kernel decides for (order manager, ledger, position book,
  risk gate, matcher, strategy engine).

## Layout of `src/`

| modules | what they hold |
|---|---|
| `decimal`, `text`, `str_map` | numbers, texts and ordered maps |
| `model`, `config`, `service` | records, settings and the kernel's own state |
| `placing`, `submission`, `orders`, `rejections` | orders from the gates to the venue and back |
| `entries`, `exits`, `exit_reasons`, `limits` | market data, entries, closes and caps |
| `fills`, `fees` | what fills do to cash, positions and accounting |
| `settlement`, `settlement_laws`, `settling` | resolved markets, claims and redemptions |
| `audit`, `maintenance`, `lifecycle`, `startup`, `strategies`, `journal` | running the kernel |
| `views` | what a panel is shown |

Arithmetic is that of the `rust_decimal` crate. A function whose result could leave that crate's
range states the condition. Where the condition speaks of what the crate computes, a `checked_...`
function tests it and answers `None` where it fails; a caller of any other such function tests it
first, with `Decimal::can_plus`, `can_times` and their like.
