# stockkit

A small collection of market-data tools whose logic is verified with Verus:

- a commodity price service that scrapes daily prices of live pigs, corn,
  soybean meal, titanium dioxide and sulfur, stores them per commodity and
  shows their trend on a dashboard;
- a desktop stock ticker over the Sina quote feed, rotating through a watch
  list;
- a few exercises (a number-guessing game, a line search, bump arenas,
  rectangles and shapes).

## Layout

- `src/` is the verified library. Its functions carry `requires`/`ensures`
  contracts proved by Verus, except the small trusted wrappers through
  which it calls outside crates (`scraper`, `regex`, `encoding_rs`,
  `chrono`, `reqwest`) and `std` functions that Verus does not specify;
  their contracts are believed, not proved, and each one's doc comment says
  what it claims.
  - `text`, `number`: character-level string helpers and the grammar of
    decimal numbers.
  - `store`, `collect`, `trend`, `report`, `schedule`, `scrapers`: the commodity
    service (merging saved prices, trend verdicts, page texts, collection
    times, reading the price pages).
  - `quotes`, `watchlist`: the stock ticker (quote feed parsing, watch list
    state).
  - `align`, `arena`, `fixed_arena`, `geometry`, `grep`, `guess`: the
    exercises.
- `tests/` runs the library on concrete values.
- `app/` is the unverified shell: the web server, the ticker window, file
  and network I/O, floating point arithmetic, and the exercises' `main`s.
  `stockkit <program>` picks a program.
