# proarbitrage

Options arbitrage in verified Rust: the library in `src/` states what each function computes and
Verus proves it.

- Pricing surface: `ingestion`, `calibration`, `lp`, `activation`, `pricing`.
- Structures and portfolios: `structures`, `portfolio`, `execution`, `performance`, `backtest`.
- Features and scoring: `features`, `model`.
- Boxes and butterflies: `market`, `scanner`, `trader`, `instruments`, `feed`, `replay`, `report`,
  and the search for thresholds in `optimizer` and `swarm`.
- Foundations: `number`, `exact`, `decimal`, `ranking`, `calendar`, `text`.
- Laws that span several functions: the modules whose names end in `_laws`.

The library is generic over the numbers it works in. `number` says which operations it needs;
`decimal` has verified numbers of nine decimal places. Laws that hold of all numbers are stated of
all; the others over the reals, or over numbers whose arithmetic is exact. The programs in `app/`
work in floating point, whose arithmetic is not verified.

`app/` holds the programs: `live`, `replay`, `optimize`, `backtest`, `extract`, `integrate` and
`model`. They read files and the network, hand linear programs to the solver, and print.
`tests/` runs the library on concrete values.
