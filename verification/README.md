# xlstream

The verified core of a streaming Excel formula evaluator, written in Verus.

`src/` is the library; every function in it carries a `requires`/`ensures`
contract that Verus proves:

- cell addresses (`A1` to column and row and back), cell errors, options;
- the formula lexer behind streaming-equivalence of formulas, and formula
  templates whose relative row references are re-based row by row;
- criteria strings of `SUMIF`/`COUNTIF` and their wildcard patterns;
- the information functions `ISBLANK` ... `TYPE` and the counts `COUNT`,
  `COUNTA`, `COUNTBLANK`, over the kind of each value;
- the Excel 1900 calendar (with its fake 29 February 1900) and the date
  functions `WEEKDAY`, `EDATE`, `EOMONTH`, `DATEDIF`, `NETWORKDAYS`,
  `WORKDAY`; `HEX2DEC`/`DEC2HEX`; `LEFT`/`RIGHT`/`MID`/`LEN`; the units of
  `CONVERT` with exact factors;
- lookup keys and the exact and approximate indexes of lookup sheets;
- the row sharding of parallel evaluation and the collector that writes
  rows back in order; the choice of the main sheet;
- the seeded generator and tiers of the benchmark fixtures.

The `law_*` proof functions state properties that relate several
operations (round trips, first match wins, every row to exactly one
worker, ...).

`app/` is ordinary Rust around the library: cell values with `f64`
numbers, coercions, argument handling of worksheet functions, the error
type's `Display`, and the fixture workbook writer. `tests/` exercises the
library on concrete values.

Not here: the evaluation pipeline itself (`evaluate`, the formula
interpreter, the prelude of aggregates, the loading of lookup sheets from
workbooks, the command line and the Python bindings). It runs over the
formula syntax trees of the `xlstream-parse` crate and the workbook reader
and writer of the `xlstream-io` crate, and over the project's topological
sort and scope analysis; none of their sources was available to build on.
What that pipeline decides on plain values (the main sheet, when to go
parallel, how rows are sharded and written back in order, formula templates
and streaming equivalence) is in `src/`.
