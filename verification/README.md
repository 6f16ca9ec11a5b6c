# adbc-spanner

The logic of an [ADBC](https://arrow.apache.org/adbc/) driver for Google Cloud Spanner, verified with
Verus: executable Rust whose contracts are proved.

- `src/` is the verified library. SQL is split, classified and quoted in `lexer` and `sql`, with the
  laws of splitting in `sql_laws`; `interval`, `conversion` and `staleness` read and write values;
  `options`, `request`, `retry`, `timeouts`, `directed_read`, `query_options` and `config` hold the
  settings of a connection and its statements; `discovery`, `objects`, `info`, `metadata` and
  `nested` make up metadata results; `guard`, `handle`, `entry`, `exported_error`, `stream` and
  `bound` decide what the entry points of the C interface do; `runtime` decides about cancelling and
  prefetching.
- `app/` is ordinary Rust around it: pointers and callbacks of the C interface, the asynchronous
  runtime, floating point, and conversions to the types of other crates. It is generic over the
  `adbc_core` traits.
- `tests/` runs the library from outside.

Arrow arrays are built and validated by the Arrow crates, and RFC 3339 timestamps are read by
`chrono`. What the library believes of those calls stands in the contracts of the few functions that
make them, in `arrow`, `bound`, `guard`, `staleness` and `text`.

Doubles are carried as their IEEE 754 bits, and durations and doubles are converted outside the
library: functions that depend on such a conversion take its result as an argument.
