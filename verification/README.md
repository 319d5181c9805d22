# nautilus

The query-planning core of the Nautilus database engine, written in Verus:
the pieces that turn a request's JSON arguments and a model's schema into
SQL statements and back into JSON results, each with a contract that Verus
proves.

- `src/` is the library. Its modules cover identifiers and SQL rendering for
  each dialect (`ident`, `render`, `statement`, `dialect`), request
  arguments (`args`, `query_args`, `typed_args`, `protocol`, `grouping`,
  `aggregate`, `order_target`),
  the conversion of input JSON into bound values (`conversion`, `field`,
  `record`), reads (`find_plan`, `count_plan`), writes (`write_input`, `write_plan`,
  `read_back`), nested writes (`nested_plan`, `relation`, `owning`,
  `owning_run`, `inverse`, `join_writes`, `join_run`, `payload`), the
  schema-aware reading of decoded rows (`normalize`), and the shaping of
  results (`hydrate`, `distinct`, `unique`).
- `tests/` runs the library on concrete requests.
- `app/` holds what the library leaves to its host: the `serde_json`
  boundary (including JSON text and double display in decoded rows), the
  system clock, and the loops that make the store calls the library decides
  (reads, counts, bulk creates, upserts, and the nested writes of each
  relation side).
