# monokl (verified query front end)

The search-query language of monokl, a structural code-search tool, written
in Verus and proved against its contracts.

- `src/query/lexer.rs` — the lexer, specified by `next_token_spec` over the
  chars of the query; byte offsets are tied to the UTF-8 encoding.
- `src/query/parser.rs` — `parse`, specified by `query_terms`, with the
  term limit and the laws on regex and literal terms.
- `src/query/plan.rs` — `QueryPlan`, the split of terms by modifier.
- `src/output/agent.rs` — kind and visibility names, table-cell text.
- `src/error.rs`, `src/types.rs` — the error type and the symbol types.
- `src/text.rs` — UTF-8 offsets, char classes, string building.
- `app/` — serde and `std::error::Error` forms of the types, and the TOON
  table rendering, which need crates that the verifier does not read.
