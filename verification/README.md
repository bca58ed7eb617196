# query-graph-core

A verified library for query graphs: typed descriptions of a root source, the
relations around it, the fields a caller may project, and the constraints and
orderings that apply. A graph definition is checked and compiled once; query
operations (selection, ordering, parameters, paging) are checked against it,
planned, and rendered to parameterised SQL for SQL Server or Oracle. Graphs can
be composed: a root graph with batch relations whose child graphs are compiled
once the parent keys are known.

Every function in `src/` is verified with Verus against the contracts written
beside it, except two small wrappers around the standard library in
`src/text.rs` (`push_char`, which calls `String::push`, and `debug_quote`, which
formats a string as `Debug` does), whose contracts are trusted.

The contracts are stated over spec functions that describe each result directly: the issues a definition, mapping or operation has, in the order
they are reported; the relations a plan joins; the SQL text, bindings and
columns a statement carries.

## Layout

- `src/definition.rs`, `src/expression.rs`, `src/path.rs`, `src/scalar.rs`,
  `src/text.rs`: the data a graph is written in, and text helpers.
- `src/validation/`, `src/type_system.rs`, `src/type_validation.rs`,
  `src/analysis/`, `src/compiled_graph.rs`: the checks a definition passes and
  the compiled graph they produce.
- `src/mapping.rs`, `src/relational_graph.rs`: relational mappings of sources to
  tables and columns.
- `src/operation.rs`, `src/planner.rs`: query operations and their plans.
- `src/sql/`, `src/sql_server.rs`, `src/oracle.rs`: SQL dialects, rendering and
  compilation.
- `src/composition/`: composed graphs, their batch relations and plans.
- `app/`: JSON wire formats around the library (serde), which Verus does not see.
- `tests/`: tests of the library through its public interface.
