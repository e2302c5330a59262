# gqlitedb

The query compiler and part of the expression evaluator of an embedded graph database for
OpenCypher queries, written in Verus with their behaviour stated in contracts and proved. The
library takes queries already parsed into statements: it holds no parser and no storage backend.
Of the evaluation of a program against a store it holds the decisions of the blocks that take
what the store gives as arguments (`program`): `UNWIND`, the keys that `DELETE` removes, the
check of `USE`, `CALL`, the expressions of `RETURN` and `WITH` on a row and the table that
`RETURN` gives; and (`matching`) the rows that `MATCH` makes of the nodes and edges the store
selected and the filters of its patterns (`rows::filter_matched`), the end of an optional match, what `CREATE` sets and creates, label updates and `SKIP`.
The loop that asks the store is not part of it; `connection` holds the automatic choice of a
backend as steps.

Layout of `src/`:

- `ast`, `patterns`, `expression`, `statements`: the syntax of statements, with their models.
- `variables_manager`, `expression_analyser`, `functions`: the analysis of variables, of the
  types of expressions and of function calls.
- `compiler`, `statements`: the compilation of statements into blocks of stack instructions
  (`instructions`), up to a whole program (`statements::compile`).
- `evaluators`, `interpreter`: the evaluation stack and the execution of instructions against a
  row and the parameters: stack moves, literals, ranges, function calls (`builtins`), arithmetic
  (`arithmetic`, through graphcore's operators) and aggregations (`aggregators`). Member access,
  comparisons and list membership are not evaluated. `rows`: the filtering of rows by a
  `WHERE` expression and the counts of `SKIP` and `LIMIT`.
- `value`, `store`, `query_result`: values, maps, nodes and edges; node and edge selections; the
  results of queries.
- `connection`: the options of a connection and the plan for opening its store; `cli`: the
  line-by-line steps of the command-line reader; `gqb`, `query_builder`: the query builder, which
  writes OpenCypher text and numbers the parameters it binds.
