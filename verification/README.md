# json_eval_rs

The verified core of a JSON Logic engine: the compiler from JSON logic to a
typed expression tree, the analyses run on compiled logic, a store that
deduplicates compiled logic, tracked and versioned data, an LRU evaluation
cache, and the dependency ordering of a schema's evaluations into batches that
can run in parallel.

Layout:

- `src/` — the library, verified with Verus. Its main modules:
  - `compiled`, `analysis`, `forward`, `compiler_laws`, `compiled_clone`:
    the compiler and what is computed from compiled logic (referenced
    variables, forward references), with the laws they keep.
  - `json`, `json_text`, `paths`, `path`, `text`: JSON values, their text
    form, variable paths and string helpers.
  - `compiled_logic_store`, `logic_store`: stores of compiled logic.
  - `data_wrapper`, `cache`, `timing`, `config`, `types`: tracked data, the
    evaluation cache and configuration.
  - `topo_sort`, `schema_graph`: the dependency graph of a schema, its
    depth-first ordering in phases and its parallel batches.
  - `evaluate`, `pointer`, `logic_parts`: the evaluator of compiled logic,
    run as a state machine. Variable and `$ref` lookup by JSON pointer,
    `missing`/`missing_some`, `if`, `and`/`or`, `!`, `xor`, `===`/`!==`,
    `ifnull`, `isempty`, `map`/`filter`/`reduce`/`all`/`some`/`none`, `merge`
    and array literals are decided and verified here. Every other operator
    (arithmetic, loose comparison, text, date and table operators) is handed
    to the caller as a request, with its operands already evaluated; the
    caller's answer is fed back in with `eval_step`. `FOR` is reported as an
    error rather than evaluated.
  - `table_plan`: the table evaluator's decisions: the row and column plans
    of a table, the spread of forward references between columns, and a state
    machine that orders the sweeps and says what to evaluate and write next.
- `tests/` — tests of the library.
- `app/` — what stays outside the verified library: process-wide state behind
  locks, timing output, conversions to and from `serde_json::Value`, the
  floating-point coercions of JSON values, the runner that answers the
  evaluator's requests for arithmetic, loose comparison, `in`, `cat`,
  `substr`, rounding, `max`/`min` and lengths, and the loop that runs the
  table state machine against an evaluator and the tracked data.

Not carried over: the `JSONEval` subform methods and `CustomOps`, whose
sources are not part of this project; the bytecode compiler and interpreter
for tables; the evaluator's table-scope shortcuts and its static-array store;
and, in app/, the date, text-splitting and table-lookup operators (the
evaluator asks for them, and the runner in app/ answers that it does not
evaluate them).
