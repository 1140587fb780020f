# planner

Plans Factorio production lines from the game's prototype dump, and draws
them as Graphviz digraphs.

- `src/` is the library, verified with Verus: the tables of items, fluids,
  recipes and machines (`database`), reading a dump into them (`dump`),
  planning (`plan`, `config`, `line`), finding icon files (`icons`) and the
  digraph text (`export`). Amounts are of any type that implements
  `Quantity`; the library proves what it does with them whatever numbers
  that type's operations return.
- `app/` is the part around it that the verifier does not see: amounts as
  `f64`, rates, reading the dump's JSON from text, readers and files, error
  messages, and writing a digraph to a writer.
- `tests/` runs the library on concrete inputs.
