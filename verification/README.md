# sat_core

Random k-SAT formulas in conjunctive normal form, verified with Verus.

- `src/cnf.rs`: drawing a formula from a seed with ChaCha8 or PCG64
  (`Cnf::new`; the clauses are a function of the arguments, stated over names
  for what each draw of the generator gives), and its DIMACS CNF text
  (`Cnf::to_dimacs_string`).
- `src/dimacs.rs`: reading DIMACS text back (in spec), and the law that the
  text of a formula reads back to it.
- `src/solvers/fixstars.rs`: the `Authorization` header value of an access
  token, the constraints that the Fixstars Amplify service is
  asked to meet for a formula (one exactly-one constraint per clause, one
  contradiction constraint per pair of complementary cells; they can be met
  exactly when the formula is satisfiable), and how its answer is read.
- `src/solvers/kissat.rs`: what is read from each line of Kissat's output (the
  process time and the verdict), as a step function over the lines.
- `src/solvers.rs`: a solver's output and its CSV record.
- `src/grid.rs`, `src/random.rs`: the trusted calls into `ndarray`, `rand`,
  `rand_chacha` and `rand_pcg`; a generator is held with the seed it was made
  from and the requests made of it so far.
- `app/`: the Python module (pyo3), the HTTP client of the Fixstars service, the
  Kissat process, and the conversions that go through floating point.
