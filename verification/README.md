# atcli_judge

The judge of a command-line tool for solving AtCoder problems in C++: it
compiles a solution, runs it on the sample cases of a problem, and says
what became of each case.

- `src/` is the verified library. It holds the judge's decisions on
  values: which files of a test directory are cases and in which order,
  how a run is classified, when two outputs agree and how they differ,
  where a sanitizer report or a debugger backtrace says the program
  crashed, which arguments the compiler and the debugger get, what a
  compiler's dependency file lists, how the build cache is keyed and when
  it can be reused, how the results add up, and the messages of its
  errors. Every function there has a contract, and the properties the
  judge relies on are proved as lemmas: normalizing is idempotent,
  trailing whitespace never matters, the first line naming a position in
  the solution wins and lines about other files (including files whose
  names end in the solution's own) are skipped, every outcome is counted
  once, and a stored fingerprint reads back as itself.
- `tests/` runs the library on concrete values.
- `app/` runs the compiler, the solution and the debugger, reads and
  writes files and prints results, taking its decisions from the
  library. Comparing numeric tokens within a floating-point tolerance,
  and turning a timeout into a `Duration`, stay there.
