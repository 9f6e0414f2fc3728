# jr

The front end of a [J](https://www.jsoftware.com/) interpreter, written in
Verus: every function of the library carries a contract that Verus proves.

- `src/` is the verified library: the scanner (and the first, simpler
  scanner under `proto`), the tables of primitives and foreigns, gathering
  of control structures, explicit and direct definitions, the parsing table
  and the parser's stack machine, names and locales, the input a sentence
  waits for, frames, cells and the filling out of results, the display of
  integer, character and box arrays, gerunds, and the bookkeeping of several
  adverbs and conjunctions.  Public proof functions named `law_*` state
  properties that span functions (what an assignment gives back, that
  gathering changes nothing without control words, that the words of a
  sentence lie in order, ...).
- `app/` is the terminal program around it: the line editor, the evaluation
  loop that performs what the parser's rules call for, and the values
  themselves (held as ndarray arrays, floating point included).
- `tests/` exercise the library on concrete values.

The primitives' implementations are not part of this code base, so the
program evaluates nouns, names, assignments, control blocks and explicit
definitions, and reports a nonce error where a verb would be applied.
