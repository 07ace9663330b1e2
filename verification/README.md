# py5

A minimalist Python interpreter. The library in `src/` holds its logic,
with contracts checked by the verifier; the command in `app/` runs scripts
with it.

## Layout

- `src/text.rs`: character classes and decimal rendering.
- `src/lexer.rs`: source text to tokens, with `Indent`/`Dedent` from the
  indentation; its contract is a functional model of the whole tokenizer.
- `src/ast.rs`, `src/parser.rs`: the syntax tree and a recursive-descent
  parser; each parsing method's contract is the corresponding spec function
  of a grammar model, which follows the same rules. Decorators (`@expr`
  lines before a `def` or `class`) and `yield` statements are part of it.
- `src/value.rs`: runtime values and exceptions.
- `src/table.rs`, `src/heap.rs`: name-to-value tables, and the heap of lists,
  dicts, classes, instances, scopes and functions, with the laws of variable
  lookup and assignment.
- `src/call.rs`: binding call arguments to parameters.
- `src/objects.rs`: attribute and item access, built-in methods of lists,
  dicts and strings, `isinstance`.
- `src/rules.rs`: `except` clause selection, relative imports, f-string
  pieces, JSON words, `range`, string splitting and joining.
- `src/json.rs`: the text `json.dumps` gives, with floats left to the caller.
- `src/builtins.rs`: `len`, `range`, `type`, `isinstance` and the exception
  constructors; `print`, `open` and `str` are left to the caller.
- `src/show.rs`: the text a value prints as, with floats, builtins and files
  left to the caller as pieces.
- `src/machine.rs`: the evaluator, as a state machine. Each `step` runs one
  task (statements, expressions, loops, `try`, calls, unpacking,
  comprehensions, f-strings, decorators, generators) and asks its caller for
  the work it cannot do: arithmetic on floats, comparisons that involve a float or an
  integer beyond 2^53, `print`, `open` and `str`, files, module
  sources, the text of floats and of instances whose class defines
  `__str__`.
  A decorator's value replaces the name the definition bound. Generators are
  eager: calling a function whose body holds `yield` runs the body to its end
  and gives the list of the values it yielded, which a `for` loop then walks.
- `app/`: the loop that drives the machine and does that work, `print`,
  `open` and `str`, the module cache and loader, the built-in modules
  (`math`, `time`, `os`, `sys`, `json`) and `main`.

## Running

The command takes the path of a script: `py5 script.py`.
