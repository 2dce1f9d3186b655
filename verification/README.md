# gazm

A verified core of an assembler for the Motorola 6809 and 6800. The library
in `src/` is written in Verus: its functions carry contracts that Verus
proves, with one exception: `paint_bold` in `cli/styling`, which calls the
`colored` crate, has a contract that Verus takes on trust, together with
the name it gives the standard colour that crate picks as nearest.

- `assembler/` — the memory image (`binary`); the layout of a program
  (`sizer`, `plan`): sections, labels, instructions, `repeat`, `for`, `if`,
  `while`, `break` and `continue`, and the expressions they evaluate; the
  replay of the plan (`compile`): the directive of each planned statement,
  built from its operands, and its emission, CPU instructions included,
  with the map from statements to the addresses they fill; the
  shared opcode and operand writers (`opcodes`); fixups; the text of each
  error (`report`); messages; and the versioned envelope of metadata
  artifacts (`writers`).
- `cpu6809/`, `cpu6800/` — instruction rows, operand grammar, indexed
  postbytes, sizing and encoding for each CPU.
- `ast` — the syntax tree as plain values, and the text of the AST file.
- `cli/`, `config`, `opts` — options, command line overrides, the merging
  of configuration files with their targets, and the banner.
- `async_tokenize` — the include stack that refuses circular includes, and
  the planning of each round of tokenizing a project and its includes.

`app/` holds what talks to the outside world: the command line definition,
reading configuration files, driving the tokenizing of a project, and
writing output files (binary chunks, the metadata bundle, the AST file).
`tests/` exercise the library on concrete inputs.

What the library does not hold: the tokenizer and parser of source text,
the semantic passes over the syntax tree (scopes, macro expansion, struct
symbols), the full expression evaluator (its functions and floating-point
arithmetic; `assembler/sizer` evaluates integer counts, conditions and
operands), the source positions of the statements (the map from
statements to addresses names them by their AST node), and the driver that runs an assembly from the
project file to the output files.
