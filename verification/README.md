# analisador_pascal

A lexer, a recursive-descent parser and a MEPA code generator for a
subset of Pascal, written in Verus: every function of the library carries a
contract, and Verus proves that the code meets it.

## Layout

- `src/tokens.rs` — the kinds of token and the token itself.
- `src/texto.rs` — characters and strings: the calls into the standard
  library that the lexer needs, and decimal text of numbers.
- `src/lexer.rs` — splitting the source text into lines of lexemes,
  classifying them, joining two-character symbols, and the table of tokens;
  with the laws of the splitting and of the line numbers.
- `src/gramatica.rs` — the grammar's rules as functions from the parser's
  state to the state after them, or to the reason it stops.
- `src/parser.rs` — the parser, proved to follow those rules.
- `src/gerador_mepa.rs` — the MEPA code generator, with its model of the code
  each statement gives.
- `src/posfixa.rs` — expressions as trees, and the law that compiling one
  writes it in postfix order and gives the stack of operators back.
- `src/salva_gerador.rs` — a simpler generator for blocks of assignments.
- `src/analisador_lexico.rs` — an empty table of symbols and a test for
  control characters.
- `app/` — the program: it reads `src/input.txt`, runs the three stages and
  prints their results.
- `tests/` — tests on concrete programs and values.
