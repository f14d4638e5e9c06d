# kimbo

The rules and tables of a UCI chess engine, proved with Verus: board
representation, move generation and making, record (FEN) reading, move
notation, perft, and the tables and heuristics a search uses. The search
itself is not part of this crate.

## Layout

- `src/state/`: the position, its model (`PositionView`) and the rules.
  - `position.rs`: boards, making and taking back moves, pseudo-legal
    generation. Generation is stated exactly by `gen_spec`, making by
    `make_spec`, and taking back restores the position (`lemma_unmake_make`).
  - `movegen.rs`, `consts.rs`: generators and attack sets, with the symmetry
    of the attack relation.
  - `laws.rs`: what every generated move looks like, and that each one can be
    made in a valid position.
  - `complete.rs`: every move a piece, pawn or castling can make is generated.
  - `distinct.rs`: no move is generated twice.
  - `valid.rs`: valid positions, an executable check of validity, and the law
    that a legal move keeps a position valid.
  - `fen.rs`: reading a record into a position.
- `src/engine/`: perft (an exact count of leaf positions), move notation, the
  principal variation, search limits and the transposition table.
- `src/tables/`, `src/hash/`, `src/perft/`: hash tables, killer, counter-move
  and history tables, each with a law relating what is read to what was
  written; `tables/fill.rs` bounds how full the search's table reports
  itself.
- `src/search/`, `src/eval/`, `src/position/`: pruning conditions, move
  ordering, time management, evaluation terms, slider attacks and hashing.
- `src/io/`, `src/uci.rs`: record fields and move notation.
- `app/`: the UCI loop (reading commands, printing, timing).
- `tests/`: unit tests, perft counts among them.
