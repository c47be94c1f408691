# tetka_games

A board game library for engine authors, with its rules proved in Verus.

- `src/interface/`: what every game shares: the bit-set model of BitBoards,
  hashes, FEN piece placement and number parsing, text pictures of boards,
  Move storage (`Vec` and the fixed-capacity `MoveList`), and the traits a
  game implements (`RepresentableType`, `SquareType`, `SetType`,
  `BitBoardType`, `ColorType`, `ColoredPieceType`, `MoveType`,
  `PositionType`, `FENParsablePosition`).
- `src/games/ataxx`, `src/games/isolation`, `src/games/chess`: the boards,
  pieces, Moves, FEN reading, move generation, perft and the properties
  (`laws.rs`) of each game. Each position has a mathematical view (`State`,
  `ChessState`) that the contracts speak of.
- `src/search.rs`: the limits of a `go` command and the negamax search of
  Isolation positions.
- `src/stats.rs`: the statistical models of engine matches and the counting
  of their games.
- `app/`: ordinary Rust around the library: the floating-point match
  statistics, error types with human-readable messages, split perft
  printing and the engines' commands.
- `tests/`: the tests of the library.
